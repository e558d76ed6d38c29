//! Front matter: lines of the form `;key: value` anywhere in a Markdown
//! source are bindings, not text. This module parts the two.

use vstd::prelude::*;
use crate::scope::Bindings;
use crate::text::{
    chars_of,
    count_leading_spaces,
    position_from,
    position_of,
    slice_of,
    string_of,
    trim,
    trim_start,
    trimmed,
    lemma_spaces_from_bound,
};

verus! {

/// The number of characters of `text` from position `from` up to the next
/// line feed or the end.
pub open spec fn line_len(text: Seq<char>, from: int) -> nat
    decreases text.len() - from,
{
    if 0 <= from < text.len() && text[from] != '\n' {
        1 + line_len(text, from + 1)
    } else {
        0
    }
}

/// `line` without one trailing carriage return.
pub open spec fn without_cr(line: Seq<char>) -> Seq<char> {
    if line.len() > 0 && line.last() == '\r' {
        line.drop_last()
    } else {
        line
    }
}

/// The lines of `text` from position `from` on. A line ends at a line feed,
/// which is not part of it, nor is a carriage return just before the line
/// feed. The last line needs no line feed, and an empty rest is no line.
pub open spec fn lines_from(text: Seq<char>, from: int) -> Seq<Seq<char>>
    decreases text.len() - from,
{
    if 0 <= from < text.len() {
        let end = from + line_len(text, from);
        if end >= text.len() {
            seq![text.subrange(from, text.len() as int)]
        } else {
            seq![without_cr(text.subrange(from, end))] + lines_from(text, end + 1)
        }
    } else {
        Seq::empty()
    }
}

/// The lines of `text`.
pub open spec fn lines(text: Seq<char>) -> Seq<Seq<char>> {
    lines_from(text, 0)
}

/// Whether `line` is a binding line: its first character after leading
/// whitespace is a semicolon.
pub open spec fn is_binding_line(line: Seq<char>) -> bool {
    trim_start(line).len() > 0 && trim_start(line)[0] == ';'
}

/// The key and the value of a binding line: what stands between the
/// semicolon and the first colon, and what stands after that colon, both
/// trimmed. A binding line without a colon binds nothing.
pub open spec fn binding_of(line: Seq<char>) -> Option<(Seq<char>, Seq<char>)> {
    let t = trim_start(line);
    let colon = position_from(t, ':', 0);
    if is_binding_line(line) && colon < t.len() {
        Some((trim(t.subrange(1, colon)), trim(t.subrange(colon + 1, t.len() as int))))
    } else {
        None
    }
}

/// The bindings that the binding lines among `lines` make, a later line
/// replacing what an earlier one bound to the same key.
pub open spec fn bindings_of(lines: Seq<Seq<char>>) -> Map<Seq<char>, Seq<char>>
    decreases lines.len(),
{
    if lines.len() == 0 {
        Map::empty()
    } else {
        let before = bindings_of(lines.drop_last());
        match binding_of(lines.last()) {
            Some((key, value)) => before.insert(key, value),
            None => before,
        }
    }
}

/// The lines among `lines` that are no binding lines, in order, each
/// followed by a line feed.
pub open spec fn body_of(lines: Seq<Seq<char>>) -> Seq<char>
    decreases lines.len(),
{
    if lines.len() == 0 {
        Seq::empty()
    } else {
        let before = body_of(lines.drop_last());
        if is_binding_line(lines.last()) {
            before
        } else {
            before + lines.last() + seq!['\n']
        }
    }
}

/// A Markdown source parted into its bindings and its body.
pub struct FrontMatter {
    pub vars: Bindings,
    pub body: String,
}

/// The lines of `chars`, in order.
pub fn split_lines(chars: &Vec<char>) -> (found: Vec<Vec<char>>)
    ensures
        found@.map_values(|l: Vec<char>| l@) == lines(chars@),
{
    let mut found: Vec<Vec<char>> = Vec::new();
    let mut start: usize = 0;
    let ghost views = |l: Vec<char>| l@;
    assert(found@.map_values(views) =~= Seq::<Seq<char>>::empty());
    while start < chars.len()
        invariant
            start <= chars.len(),
            views == |l: Vec<char>| l@,
            lines(chars@) == found@.map_values(views) + lines_from(chars@, start as int),
        decreases chars.len() - start,
    {
        let mut end: usize = start;
        while end < chars.len() && chars[end] != '\n'
            invariant
                start <= end <= chars.len(),
                line_len(chars@, start as int) == (end - start) + line_len(chars@, end as int),
            decreases chars.len() - end,
        {
            end = end + 1;
        }
        let ghost before = found@.map_values(views);
        if end >= chars.len() {
            let line = slice_of(chars, start, chars.len());
            found.push(line);
            assert(found@.map_values(views) =~= before + seq![line@]);
            assert(lines_from(chars@, chars.len() as int) =~= Seq::<Seq<char>>::empty());
            start = chars.len();
        } else {
            let stop: usize = if end > start && chars[end - 1] == '\r' {
                end - 1
            } else {
                end
            };
            let line = slice_of(chars, start, stop);
            assert(line@ == without_cr(chars@.subrange(start as int, end as int)));
            found.push(line);
            assert(found@.map_values(views) =~= before + seq![line@]);
            start = end + 1;
        }
    }
    assert(lines_from(chars@, start as int) =~= Seq::<Seq<char>>::empty());
    found
}

/// Parts `text` into the bindings of its binding lines and the text of its
/// other lines.
pub fn split_front_matter(text: &str) -> (parted: FrontMatter)
    ensures
        parted.vars@ == bindings_of(lines(text@)),
        parted.body@ == body_of(lines(text@)),
{
    let chars = chars_of(text);
    let all = split_lines(&chars);
    let mut vars = Bindings::new();
    let mut body: Vec<char> = Vec::new();
    let ghost views = |l: Vec<char>| l@;
    let ghost spec_lines = all@.map_values(views);
    let mut i: usize = 0;
    assert(spec_lines.take(0) =~= Seq::<Seq<char>>::empty());
    while i < all.len()
        invariant
            i <= all.len(),
            spec_lines == all@.map_values(|l: Vec<char>| l@),
            vars@ == bindings_of(spec_lines.take(i as int)),
            body@ == body_of(spec_lines.take(i as int)),
        decreases all.len() - i,
    {
        let line = &all[i];
        assert(spec_lines[i as int] == line@);
        assert(spec_lines.take(i + 1).drop_last() == spec_lines.take(i as int));
        assert(spec_lines.take(i + 1).last() == line@);
        let lead = count_leading_spaces(line);
        proof {
            lemma_spaces_from_bound(line@, 0);
        }
        if lead < line.len() && line[lead] == ';' {
            let rest = slice_of(line, lead, line.len());
            assert(rest@ == trim_start(line@));
            let colon = position_of(&rest, ':');
            if colon < rest.len() {
                let key_part = slice_of(&rest, 1, colon);
                let value_part = slice_of(&rest, colon + 1, rest.len());
                vars.insert(trimmed(&key_part), trimmed(&value_part));
            }
        } else {
            let mut j: usize = 0;
            let ghost start = body@;
            while j < line.len()
                invariant
                    j <= line.len(),
                    body@ == start + line@.take(j as int),
                decreases line.len() - j,
            {
                body.push(line[j]);
                assert(line@.take(j + 1) == line@.take(j as int).push(line@[j as int]));
                j = j + 1;
            }
            assert(line@.take(line.len() as int) == line@);
            body.push('\n');
            assert(body@ =~= start + line@ + seq!['\n']);
        }
        i = i + 1;
    }
    assert(spec_lines.take(all.len() as int) == spec_lines);
    FrontMatter { vars, body: string_of(&body, 0, body.len()) }
}

} // verus!
