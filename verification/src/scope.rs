//! The variable scope chain: layered bindings with lexical shadowing.

use vstd::prelude::*;
use std::rc::Rc;

verus! {

/// One name bound to one value.
pub struct Binding {
    pub key: String,
    pub value: String,
}

/// What a list of bindings means: later bindings of a name replace earlier
/// ones.
pub open spec fn bindings_map(entries: Seq<Binding>) -> Map<Seq<char>, Seq<char>>
    decreases entries.len(),
{
    if entries.len() == 0 {
        Map::empty()
    } else {
        bindings_map(entries.drop_last()).insert(entries.last().key@, entries.last().value@)
    }
}

/// A finite mapping from names to values, filled one binding at a time.
pub struct Bindings {
    pub entries: Vec<Binding>,
}

impl View for Bindings {
    type V = Map<Seq<char>, Seq<char>>;

    open spec fn view(&self) -> Map<Seq<char>, Seq<char>> {
        bindings_map(self.entries@)
    }
}

impl Bindings {
    /// The mapping that binds nothing.
    pub fn new() -> (b: Bindings)
        ensures
            b@ == Map::<Seq<char>, Seq<char>>::empty(),
    {
        Bindings { entries: Vec::new() }
    }

    /// Binds `key` to `value`, replacing what `key` was bound to before.
    pub fn insert(&mut self, key: String, value: String)
        ensures
            final(self)@ == old(self)@.insert(key@, value@),
    {
        self.entries.push(Binding { key, value });
        assert(self.entries@.drop_last() == old(self).entries@);
    }

    /// The value bound to `key`, if any.
    pub fn get(&self, key: &str) -> (found: Option<String>)
        ensures
            found is Some <==> self@.contains_key(key@),
            found matches Some(v) ==> v@ == self@[key@],
    {
        let wanted = key.to_owned();
        let mut i: usize = self.entries.len();
        assert(self.entries@.take(i as int) == self.entries@);
        while i > 0
            invariant
                i <= self.entries.len(),
                wanted@ == key@,
                bindings_map(self.entries@).contains_key(key@) <==> bindings_map(
                    self.entries@.take(i as int),
                ).contains_key(key@),
                bindings_map(self.entries@).contains_key(key@) ==> bindings_map(self.entries@)[key@]
                    == bindings_map(self.entries@.take(i as int))[key@],
            decreases i,
        {
            let ghost prefix = self.entries@.take(i as int);
            assert(prefix.drop_last() == self.entries@.take(i - 1));
            assert(prefix.last() == self.entries@[i - 1]);
            i = i - 1;
            if self.entries[i].key == wanted {
                return Some(self.entries[i].value.clone());
            }
        }
        assert(self.entries@.take(0).len() == 0);
        None
    }
}

/// Looks `key` up in a chain of layers, innermost first: the first layer
/// that binds it decides.
pub open spec fn lookup(layers: Seq<Map<Seq<char>, Seq<char>>>, key: Seq<char>) -> Option<
    Seq<char>,
>
    decreases layers.len(),
{
    if layers.len() == 0 {
        None
    } else if layers[0].contains_key(key) {
        Some(layers[0][key])
    } else {
        lookup(layers.drop_first(), key)
    }
}

/// One layer of a scope chain together with the chain that encloses it.
struct Layer {
    vars: Bindings,
    prev: Option<VarStack>,
}

/// An immutable, shared chain of binding layers. Extending a chain makes a
/// new chain that points at the old one; the old one is never edited.
pub struct VarStack {
    inner: Rc<Layer>,
}

/// `Rc::clone`: a second handle to the same allocation, hence to an equal
/// value.
#[verifier::external_body]
fn share(inner: &Rc<Layer>) -> (shared: Rc<Layer>)
    ensures
        shared == *inner,
{
    Rc::clone(inner)
}

impl View for VarStack {
    type V = Seq<Map<Seq<char>, Seq<char>>>;

    /// The layers of the chain, innermost first. The outermost layer is
    /// always there, if only empty.
    closed spec fn view(&self) -> Seq<Map<Seq<char>, Seq<char>>>
        decreases self,
    {
        match self.inner.prev {
            Some(outer) => seq![self.inner.vars@] + outer.view(),
            None => seq![self.inner.vars@],
        }
    }
}

impl Clone for VarStack {
    fn clone(&self) -> (copy: VarStack)
        ensures
            copy@ == self@,
    {
        VarStack { inner: share(&self.inner) }
    }
}

impl Default for VarStack {
    fn default() -> (stack: VarStack)
        ensures
            stack@ == seq![Map::<Seq<char>, Seq<char>>::empty()],
    {
        VarStack { inner: Rc::new(Layer { vars: Bindings::new(), prev: None }) }
    }
}

impl VarStack {
    /// A chain of one layer.
    pub fn new(vars: Bindings) -> (stack: VarStack)
        ensures
            stack@ == seq![vars@],
    {
        VarStack { inner: Rc::new(Layer { vars, prev: None }) }
    }

    /// The value of `key`: that of the innermost layer that binds it.
    pub fn get(&self, key: &str) -> (found: Option<String>)
        ensures
            found is Some <==> lookup(self@, key@) is Some,
            found matches Some(v) ==> lookup(self@, key@) == Some(v@),
        decreases self,
    {
        proof {
            self.lemma_innermost();
        }
        match self.inner.vars.get(key) {
            Some(value) => Some(value),
            None => {
                match &self.inner.prev {
                    Some(outer) => {
                        outer.get(key)
                    },
                    None => {
                        assert(lookup(self@.drop_first(), key@) is None);
                        None
                    },
                }
            },
        }
    }

    /// The first layer of the view is the chain's own layer.
    proof fn lemma_innermost(&self)
        ensures
            self@.len() > 0,
            self@[0] == self.inner.vars@,
            self.inner.prev matches Some(outer) ==> self@.drop_first() == outer@,
            self.inner.prev is None ==> self@.drop_first().len() == 0,
    {
        match self.inner.prev {
            Some(outer) => {
                assert(self@ == seq![self.inner.vars@] + outer@);
                assert(self@.drop_first() == outer@);
            },
            None => {
                assert(self@ == seq![self.inner.vars@]);
            },
        }
    }

    /// A new chain whose innermost layer is `vars` and whose enclosing
    /// chain is this one, which stays as it was.
    pub fn combine(&self, vars: Bindings) -> (extended: VarStack)
        ensures
            extended@ == seq![vars@] + self@,
    {
        VarStack { inner: Rc::new(Layer { vars, prev: Some(self.clone()) }) }
    }
}

/// Lookup in an extended chain: a name bound by the new layer has the new
/// layer's value, and every other name has the value it had in the chain
/// that was extended.
pub proof fn lemma_lookup_extended(
    outer: Seq<Map<Seq<char>, Seq<char>>>,
    vars: Map<Seq<char>, Seq<char>>,
    key: Seq<char>,
)
    ensures
        lookup(seq![vars] + outer, key) == if vars.contains_key(key) {
            Some(vars[key])
        } else {
            lookup(outer, key)
        },
{
    assert((seq![vars] + outer).drop_first() == outer);
}

} // verus!
