//! The configuration of a build: where variables come from and which
//! sources make which outputs.

use vstd::prelude::*;
use crate::scope::{Bindings, VarStack};

verus! {

/// Where the value of a variable comes from, as contracts see it.
pub enum VarSourceView {
    Text(Seq<char>),
    Env(Seq<char>),
}

/// Where the value of a variable comes from.
#[derive(Debug)]
pub enum VarSource {
    /// The value itself.
    Text(String),
    /// The name of an environment variable that holds the value.
    Env(String),
}

impl View for VarSource {
    type V = VarSourceView;

    open spec fn view(&self) -> VarSourceView {
        match self {
            VarSource::Text(text) => VarSourceView::Text(text@),
            VarSource::Env(name) => VarSourceView::Env(name@),
        }
    }
}

/// What makes an output: a glob pattern for the files and what to do with
/// them.
#[derive(Debug)]
pub enum Source {
    /// HTML sources, resolved.
    Html(String),
    /// Files copied as they are.
    Copy(String),
    /// Markdown sources, rendered and wrapped for `template` if that is not
    /// empty.
    Md { src: String, template: String },
    /// Reserved.
    For(String),
}

impl Source {
    /// The glob pattern that names the files of this source.
    pub fn pattern(&self) -> (pattern: &String)
        ensures
            *pattern == match *self {
                Source::Html(src) => src,
                Source::Copy(src) => src,
                Source::Md { src, .. } => src,
                Source::For(src) => src,
            },
    {
        match self {
            Source::Html(src) => src,
            Source::Copy(src) => src,
            Source::Md { src, .. } => src,
            Source::For(src) => src,
        }
    }
}

/// One configured variable.
#[derive(Debug)]
pub struct Variable {
    pub name: String,
    pub source: VarSource,
}

/// The configuration of a build.
#[derive(Debug)]
pub struct ProjectConfig {
    /// The variables of the outermost scope. Of two with one name the
    /// later counts.
    pub vars: Vec<Variable>,
    /// The output directory.
    pub dist: String,
    /// The outputs: the output name and what makes it.
    pub src: Vec<(String, Source)>,
}

/// Why a configuration cannot be used.
#[derive(Debug, PartialEq, Eq)]
pub enum ConfigError {
    /// A variable refers to the environment variable `name`, which is not
    /// set.
    MissingEnv { name: String },
}

/// The values of `vars` in the environment `env`, or the name of the first
/// environment variable that a variable refers to and `env` lacks.
pub open spec fn resolved_vars(vars: Seq<Variable>, env: Map<Seq<char>, Seq<char>>) -> Result<
    Map<Seq<char>, Seq<char>>,
    Seq<char>,
>
    decreases vars.len(),
{
    if vars.len() == 0 {
        Ok(Map::empty())
    } else {
        match resolved_vars(vars.drop_last(), env) {
            Err(name) => Err(name),
            Ok(before) => match vars.last().source {
                VarSource::Text(text) => Ok(before.insert(vars.last().name@, text@)),
                VarSource::Env(name) => if env.contains_key(name@) {
                    Ok(before.insert(vars.last().name@, env[name@]))
                } else {
                    Err(name@)
                },
            },
        }
    }
}

impl ProjectConfig {
    /// The outermost scope: one layer that binds every configured variable
    /// to its value, environment variables looked up in `env`.
    pub fn get_stack(&self, env: &Bindings) -> (res: Result<VarStack, ConfigError>)
        ensures
            match resolved_vars(self.vars@, env@) {
                Ok(vars) => res matches Ok(stack) && stack@ == seq![vars],
                Err(name) => res matches Err(ConfigError::MissingEnv { name: n }) && n@ == name,
            },
    {
        let mut vars = Bindings::new();
        let mut i: usize = 0;
        assert(self.vars@.take(0) =~= Seq::<Variable>::empty());
        while i < self.vars.len()
            invariant
                i <= self.vars.len(),
                resolved_vars(self.vars@.take(i as int), env@) == Ok::<
                    Map<Seq<char>, Seq<char>>,
                    Seq<char>,
                >(vars@),
            decreases self.vars.len() - i,
        {
            let var = &self.vars[i];
            assert(self.vars@.take(i + 1).drop_last() == self.vars@.take(i as int));
            assert(self.vars@.take(i + 1).last() == *var);
            let value = match &var.source {
                VarSource::Text(text) => text.clone(),
                VarSource::Env(name) => match env.get(name.as_str()) {
                    Some(value) => value,
                    None => {
                        proof {
                            lemma_missing_stays_missing(self.vars@, env@, i + 1);
                        }
                        return Err(ConfigError::MissingEnv { name: name.clone() });
                    },
                },
            };
            vars.insert(var.name.clone(), value);
            i = i + 1;
        }
        assert(self.vars@.take(self.vars.len() as int) == self.vars@);
        Ok(VarStack::new(vars))
    }
}

/// Once a prefix of the variables fails, the whole list fails in the same
/// way.
proof fn lemma_missing_stays_missing(
    vars: Seq<Variable>,
    env: Map<Seq<char>, Seq<char>>,
    n: int,
)
    requires
        0 <= n <= vars.len(),
        resolved_vars(vars.take(n), env) is Err,
    ensures
        resolved_vars(vars, env) == resolved_vars(vars.take(n), env),
    decreases vars.len() - n,
{
    if n < vars.len() {
        assert(vars.take(n + 1).drop_last() == vars.take(n));
        lemma_missing_stays_missing(vars, env, n + 1);
    } else {
        assert(vars.take(n) == vars);
    }
}

} // verus!
