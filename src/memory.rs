use vstd::prelude::*;
use vstd::string::*;
use crate::ast::{Expr, Term, Var};
use crate::error::Error;

verus! {

/// The name-to-expression environment of one evaluation run.
///
/// Bindings are kept in the order they were added; a later binding of a
/// name hides the earlier ones, so `add` behaves as an overwrite.
pub struct Memory {
    vars: Vec<Var>,
}

/// The environment that a list of bindings denotes: the last binding of each
/// name wins.
pub open spec fn bindings(s: Seq<Var>) -> Map<Seq<char>, Term>
    decreases s.len(),
{
    if s.len() == 0 {
        Map::empty()
    } else {
        bindings(s.drop_last()).insert(s.last().name@, s.last().expr@)
    }
}

proof fn lemma_bindings_last(s: Seq<Var>, i: int)
    requires
        0 <= i < s.len(),
        forall|j: int| i < j < s.len() ==> s[j].name@ != s[i].name@,
    ensures
        bindings(s).contains_key(s[i].name@),
        bindings(s)[s[i].name@] == s[i].expr@,
    decreases s.len(),
{
    if i < s.len() - 1 {
        lemma_bindings_last(s.drop_last(), i);
    }
}

proof fn lemma_bindings_absent(s: Seq<Var>, k: Seq<char>)
    requires
        forall|j: int| 0 <= j < s.len() ==> s[j].name@ != k,
    ensures
        !bindings(s).contains_key(k),
    decreases s.len(),
{
    if s.len() > 0 {
        lemma_bindings_absent(s.drop_last(), k);
    }
}

impl View for Memory {
    type V = Map<Seq<char>, Term>;

    closed spec fn view(&self) -> Map<Seq<char>, Term> {
        bindings(self.vars@)
    }
}

impl Memory {
    /// The number of bindings held. No chain of references that avoids a
    /// cycle passes through more bindings than this.
    pub closed spec fn size(&self) -> nat {
        self.vars@.len()
    }

    pub fn new() -> (r: Self)
        ensures
            r@ == Map::<Seq<char>, Term>::empty(),
            r.size() == 0,
    {
        Memory { vars: Vec::new() }
    }

    /// Binds `v.name` to a copy of `v.expr`, replacing any earlier binding.
    pub fn add(&mut self, v: &Var)
        ensures
            final(self)@ == old(self)@.insert(v.name@, v.expr@),
            final(self).size() == old(self).size() + 1,
    {
        let copy = v.duplicate();
        self.vars.push(copy);
        assert(self.vars@.drop_last() =~= old(self).vars@);
    }

    /// The number of bindings held, as an executable count.
    pub fn len(&self) -> (r: usize)
        ensures
            r == self.size(),
    {
        self.vars.len()
    }

    /// The expression bound to `name`, unevaluated.
    pub fn find(&self, name: &str) -> (r: Result<&Expr, Error>)
        ensures
            match r {
                Ok(e) => self@.contains_key(name@) && e@ == self@[name@],
                Err(err) => !self@.contains_key(name@) && err == Error::NotFound,
            },
    {
        let key = String::from_str(name);
        let mut i: usize = self.vars.len();
        while i > 0
            invariant
                i <= self.vars@.len(),
                key@ == name@,
                forall|j: int| i <= j < self.vars@.len() ==> self.vars@[j].name@ != name@,
            decreases i,
        {
            i = i - 1;
            if self.vars[i].name == key {
                proof {
                    lemma_bindings_last(self.vars@, i as int);
                }
                return Ok(&self.vars[i].expr);
            }
        }
        proof {
            lemma_bindings_absent(self.vars@, name@);
        }
        Err(Error::NotFound)
    }
}

impl Default for Memory {
    fn default() -> (r: Self)
        ensures
            r@ == Map::<Seq<char>, Term>::empty(),
            r.size() == 0,
    {
        Memory::new()
    }
}

} // verus!
