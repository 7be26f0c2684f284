//! The names of the nations found over the cap.

use vstd::prelude::*;
use crate::census::contains_name;

verus! {

/// Names of nations over the cap, each once, in the order in which they were
/// found.
#[derive(Debug, PartialEq, Eq)]
pub struct ViolatorSet {
    names: Vec<String>,
}

impl View for ViolatorSet {
    type V = Seq<Seq<char>>;

    closed spec fn view(&self) -> Seq<Seq<char>> {
        self.names.deep_view()
    }
}

impl ViolatorSet {
    #[verifier::type_invariant]
    spec fn distinct(self) -> bool {
        self.names.deep_view().no_duplicates()
    }

    /// The set without a name.
    pub fn new() -> (set: ViolatorSet)
        ensures
            set@ == Seq::<Seq<char>>::empty(),
    {
        ViolatorSet { names: Vec::new() }
    }

    /// Puts `name` behind the names that are there, unless it is one of
    /// them. Says whether the name was new.
    pub fn insert(&mut self, name: String) -> (added: bool)
        ensures
            added == !old(self)@.contains(name@),
            final(self)@ == if added {
                old(self)@.push(name@)
            } else {
                old(self)@
            },
            final(self)@.no_duplicates(),
    {
        proof {
            use_type_invariant(&*self);
        }
        if contains_name(&self.names, &name) {
            false
        } else {
            let mut names: Vec<String> = Vec::new();
            core::mem::swap(&mut self.names, &mut names);
            let ghost before = names.deep_view();
            names.push(name);
            assert(names.deep_view() =~= before.push(name@));
            core::mem::swap(&mut self.names, &mut names);
            true
        }
    }

    /// Whether `name` is in the set.
    pub fn contains(&self, name: &String) -> (found: bool)
        ensures
            found == self@.contains(name@),
    {
        contains_name(&self.names, name)
    }

    /// Number of names in the set.
    pub fn len(&self) -> (n: usize)
        ensures
            n == self@.len(),
    {
        self.names.len()
    }

    /// The names, in the order in which they were found. No name is there
    /// twice.
    pub fn names(&self) -> (names: &Vec<String>)
        ensures
            names.deep_view() == self@,
            self@.no_duplicates(),
    {
        proof {
            use_type_invariant(self);
        }
        &self.names
    }
}

} // verus!
