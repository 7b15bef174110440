//! A set of paths, kept in the order in which the paths came.

use crate::text::string_views;
use vstd::prelude::*;

verus! {

/// A set of paths. It is a list in which no path occurs twice; as a value it
/// stands for the set of the paths in it.
#[derive(Debug)]
pub struct PathSet {
    /// The paths, each once, in the order in which they were inserted.
    pub paths: Vec<String>,
}

impl View for PathSet {
    type V = Set<Seq<char>>;

    open spec fn view(&self) -> Set<Seq<char>> {
        string_views(self.paths@).to_set()
    }
}

impl PathSet {
    /// No path occurs twice in the list.
    pub open spec fn wf(&self) -> bool {
        string_views(self.paths@).no_duplicates()
    }

    /// The paths as texts, in their order.
    pub open spec fn texts(&self) -> Seq<Seq<char>> {
        string_views(self.paths@)
    }

    /// The empty set.
    pub fn new() -> (set: PathSet)
        ensures
            set.wf(),
            set.texts() == Seq::<Seq<char>>::empty(),
            set@ == Set::<Seq<char>>::empty(),
    {
        let set = PathSet { paths: Vec::new() };
        assert(set.texts() =~= Seq::<Seq<char>>::empty());
        assert(set@ =~= Set::<Seq<char>>::empty());
        set
    }

    /// Number of paths in the set.
    pub fn len(&self) -> (n: usize)
        ensures
            n == self.texts().len(),
            self.wf() ==> n == self@.len(),
    {
        proof {
            if self.wf() {
                self.texts().unique_seq_to_set();
            }
        }
        self.paths.len()
    }

    /// Tells whether the set holds `path`.
    pub fn contains(&self, path: &String) -> (b: bool)
        ensures
            b == self@.contains(path@),
    {
        let mut i: usize = 0;
        while i < self.paths.len()
            invariant
                i <= self.paths.len(),
                forall|j: int| 0 <= j < i ==> self.texts()[j] != path@,
            decreases self.paths.len() - i,
        {
            if self.paths[i] == *path {
                assert(self.texts()[i as int] == path@);
                return true;
            }
            i += 1;
        }
        assert(!self.texts().contains(path@));
        false
    }

    /// Adds `path` to the set, at the end of the list if it is new; tells
    /// whether it was new.
    pub fn insert(&mut self, path: String) -> (added: bool)
        ensures
            added == !old(self)@.contains(path@),
            final(self)@ == old(self)@.insert(path@),
            final(self).texts() == if added {
                old(self).texts().push(path@)
            } else {
                old(self).texts()
            },
            old(self).wf() ==> final(self).wf(),
    {
        if self.contains(&path) {
            assert(self@.insert(path@) =~= self@);
            false
        } else {
            let ghost text = path@;
            self.paths.push(path);
            proof {
                let before = old(self).texts();
                assert(self.texts() =~= before.push(text));
                assert forall|t: Seq<char>| self@.contains(t) <==> old(self)@.insert(
                    text,
                ).contains(t) by {
                    if self@.contains(t) {
                        let i = choose|i: int| 0 <= i < self.texts().len() && self.texts()[i] == t;
                        if i < before.len() {
                            assert(before[i] == t);
                        }
                    }
                    if old(self)@.contains(t) {
                        let i = choose|i: int| 0 <= i < before.len() && before[i] == t;
                        assert(self.texts()[i] == t);
                    }
                    if t == text {
                        assert(self.texts()[before.len() as int] == t);
                    }
                }
                assert(self@ =~= old(self)@.insert(text));
            }
            true
        }
    }
}

} // verus!
