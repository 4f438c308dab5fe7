//! An in-memory model of the filesystem names the engine touches.
//!
//! The engine itself never performs a move; a caller that drives it
//! against the real filesystem mirrors [`FsState::attempt_move`]'s
//! check-then-rename behaviour there.  This model carries the same
//! contract in verified form and lets a whole transaction be exercised
//! without any real files.

use vstd::prelude::*;

use crate::codec::bytes_eq;
use crate::engine::MoveFailure;

verus! {

/// The set of paths that currently exist, as a duplicate-free list.
pub struct FsState {
    files: Vec<Vec<u8>>,
}

impl FsState {
    /// No path occurs twice.
    pub closed spec fn inv(&self) -> bool {
        forall|i: int, j: int|
            0 <= i < j < self.files@.len() ==> (#[trigger] self.files@[i])@ != (
            #[trigger] self.files@[j])@
    }

    /// Whether a file exists at path `p`.
    pub closed spec fn has(&self, p: Seq<u8>) -> bool {
        exists|i: int| 0 <= i < self.files@.len() && (#[trigger] self.files@[i])@ == p
    }

    /// An empty filesystem.
    pub fn new() -> (r: Self)
        ensures
            r.inv(),
            forall|p: Seq<u8>| !r.has(p),
    {
        Self { files: Vec::new() }
    }

    /// The position of `p`, if it exists.
    fn find(&self, p: &[u8]) -> (r: Option<usize>)
        ensures
            match r {
                Some(i) => i < self.files@.len() && self.files@[i as int]@ == p@,
                None => !self.has(p@),
            },
    {
        let mut i: usize = 0;
        while i < self.files.len()
            invariant
                i <= self.files@.len(),
                forall|j: int| 0 <= j < i as int ==> (#[trigger] self.files@[j])@ != p@,
            decreases self.files@.len() - i as int,
        {
            if bytes_eq(self.files[i].as_slice(), p) {
                return Some(i);
            }
            i = i + 1;
        }
        None
    }

    /// Whether a file exists at path `p`.
    pub fn exists_file(&self, p: &[u8]) -> (b: bool)
        ensures
            b == self.has(p@),
    {
        match self.find(p) {
            Some(_) => true,
            None => false,
        }
    }

    /// Create a file at `p` if there is none yet.
    pub fn touch(&mut self, p: &[u8])
        requires
            old(self).inv(),
        ensures
            final(self).inv(),
            forall|q: Seq<u8>| final(self).has(q) == (old(self).has(q) || q == p@),
    {
        if self.find(p).is_none() {
            let ghost prev = self.files@;
            self.files.push(vstd::slice::slice_to_vec(p));
            proof {
                assert forall|q: Seq<u8>| self.has(q) == (old(self).has(q) || q == p@) by {
                    if old(self).has(q) {
                        let i = choose|i: int|
                            0 <= i < prev.len() && (#[trigger] prev[i])@ == q;
                        assert(self.files@[i]@ == q);
                    }
                    if q == p@ {
                        assert(self.files@[prev.len() as int]@ == q);
                    }
                    if self.has(q) {
                        let i = choose|i: int|
                            0 <= i < self.files@.len() && (#[trigger] self.files@[i])@ == q;
                        if i < prev.len() {
                            assert(prev[i]@ == q);
                        }
                    }
                }
            }
        } else {
            proof {
                assert(old(self).has(p@));
            }
        }
    }

    /// The conflict-safe rename primitive.
    ///
    /// If the target already exists the move fails with `TargetExists`
    /// and nothing is touched, whatever the state of the source.
    /// Otherwise an existing source is moved onto the target name, and a
    /// missing source fails with `OsError`, again touching nothing.
    pub fn attempt_move(&mut self, from: &[u8], to: &[u8]) -> (r: Result<(), MoveFailure>)
        requires
            old(self).inv(),
        ensures
            final(self).inv(),
            old(self).has(to@) ==> r == Err::<(), MoveFailure>(MoveFailure::TargetExists)
                && *final(self) == *old(self),
            !old(self).has(to@) && old(self).has(from@) ==> r == Ok::<(), MoveFailure>(())
                && forall|q: Seq<u8>|
                final(self).has(q) == (q == to@ || (old(self).has(q) && q != from@)),
            !old(self).has(to@) && !old(self).has(from@) ==> r == Err::<(), MoveFailure>(
                MoveFailure::OsError,
            ) && *final(self) == *old(self),
    {
        if self.exists_file(to) {
            return Err(MoveFailure::TargetExists);
        }
        match self.find(from) {
            None => Err(MoveFailure::OsError),
            Some(i) => {
                let ghost prev = self.files@;
                self.files.remove(i);
                let ghost mid = self.files@;
                self.files.push(vstd::slice::slice_to_vec(to));
                proof {
                    assert(mid =~= prev.remove(i as int));
                    assert forall|q: Seq<u8>|
                        self.has(q) == (q == to@ || (old(self).has(q) && q != from@)) by {
                        lemma_remove_has(prev, mid, i as int, q);
                        if q == to@ {
                            assert(self.files@[mid.len() as int]@ == q);
                        }
                        if old(self).has(q) && q != from@ {
                            let w = choose|w: int|
                                0 <= w < prev.len() && (#[trigger] prev[w])@ == q;
                            assert(w != i);
                            if w < i {
                                assert(mid[w]@ == q);
                            } else {
                                assert(mid[w - 1]@ == q);
                            }
                            assert(self.files@[if w < i {
                                w
                            } else {
                                w - 1
                            }]@ == q);
                        }
                        if self.has(q) && q != to@ {
                            let w = choose|w: int|
                                0 <= w < self.files@.len() && (#[trigger] self.files@[w])@ == q;
                            assert(w < mid.len());
                            assert(mid[w]@ == q);
                            if w < i {
                                assert(prev[w]@ == q);
                            } else {
                                assert(prev[w + 1]@ == q);
                            }
                            assert(old(self).has(q));
                            assert(q != from@) by {
                                if q == from@ {
                                    let v = if w < i {
                                        w
                                    } else {
                                        w + 1
                                    };
                                    assert(prev[v]@ == prev[i as int]@);
                                    assert(v != i);
                                }
                            }
                        }
                    }
                    assert forall|a: int, b: int|
                        0 <= a < b < self.files@.len() implies (#[trigger] self.files@[a])@ != (
                    #[trigger] self.files@[b])@ by {
                        if b < mid.len() {
                            lemma_remove_keeps(prev, mid, i as int, a);
                            lemma_remove_keeps(prev, mid, i as int, b);
                        } else {
                            lemma_remove_keeps(prev, mid, i as int, a);
                            assert(self.files@[b]@ == to@);
                            assert(!old(self).has(to@));
                        }
                    }
                }
                Ok(())
            },
        }
    }
}

/// After removing position `i`, every remaining slot still holds a path
/// that was present before, and no occurrence of a path other than the
/// removed slot's is lost.
proof fn lemma_remove_has(prev: Seq<Vec<u8>>, mid: Seq<Vec<u8>>, i: int, q: Seq<u8>)
    requires
        0 <= i < prev.len(),
        mid == prev.remove(i),
    ensures
        forall|w: int| 0 <= w < i ==> #[trigger] mid[w] == prev[w],
        forall|w: int| i <= w < mid.len() ==> #[trigger] mid[w] == prev[w + 1],
        mid.len() == prev.len() - 1,
{
}

/// A slot surviving a removal holds what some slot held before.
proof fn lemma_remove_keeps(prev: Seq<Vec<u8>>, mid: Seq<Vec<u8>>, i: int, w: int)
    requires
        0 <= i < prev.len(),
        mid == prev.remove(i),
        0 <= w < mid.len(),
    ensures
        mid[w] == if w < i {
            prev[w]
        } else {
            prev[w + 1]
        },
{
}

} // verus!
