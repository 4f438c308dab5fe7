//! The rename transaction engine.
//!
//! A [`Transaction`] drives one run over an ordered list of
//! [`RenameItem`]s.  The engine owns every decision: which move to
//! attempt next, what a failure means, when to enter rollback, and
//! whether the run's change list may be recorded.  The caller performs
//! the actual filesystem moves and asks the user the stuck-resolution
//! questions, reporting each result back through the methods below.

use vstd::prelude::*;

use crate::action_history::ChangeList;
use crate::codec::bytes_eq;

verus! {

/// What happened to one item so far.
///
/// `Unchanged` is both the initial state and the terminal state of
/// skipped, aborted and successfully rolled-back items;
/// `RenamedApplied` marks a rename that succeeded and has not been
/// rolled back; `NoopIdentical` marks an item whose two paths were
/// identical, which is never attempted.
#[derive(Clone, Copy, PartialEq, Eq, Structural, Debug)]
pub enum Outcome {
    Unchanged,
    RenamedApplied,
    NoopIdentical,
}

/// Why a move could not be applied: the target name is already taken,
/// or the underlying rename failed for any other reason.
#[derive(Clone, Copy, PartialEq, Eq, Structural, Debug)]
pub enum MoveFailure {
    TargetExists,
    OsError,
}

/// The user's answer when a forward move is stuck.
#[derive(Clone, Copy, PartialEq, Eq, Structural, Debug)]
pub enum ActionWhenStuck {
    Retry,
    Skip,
    Abort,
    Rollback,
}

/// The user's answer when a rollback move is stuck.  Rollback never
/// offers to roll back the rollback.
#[derive(Clone, Copy, PartialEq, Eq, Structural, Debug)]
pub enum ActionWhenStuckRollingBack {
    Retry,
    Skip,
    AbortRollback,
}

/// Where a transaction stands: attempting a forward move, waiting for a
/// forward stuck answer, attempting a rollback move, waiting for a
/// rollback stuck answer, or finished.
#[derive(Clone, Copy, PartialEq, Eq, Structural, Debug)]
pub enum Phase {
    ForwardMove,
    ForwardStuck,
    RollbackMove,
    RollbackStuck,
    Done,
}

/// One file's before/after path pair and its outcome.
#[derive(Clone, Debug)]
pub struct RenameItem {
    pub path_before: Vec<u8>,
    pub path_after: Vec<u8>,
    pub outcome: Outcome,
}

/// The `(from, to)` pair an item's successful rename contributes to the
/// change list.
pub open spec fn item_pair(it: RenameItem) -> (Seq<u8>, Seq<u8>) {
    (it.path_before@, it.path_after@)
}

/// An item whose rename would not change anything.
pub open spec fn is_noop(it: RenameItem) -> bool {
    it.path_before@ == it.path_after@
}

/// An outcome never contradicts the paths: only identical pairs are
/// marked `NoopIdentical`, and only differing pairs are ever applied.
pub open spec fn outcome_consistent(it: RenameItem) -> bool {
    &&& it.outcome is NoopIdentical ==> is_noop(it)
    &&& it.outcome is RenamedApplied ==> !is_noop(it)
}

/// The `(from, to)` pairs of the items marked `RenamedApplied`, in item
/// order.
pub open spec fn applied_pairs(s: Seq<RenameItem>) -> Seq<(Seq<u8>, Seq<u8>)>
    decreases s.len(),
{
    if s.len() == 0 {
        Seq::empty()
    } else {
        let rest = applied_pairs(s.drop_last());
        if s.last().outcome is RenamedApplied {
            rest.push(item_pair(s.last()))
        } else {
            rest
        }
    }
}

/// The first position at or after `i` whose item actually needs a move
/// (its two paths differ), or the length if there is none.
pub open spec fn next_forward(s: Seq<RenameItem>, i: int) -> int
    decreases s.len() - i,
{
    if i >= s.len() {
        s.len() as int
    } else if !is_noop(s[i]) {
        i
    } else {
        next_forward(s, i + 1)
    }
}

/// The first position at or after `i` whose item is `RenamedApplied`
/// (and so still has a rename to undo), or the length if there is none.
pub open spec fn next_rollback(s: Seq<RenameItem>, i: int) -> int
    decreases s.len() - i,
{
    if i >= s.len() {
        s.len() as int
    } else if s[i].outcome is RenamedApplied {
        i
    } else {
        next_rollback(s, i + 1)
    }
}

/// Extending the processed prefix by one item extends its applied pairs
/// exactly when that item is `RenamedApplied`.
pub proof fn lemma_applied_pairs_step(s: Seq<RenameItem>, k: int)
    requires
        0 <= k < s.len(),
    ensures
        applied_pairs(s.take(k + 1)) == if s[k].outcome is RenamedApplied {
            applied_pairs(s.take(k)).push(item_pair(s[k]))
        } else {
            applied_pairs(s.take(k))
        },
{
    assert(s.take(k + 1).drop_last() =~= s.take(k));
    assert(s.take(k + 1).last() == s[k]);
}

/// Items beyond the processed prefix contribute nothing to the applied
/// pairs as long as none of them is `RenamedApplied`.
pub proof fn lemma_applied_pairs_unchanged_suffix(s: Seq<RenameItem>, k: int)
    requires
        0 <= k <= s.len(),
        forall|i: int| k <= i < s.len() ==> !((#[trigger] s[i]).outcome is RenamedApplied),
    ensures
        applied_pairs(s) == applied_pairs(s.take(k)),
    decreases s.len() - k,
{
    if k == s.len() {
        assert(s.take(k) =~= s);
    } else {
        lemma_applied_pairs_step(s, k);
        lemma_applied_pairs_unchanged_suffix(s, k + 1);
    }
}

/// `next_forward` looks only at the paths, so it is unchanged by
/// outcome updates.
pub proof fn lemma_next_forward_congruent(s1: Seq<RenameItem>, s2: Seq<RenameItem>, i: int)
    requires
        0 <= i,
        s1.len() == s2.len(),
        forall|j: int| 0 <= j < s1.len() ==> is_noop(#[trigger] s1[j]) == is_noop(#[trigger] s2[j]),
    ensures
        next_forward(s1, i) == next_forward(s2, i),
    decreases s1.len() - i,
{
    if i < s1.len() && is_noop(s1[i]) {
        lemma_next_forward_congruent(s1, s2, i + 1);
    }
}

/// One run's state machine over the ordered item list.
///
/// The items are processed in list order with a single cursor.  The
/// engine never touches the filesystem: whenever `spec_phase` is a move
/// phase the caller attempts the move named by [`Self::move_from`] and
/// [`Self::move_to`] and reports the result; whenever it is a stuck
/// phase the caller asks the user and reports the chosen action.
pub struct Transaction {
    items: Vec<RenameItem>,
    change_list: ChangeList,
    index: usize,
    phase: Phase,
    rollback_requested: bool,
}

impl Transaction {
    /// The item list with the outcomes as decided so far.
    pub closed spec fn spec_items(&self) -> Seq<RenameItem> {
        self.items@
    }

    /// The `(from, to)` pairs recorded for this run so far.
    pub closed spec fn spec_change_list(&self) -> Seq<(Seq<u8>, Seq<u8>)> {
        self.change_list@
    }

    /// The cursor: items before it have been processed.
    pub closed spec fn spec_index(&self) -> int {
        self.index as int
    }

    /// Where the run stands.
    pub closed spec fn spec_phase(&self) -> Phase {
        self.phase
    }

    /// Whether this run has entered the rollback path.  Once set it
    /// never clears, and a run that set it must not be recorded.
    pub closed spec fn spec_rollback_requested(&self) -> bool {
        self.rollback_requested
    }

    /// The state invariant every method preserves.
    pub closed spec fn inv(&self) -> bool {
        let s = self.items@;
        let k = self.index as int;
        &&& k <= s.len()
        &&& forall|i: int| 0 <= i < s.len() ==> outcome_consistent(#[trigger] s[i])
        &&& match self.phase {
            Phase::ForwardMove | Phase::ForwardStuck => {
                &&& !self.rollback_requested
                &&& k < s.len()
                &&& s[k].outcome is Unchanged
                &&& !is_noop(s[k])
                &&& forall|i: int| k < i < s.len() ==> (#[trigger] s[i]).outcome is Unchanged
                &&& forall|i: int|
                    0 <= i < k ==> (is_noop(#[trigger] s[i]) ==> s[i].outcome is NoopIdentical)
                &&& self.change_list@ == applied_pairs(s.take(k))
            },
            Phase::RollbackMove | Phase::RollbackStuck => {
                &&& self.rollback_requested
                &&& k < s.len()
                &&& s[k].outcome is RenamedApplied
            },
            Phase::Done => {
                !self.rollback_requested ==> {
                    &&& self.change_list@ == applied_pairs(s)
                    &&& forall|i: int|
                        0 <= i < k ==> (is_noop(#[trigger] s[i]) ==> s[i].outcome is NoopIdentical)
                }
            },
        }
    }

    /// The forward pass ran off the end of the list: every item was
    /// processed and no rollback was requested.
    pub open spec fn completed_forward(&self) -> bool {
        &&& self.spec_phase() is Done
        &&& !self.spec_rollback_requested()
        &&& self.spec_index() == self.spec_items().len()
    }

    /// The state between forward steps, before the cursor has settled on
    /// the next item that needs a move.
    spec fn forward_base(&self) -> bool {
        let s = self.items@;
        let k = self.index as int;
        &&& !self.rollback_requested
        &&& k <= s.len()
        &&& forall|i: int| 0 <= i < s.len() ==> outcome_consistent(#[trigger] s[i])
        &&& forall|i: int| k <= i < s.len() ==> (#[trigger] s[i]).outcome is Unchanged
        &&& forall|i: int|
            0 <= i < k ==> (is_noop(#[trigger] s[i]) ==> s[i].outcome is NoopIdentical)
        &&& self.change_list@ == applied_pairs(s.take(k))
    }

    /// The state between rollback steps, before the cursor has settled
    /// on the next item that still has a rename to undo.
    spec fn rollback_base(&self) -> bool {
        let s = self.items@;
        &&& self.rollback_requested
        &&& self.index as int <= s.len()
        &&& forall|i: int| 0 <= i < s.len() ==> outcome_consistent(#[trigger] s[i])
    }

    /// Whether the cursor currently rests on an unprocessed no-op item.
    fn at_noop(&self) -> (b: bool)
        requires
            self.index as int <= self.items@.len(),
        ensures
            b == ((self.index as int) < self.items@.len() && is_noop(
                self.items@[self.index as int],
            )),
    {
        if self.index < self.items.len() {
            bytes_eq(
                self.items[self.index].path_before.as_slice(),
                self.items[self.index].path_after.as_slice(),
            )
        } else {
            false
        }
    }

    /// March the cursor forward, marking identical pairs `NoopIdentical`
    /// without ever attempting them, until it rests on an item that
    /// needs a move or the list is exhausted.
    fn advance_forward(&mut self)
        requires
            old(self).forward_base(),
        ensures
            final(self).inv(),
            final(self).items@.len() == old(self).items@.len(),
            old(self).index as int <= final(self).index as int <= final(self).items@.len(),
            forall|i: int|
                0 <= i < old(self).index as int ==> final(self).items@[i] == old(self).items@[i],
            forall|i: int|
                old(self).index as int <= i < final(self).index as int ==> final(self).items@[i]
                    == (RenameItem { outcome: Outcome::NoopIdentical, ..old(self).items@[i] }),
            forall|i: int|
                final(self).index as int <= i < final(self).items@.len() ==> final(self).items@[i]
                    == old(self).items@[i],
            final(self).index as int == next_forward(old(self).items@, old(self).index as int),
            final(self).change_list@ == old(self).change_list@,
            final(self).rollback_requested == old(self).rollback_requested,
            final(self).phase == if (final(self).index as int) < final(self).items@.len() {
                Phase::ForwardMove
            } else {
                Phase::Done
            },
    {
        let ghost s0: Seq<RenameItem> = self.items@;
        let ghost k0: int = self.index as int;
        while self.at_noop()
            invariant
                self.forward_base(),
                0 <= k0 <= self.index as int <= self.items@.len(),
                self.items@.len() == s0.len(),
                forall|i: int| 0 <= i < k0 ==> self.items@[i] == s0[i],
                forall|i: int|
                    k0 <= i < self.index as int ==> self.items@[i] == (RenameItem {
                        outcome: Outcome::NoopIdentical,
                        ..s0[i]
                    }),
                forall|i: int| self.index as int <= i < s0.len() ==> self.items@[i] == s0[i],
                next_forward(s0, k0) == next_forward(s0, self.index as int),
                self.change_list@ == old(self).change_list@,
                self.rollback_requested == old(self).rollback_requested,
            decreases self.items@.len() - self.index as int,
        {
            let j: usize = self.index;
            let ghost before: Seq<RenameItem> = self.items@;
            proof {
                assert(j < self.items.len());
                assert(before[j as int] == s0[j as int]);
                assert(is_noop(s0[j as int]));
            }
            self.items[j].outcome = Outcome::NoopIdentical;
            self.index = j + 1;
            proof {
                assert(self.items@ =~= before.update(j as int, self.items@[j as int]));
                assert(self.items@[j as int] == (RenameItem {
                    outcome: Outcome::NoopIdentical,
                    ..s0[j as int]
                }));
                assert forall|i: int| k0 <= i < j as int + 1 implies self.items@[i] == (RenameItem {
                    outcome: Outcome::NoopIdentical,
                    ..s0[i]
                }) by {
                    if i < j as int {
                        assert(self.items@[i] == before[i]);
                    }
                }
                assert(self.items@.take(j as int) =~= before.take(j as int));
                lemma_applied_pairs_step(self.items@, j as int);
                assert(self.items@.take(j as int + 1) =~= self.items@.take(j as int).push(
                    self.items@[j as int],
                ));
                assert(applied_pairs(self.items@.take(j as int + 1)) == applied_pairs(
                    before.take(j as int),
                ));
            }
        }
        if self.index < self.items.len() {
            self.phase = Phase::ForwardMove;
        } else {
            self.phase = Phase::Done;
            proof {
                assert(self.items@.take(self.items@.len() as int) =~= self.items@);
            }
        }
    }

    /// Whether the cursor currently rests on an item with nothing to
    /// undo.
    fn at_not_applied(&self) -> (b: bool)
        requires
            self.index as int <= self.items@.len(),
        ensures
            b == ((self.index as int) < self.items@.len() && !(self.items@[self.index as int].outcome
                is RenamedApplied)),
    {
        if self.index < self.items.len() {
            match self.items[self.index].outcome {
                Outcome::RenamedApplied => false,
                _ => true,
            }
        } else {
            false
        }
    }

    /// March the cursor forward past items with nothing to undo, until
    /// it rests on an applied rename or the list is exhausted.  Rollback
    /// walks the same forward order as the forward pass.
    fn advance_rollback(&mut self)
        requires
            old(self).rollback_base(),
        ensures
            final(self).inv(),
            final(self).items@ == old(self).items@,
            old(self).index as int <= final(self).index as int <= final(self).items@.len(),
            final(self).index as int == next_rollback(final(self).items@, old(self).index as int),
            final(self).change_list@ == old(self).change_list@,
            final(self).rollback_requested,
            final(self).phase == if (final(self).index as int) < final(self).items@.len() {
                Phase::RollbackMove
            } else {
                Phase::Done
            },
    {
        let ghost k0: int = self.index as int;
        while self.at_not_applied()
            invariant
                self.rollback_base(),
                0 <= k0 <= self.index as int <= self.items@.len(),
                self.items@ == old(self).items@,
                next_rollback(self.items@, k0) == next_rollback(self.items@, self.index as int),
                self.change_list@ == old(self).change_list@,
            decreases self.items@.len() - self.index as int,
        {
            proof {
                assert(self.index < self.items.len());
            }
            self.index = self.index + 1;
        }
        if self.index < self.items.len() {
            self.phase = Phase::RollbackMove;
        } else {
            self.phase = Phase::Done;
        }
    }

    /// Start a run over the given `(before, after)` pairs, in list
    /// order.  Identical pairs up front are marked `NoopIdentical`
    /// immediately; the transaction then either waits at the first real
    /// move or is already done.
    pub fn new(pairs: &Vec<(Vec<u8>, Vec<u8>)>) -> (t: Transaction)
        ensures
            t.inv(),
            t.spec_items().len() == pairs@.len(),
            forall|i: int|
                0 <= i < pairs@.len() ==> (#[trigger] t.spec_items()[i]).path_before@
                    == pairs@[i].0@ && t.spec_items()[i].path_after@ == pairs@[i].1@,
            !t.spec_rollback_requested(),
            t.spec_change_list() == Seq::<(Seq<u8>, Seq<u8>)>::empty(),
            t.spec_index() == next_forward(t.spec_items(), 0),
            forall|i: int|
                0 <= i < t.spec_index() ==> (#[trigger] t.spec_items()[i]).outcome
                    is NoopIdentical,
            forall|i: int|
                t.spec_index() <= i < t.spec_items().len() ==> (#[trigger] t.spec_items()[i]).outcome
                    is Unchanged,
            t.spec_phase() == if t.spec_index() < t.spec_items().len() {
                Phase::ForwardMove
            } else {
                Phase::Done
            },
    {
        let mut items: Vec<RenameItem> = Vec::new();
        let mut k: usize = 0;
        while k < pairs.len()
            invariant
                k <= pairs@.len(),
                items@.len() == k as int,
                forall|i: int|
                    0 <= i < k as int ==> (#[trigger] items@[i]).path_before@ == pairs@[i].0@
                        && items@[i].path_after@ == pairs@[i].1@ && items@[i].outcome is Unchanged,
            decreases pairs@.len() - k as int,
        {
            let before: Vec<u8> = vstd::slice::slice_to_vec(pairs[k].0.as_slice());
            let after: Vec<u8> = vstd::slice::slice_to_vec(pairs[k].1.as_slice());
            items.push(RenameItem { path_before: before, path_after: after, outcome: Outcome::Unchanged });
            k = k + 1;
        }
        let mut t = Transaction {
            items,
            change_list: ChangeList::new(),
            index: 0,
            phase: Phase::ForwardMove,
            rollback_requested: false,
        };
        proof {
            assert(t.items@.take(0) =~= Seq::<RenameItem>::empty());
            assert(t.change_list@ =~= applied_pairs(t.items@.take(0)));
        }
        let ghost pre: Seq<RenameItem> = t.items@;
        t.advance_forward();
        proof {
            assert forall|j: int| 0 <= j < pre.len() implies is_noop(#[trigger] pre[j]) == is_noop(
                #[trigger] t.items@[j],
            ) by {
                if t.index as int <= j {
                    assert(t.items@[j] == pre[j]);
                }
            }
            lemma_next_forward_congruent(pre, t.items@, 0);
        }
        t
    }

    /// The caller applied the pending move successfully.
    ///
    /// In the forward phase the item becomes `RenamedApplied` and its
    /// pair is recorded at the end of the change list; in the rollback
    /// phase the item returns to `Unchanged` and the change list is left
    /// alone.  Either way the cursor then settles on the next item with
    /// work to do.
    pub fn report_move_ok(&mut self)
        requires
            old(self).inv(),
            old(self).spec_phase() is ForwardMove || old(self).spec_phase() is RollbackMove,
        ensures
            final(self).inv(),
            final(self).spec_items().len() == old(self).spec_items().len(),
            final(self).spec_rollback_requested() == old(self).spec_rollback_requested(),
            old(self).spec_index() < final(self).spec_index(),
            old(self).spec_phase() is ForwardMove ==> {
                let k = old(self).spec_index();
                let s = old(self).spec_items();
                &&& final(self).spec_items()[k] == (RenameItem {
                    outcome: Outcome::RenamedApplied,
                    ..s[k]
                })
                &&& forall|i: int| 0 <= i < k ==> final(self).spec_items()[i] == s[i]
                &&& forall|i: int|
                    k < i < final(self).spec_index() ==> final(self).spec_items()[i]
                        == (RenameItem { outcome: Outcome::NoopIdentical, ..s[i] })
                &&& forall|i: int|
                    final(self).spec_index() <= i < s.len() ==> final(self).spec_items()[i] == s[i]
                &&& final(self).spec_change_list() == old(self).spec_change_list().push(
                    item_pair(s[k]),
                )
                &&& final(self).spec_index() == next_forward(final(self).spec_items(), k + 1)
                &&& final(self).spec_phase() == (if final(self).spec_index() < s.len() {
                    Phase::ForwardMove
                } else {
                    Phase::Done
                })
            },
            old(self).spec_phase() is RollbackMove ==> {
                let k = old(self).spec_index();
                let s = old(self).spec_items();
                &&& final(self).spec_items() == s.update(
                    k,
                    RenameItem { outcome: Outcome::Unchanged, ..s[k] },
                )
                &&& final(self).spec_change_list() == old(self).spec_change_list()
                &&& final(self).spec_index() == next_rollback(final(self).spec_items(), k + 1)
                &&& final(self).spec_phase() == (if final(self).spec_index() < s.len() {
                    Phase::RollbackMove
                } else {
                    Phase::Done
                })
            },
    {
        let forward = match self.phase {
            Phase::ForwardMove => true,
            _ => false,
        };
        let k: usize = self.index;
        proof {
            assert(k < self.items.len());
        }
        let ghost s_old: Seq<RenameItem> = self.items@;
        if forward {
            let from: Vec<u8> = vstd::slice::slice_to_vec(self.items[k].path_before.as_slice());
            let to: Vec<u8> = vstd::slice::slice_to_vec(self.items[k].path_after.as_slice());
            self.items[k].outcome = Outcome::RenamedApplied;
            self.change_list.push(from, to);
            self.index = k + 1;
            proof {
                assert(self.items@ =~= s_old.update(k as int, self.items@[k as int]));
                assert(self.items@[k as int] == (RenameItem {
                    outcome: Outcome::RenamedApplied,
                    ..s_old[k as int]
                }));
                assert(self.items@.take(k as int) =~= s_old.take(k as int));
                lemma_applied_pairs_step(self.items@, k as int);
                assert(self.items@.take(k as int + 1) =~= self.items@.take(k as int).push(
                    self.items@[k as int],
                ));
                assert(self.change_list@ == applied_pairs(self.items@.take(k as int + 1)));
            }
            let ghost mid: Seq<RenameItem> = self.items@;
            self.advance_forward();
            proof {
                assert forall|j: int| 0 <= j < mid.len() implies is_noop(#[trigger] mid[j])
                    == is_noop(#[trigger] self.items@[j]) by {
                    if self.index as int <= j {
                        assert(self.items@[j] == mid[j]);
                    }
                }
                lemma_next_forward_congruent(mid, self.items@, k as int + 1);
            }
        } else {
            self.items[k].outcome = Outcome::Unchanged;
            self.index = k + 1;
            proof {
                assert(self.items@ =~= s_old.update(k as int, self.items@[k as int]));
                assert(self.items@[k as int] == (RenameItem {
                    outcome: Outcome::Unchanged,
                    ..s_old[k as int]
                }));
            }
            self.advance_rollback();
        }
    }

    /// The caller could not apply the pending move: hold the same item
    /// and wait for the user's answer.  Both failure kinds are handled
    /// identically, so none is taken here.
    pub fn report_move_failed(&mut self)
        requires
            old(self).inv(),
            old(self).spec_phase() is ForwardMove || old(self).spec_phase() is RollbackMove,
        ensures
            final(self).inv(),
            final(self).spec_items() == old(self).spec_items(),
            final(self).spec_change_list() == old(self).spec_change_list(),
            final(self).spec_index() == old(self).spec_index(),
            final(self).spec_rollback_requested() == old(self).spec_rollback_requested(),
            final(self).spec_phase() == (if old(self).spec_phase() is ForwardMove {
                Phase::ForwardStuck
            } else {
                Phase::RollbackStuck
            }),
    {
        match self.phase {
            Phase::ForwardMove => {
                self.phase = Phase::ForwardStuck;
            },
            _ => {
                self.phase = Phase::RollbackStuck;
            },
        }
    }

    /// Apply the user's answer for a stuck forward move.
    ///
    /// `Retry` re-attempts the same item; `Skip` leaves it `Unchanged`
    /// and moves on; `Abort` ends the run with the remaining items
    /// untouched; `Rollback` ends the forward pass and starts undoing
    /// the applied renames, in the same list order.  Only `Rollback`
    /// ever sets the rollback flag, and nothing ever clears it.
    pub fn resolve_forward(&mut self, action: ActionWhenStuck)
        requires
            old(self).inv(),
            old(self).spec_phase() is ForwardStuck,
        ensures
            final(self).inv(),
            final(self).spec_change_list() == old(self).spec_change_list(),
            final(self).spec_rollback_requested() == (action is Rollback),
            match action {
                ActionWhenStuck::Retry => {
                    &&& final(self).spec_items() == old(self).spec_items()
                    &&& final(self).spec_index() == old(self).spec_index()
                    &&& final(self).spec_phase() is ForwardMove
                },
                ActionWhenStuck::Skip => {
                    let k = old(self).spec_index();
                    let s = old(self).spec_items();
                    &&& final(self).spec_items().len() == s.len()
                    &&& forall|i: int| 0 <= i <= k ==> final(self).spec_items()[i] == s[i]
                    &&& forall|i: int|
                        k < i < final(self).spec_index() ==> final(self).spec_items()[i]
                            == (RenameItem { outcome: Outcome::NoopIdentical, ..s[i] })
                    &&& forall|i: int|
                        final(self).spec_index() <= i < s.len() ==> final(self).spec_items()[i]
                            == s[i]
                    &&& final(self).spec_index() == next_forward(final(self).spec_items(), k + 1)
                    &&& final(self).spec_phase() == (if final(self).spec_index() < s.len() {
                        Phase::ForwardMove
                    } else {
                        Phase::Done
                    })
                },
                ActionWhenStuck::Abort => {
                    &&& final(self).spec_items() == old(self).spec_items()
                    &&& final(self).spec_index() == old(self).spec_index()
                    &&& final(self).spec_phase() is Done
                },
                ActionWhenStuck::Rollback => {
                    &&& final(self).spec_items() == old(self).spec_items()
                    &&& final(self).spec_index() == next_rollback(final(self).spec_items(), 0)
                    &&& final(self).spec_phase() == (if final(self).spec_index()
                        < final(self).spec_items().len() {
                        Phase::RollbackMove
                    } else {
                        Phase::Done
                    })
                },
            },
    {
        match action {
            ActionWhenStuck::Retry => {
                self.phase = Phase::ForwardMove;
            },
            ActionWhenStuck::Skip => {
                let k: usize = self.index;
                proof {
                    assert(k < self.items.len());
                }
                let ghost s_old: Seq<RenameItem> = self.items@;
                self.index = k + 1;
                proof {
                    lemma_applied_pairs_step(self.items@, k as int);
                }
                let ghost mid: Seq<RenameItem> = self.items@;
                self.advance_forward();
                proof {
                    assert forall|j: int| 0 <= j < mid.len() implies is_noop(#[trigger] mid[j])
                        == is_noop(#[trigger] self.items@[j]) by {
                        if self.index as int <= j {
                            assert(self.items@[j] == mid[j]);
                        }
                    }
                    lemma_next_forward_congruent(mid, self.items@, k as int + 1);
                }
            },
            ActionWhenStuck::Abort => {
                proof {
                    lemma_applied_pairs_unchanged_suffix(self.items@, self.index as int);
                }
                self.phase = Phase::Done;
            },
            ActionWhenStuck::Rollback => {
                self.rollback_requested = true;
                self.index = 0;
                self.advance_rollback();
            },
        }
    }

    /// Apply the user's answer for a stuck rollback move.
    ///
    /// `Retry` re-attempts the undo; `Skip` abandons this item's undo,
    /// leaving it `RenamedApplied` and unrecorded; `AbortRollback` ends
    /// the rollback with every remaining undo abandoned.  The rollback
    /// flag stays set whatever is chosen.
    pub fn resolve_rollback(&mut self, action: ActionWhenStuckRollingBack)
        requires
            old(self).inv(),
            old(self).spec_phase() is RollbackStuck,
        ensures
            final(self).inv(),
            final(self).spec_items() == old(self).spec_items(),
            final(self).spec_change_list() == old(self).spec_change_list(),
            final(self).spec_rollback_requested(),
            match action {
                ActionWhenStuckRollingBack::Retry => {
                    &&& final(self).spec_index() == old(self).spec_index()
                    &&& final(self).spec_phase() is RollbackMove
                },
                ActionWhenStuckRollingBack::Skip => {
                    &&& final(self).spec_index() == next_rollback(
                        old(self).spec_items(),
                        old(self).spec_index() + 1,
                    )
                    &&& final(self).spec_phase() == (if final(self).spec_index() < old(
                        self,
                    ).spec_items().len() {
                        Phase::RollbackMove
                    } else {
                        Phase::Done
                    })
                },
                ActionWhenStuckRollingBack::AbortRollback => {
                    &&& final(self).spec_index() == old(self).spec_index()
                    &&& final(self).spec_phase() is Done
                },
            },
    {
        match action {
            ActionWhenStuckRollingBack::Retry => {
                self.phase = Phase::RollbackMove;
            },
            ActionWhenStuckRollingBack::Skip => {
                let k: usize = self.index;
                proof {
                    assert(k < self.items.len());
                }
                self.index = k + 1;
                self.advance_rollback();
            },
            ActionWhenStuckRollingBack::AbortRollback => {
                self.phase = Phase::Done;
            },
        }
    }

    /// Where the run stands.
    pub fn phase(&self) -> (p: Phase)
        ensures
            p == self.spec_phase(),
    {
        self.phase
    }

    /// Whether the run is finished.
    pub fn is_done(&self) -> (b: bool)
        ensures
            b == (self.spec_phase() is Done),
    {
        match self.phase {
            Phase::Done => true,
            _ => false,
        }
    }

    /// The source path of the pending or stuck move: the item's old path
    /// in the forward phase, its new path while rolling back.
    pub fn move_from(&self) -> (r: &Vec<u8>)
        requires
            self.inv(),
            !(self.spec_phase() is Done),
        ensures
            (self.spec_phase() is ForwardMove || self.spec_phase() is ForwardStuck) ==> r@
                == self.spec_items()[self.spec_index()].path_before@,
            (self.spec_phase() is RollbackMove || self.spec_phase() is RollbackStuck) ==> r@
                == self.spec_items()[self.spec_index()].path_after@,
    {
        match self.phase {
            Phase::ForwardMove | Phase::ForwardStuck => &self.items[self.index].path_before,
            _ => &self.items[self.index].path_after,
        }
    }

    /// The target path of the pending or stuck move: the item's new path
    /// in the forward phase, its old path while rolling back.
    pub fn move_to(&self) -> (r: &Vec<u8>)
        requires
            self.inv(),
            !(self.spec_phase() is Done),
        ensures
            (self.spec_phase() is ForwardMove || self.spec_phase() is ForwardStuck) ==> r@
                == self.spec_items()[self.spec_index()].path_after@,
            (self.spec_phase() is RollbackMove || self.spec_phase() is RollbackStuck) ==> r@
                == self.spec_items()[self.spec_index()].path_before@,
    {
        match self.phase {
            Phase::ForwardMove | Phase::ForwardStuck => &self.items[self.index].path_after,
            _ => &self.items[self.index].path_before,
        }
    }

    /// Whether the run's change list may be recorded in the ledger: it
    /// may not as soon as the run has entered the rollback path, however
    /// the rollback itself ended.
    pub fn should_write_ledger(&self) -> (b: bool)
        ensures
            b == !self.spec_rollback_requested(),
    {
        !self.rollback_requested
    }

    /// The change list recorded so far.
    pub fn change_list(&self) -> (r: &ChangeList)
        ensures
            r@ == self.spec_change_list(),
    {
        &self.change_list
    }

    /// The items with their outcomes as decided so far.
    pub fn items(&self) -> (r: &Vec<RenameItem>)
        ensures
            r@ == self.spec_items(),
    {
        &self.items
    }
}

/// The forward stuck-resolution keys: case-insensitive `r`, `s`, `a`
/// and `u` choose retry, skip, abort and undo-all; any other key is
/// not recognised and the caller asks again.
pub fn action_for_key(key: u8) -> (r: Option<ActionWhenStuck>)
    ensures
        r == (if key == 114 || key == 82 {
            Some(ActionWhenStuck::Retry)
        } else if key == 115 || key == 83 {
            Some(ActionWhenStuck::Skip)
        } else if key == 97 || key == 65 {
            Some(ActionWhenStuck::Abort)
        } else if key == 117 || key == 85 {
            Some(ActionWhenStuck::Rollback)
        } else {
            None::<ActionWhenStuck>
        }),
{
    match key {
        114 | 82 => Some(ActionWhenStuck::Retry),
        115 | 83 => Some(ActionWhenStuck::Skip),
        97 | 65 => Some(ActionWhenStuck::Abort),
        117 | 85 => Some(ActionWhenStuck::Rollback),
        _ => None,
    }
}

/// The rollback stuck-resolution keys: case-insensitive `r`, `s` and
/// `a` choose retry, skip and abort-rollback.  There is no key that
/// rolls back the rollback.
pub fn rollback_action_for_key(key: u8) -> (r: Option<ActionWhenStuckRollingBack>)
    ensures
        r == (if key == 114 || key == 82 {
            Some(ActionWhenStuckRollingBack::Retry)
        } else if key == 115 || key == 83 {
            Some(ActionWhenStuckRollingBack::Skip)
        } else if key == 97 || key == 65 {
            Some(ActionWhenStuckRollingBack::AbortRollback)
        } else {
            None::<ActionWhenStuckRollingBack>
        }),
{
    match key {
        114 | 82 => Some(ActionWhenStuckRollingBack::Retry),
        115 | 83 => Some(ActionWhenStuckRollingBack::Skip),
        97 | 65 => Some(ActionWhenStuckRollingBack::AbortRollback),
        _ => None,
    }
}

/// How many items of `s` ended with outcome `o`.
pub open spec fn count_outcome(s: Seq<RenameItem>, o: Outcome) -> int
    decreases s.len(),
{
    if s.len() == 0 {
        0
    } else {
        count_outcome(s.drop_last(), o) + if s.last().outcome == o {
            1int
        } else {
            0int
        }
    }
}

/// Count the renamed, no-op and unchanged items, in that order, for
/// the end-of-run summary.
pub fn outcome_counts(items: &Vec<RenameItem>) -> (r: (usize, usize, usize))
    ensures
        r.0 == count_outcome(items@, Outcome::RenamedApplied),
        r.1 == count_outcome(items@, Outcome::NoopIdentical),
        r.2 == count_outcome(items@, Outcome::Unchanged),
{
    let mut renamed: usize = 0;
    let mut noop: usize = 0;
    let mut unchanged: usize = 0;
    let mut i: usize = 0;
    while i < items.len()
        invariant
            i <= items@.len(),
            renamed <= i && noop <= i && unchanged <= i,
            renamed == count_outcome(items@.take(i as int), Outcome::RenamedApplied),
            noop == count_outcome(items@.take(i as int), Outcome::NoopIdentical),
            unchanged == count_outcome(items@.take(i as int), Outcome::Unchanged),
        decreases items@.len() - i,
    {
        proof {
            assert(items@.take(i as int + 1).drop_last() =~= items@.take(i as int));
            assert(items@.take(i as int + 1).last() == items@[i as int]);
        }
        match items[i].outcome {
            Outcome::RenamedApplied => {
                renamed = renamed + 1;
            },
            Outcome::NoopIdentical => {
                noop = noop + 1;
            },
            Outcome::Unchanged => {
                unchanged = unchanged + 1;
            },
        }
        i += 1;
    }
    proof {
        assert(items@.take(items@.len() as int) =~= items@);
    }
    (renamed, noop, unchanged)
}

/// No-op invariant.  An item marked `NoopIdentical` really had identical
/// paths, an applied item really had differing paths, and once a forward
/// pass has processed every item, every identical pair is marked
/// `NoopIdentical` — such an item is never handed to the caller as a
/// move, which [`lemma_forward_move_is_real`] states separately.
pub proof fn lemma_noop_invariant(t: &Transaction)
    requires
        t.inv(),
    ensures
        forall|i: int|
            0 <= i < t.spec_items().len() && (#[trigger] t.spec_items()[i]).outcome
                is NoopIdentical ==> is_noop(t.spec_items()[i]),
        forall|i: int|
            0 <= i < t.spec_items().len() && (#[trigger] t.spec_items()[i]).outcome
                is RenamedApplied ==> !is_noop(t.spec_items()[i]),
        t.completed_forward() ==> forall|i: int|
            0 <= i < t.spec_items().len() && is_noop(#[trigger] t.spec_items()[i])
                ==> t.spec_items()[i].outcome is NoopIdentical,
{
}

/// Every move the engine asks the caller to attempt in the forward pass
/// is for an item whose two paths differ: identical pairs are marked and
/// passed over without any move.
pub proof fn lemma_forward_move_is_real(t: &Transaction)
    requires
        t.inv(),
        t.spec_phase() is ForwardMove || t.spec_phase() is ForwardStuck,
    ensures
        !is_noop(t.spec_items()[t.spec_index()]),
{
}

/// Rollback suppresses ledger writes.  Any state on the rollback path
/// carries the rollback flag, [`Transaction::should_write_ledger`] is
/// false exactly while that flag is set, and no transition's contract
/// ever clears it — so a run that entered rollback, however its
/// rollback ends, is never recorded.
pub proof fn lemma_rollback_suppresses_ledger(t: &Transaction)
    requires
        t.inv(),
        t.spec_phase() is RollbackMove || t.spec_phase() is RollbackStuck,
    ensures
        t.spec_rollback_requested(),
{
}

/// Order preservation.  When a run finishes without entering rollback,
/// its change list is exactly the `(from, to)` pairs of the items that
/// ended `RenamedApplied` — the renames that succeeded — in original
/// list order.
pub proof fn lemma_order_preserved(t: &Transaction)
    requires
        t.inv(),
        t.spec_phase() is Done,
        !t.spec_rollback_requested(),
    ensures
        t.spec_change_list() == applied_pairs(t.spec_items()),
{
}

} // verus!
