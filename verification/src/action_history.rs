//! The change history ledger: which renames each completed run applied.
//!
//! A [`ChangeList`] collects the `(from, to)` pairs of one run, in the
//! order the renames were applied.  An [`ActionHistory`] is the ordered
//! sequence of past change lists together with the location its durable
//! form is stored at; it is logically append-only.  The crate never
//! touches storage itself: [`ActionHistory::record`] turns the stored
//! bytes and one run's change list into the bytes to store back, and
//! the caller reads and writes the file.

use vstd::prelude::*;

use crate::codec::COMMA;
use crate::codec::LBRACKET;
use crate::codec::RBRACKET;
use crate::codec::EntrySeq;
use crate::codec::eat_byte;
use crate::codec::eat_pair;
use crate::codec::p_entry;
use crate::codec::p_pairs_rest;
use crate::codec::p_history;
use crate::codec::p_entries_rest;
use crate::codec::parse_history;
use crate::codec::render_history;
use crate::codec::render_entry;
use crate::codec::render_pair;
use crate::codec::rendered_entries;
use crate::codec::rendered_pairs;
use crate::codec::join_comma;
use crate::codec::lemma_join_push;
use crate::codec::push_pair;

verus! {

/// One applied rename: the path the file had and the path it was moved
/// to.
#[derive(Clone, Debug)]
pub struct Change {
    pub from: Vec<u8>,
    pub to: Vec<u8>,
}

impl View for Change {
    type V = (Seq<u8>, Seq<u8>);

    open spec fn view(&self) -> (Seq<u8>, Seq<u8>) {
        (self.from@, self.to@)
    }
}

/// One entry's pairs, as the codec's spec functions see them.
pub open spec fn entry_view(e: Seq<Change>) -> Seq<(Seq<u8>, Seq<u8>)> {
    e.map_values(|c: Change| c@)
}

/// A whole ledger's entries, as the codec's spec functions see them.
pub open spec fn entries_view(changes: Seq<Vec<Change>>) -> EntrySeq {
    changes.map_values(|e: Vec<Change>| entry_view(e@))
}

/// The ordered list of renames one forward pass actually applied.
#[derive(Clone, Debug)]
pub struct ChangeList {
    pub list: Vec<Change>,
}

impl View for ChangeList {
    type V = Seq<(Seq<u8>, Seq<u8>)>;

    open spec fn view(&self) -> Seq<(Seq<u8>, Seq<u8>)> {
        entry_view(self.list@)
    }
}

impl ChangeList {
    /// An empty change list: no renames recorded yet.
    pub fn new() -> (r: Self)
        ensures
            r@ == Seq::<(Seq<u8>, Seq<u8>)>::empty(),
    {
        let r = Self { list: Vec::new() };
        proof {
            assert(r@ =~= Seq::<(Seq<u8>, Seq<u8>)>::empty());
        }
        r
    }

    /// Record one applied rename at the end of the list.
    pub fn push(&mut self, from: Vec<u8>, to: Vec<u8>)
        ensures
            final(self)@ == old(self)@.push((from@, to@)),
    {
        self.list.push(Change { from, to });
        proof {
            assert(self@ =~= old(self)@.push(((self.list@.last()).from@,
            (self.list@.last()).to@)));
        }
    }
}

/// The durable, append-only sequence of past change lists.
///
/// `file_name` is where the caller keeps the rendered form; this crate
/// only renders and parses the bytes.
#[derive(Debug)]
pub struct ActionHistory {
    pub changes: Vec<Vec<Change>>,
    pub file_name: Vec<u8>,
}

impl View for ActionHistory {
    type V = EntrySeq;

    open spec fn view(&self) -> EntrySeq {
        entries_view(self.changes@)
    }
}

impl ActionHistory {
    /// A history with no entries, to be stored at `file_name`.  Reading
    /// a location that holds no ledger yet starts from this.
    pub fn new(file_name: &[u8]) -> (r: Self)
        ensures
            r@ == Seq::<Seq<(Seq<u8>, Seq<u8>)>>::empty(),
            r.changes@.len() == 0,
            r.file_name@ == file_name@,
    {
        let r = Self { changes: Vec::new(), file_name: vstd::slice::slice_to_vec(file_name) };
        proof {
            assert(r@ =~= Seq::<Seq<(Seq<u8>, Seq<u8>)>>::empty());
        }
        r
    }

    /// Append one run's change list as a new entry.  Entries already
    /// present keep their place: the history only ever grows at the
    /// end.
    pub fn append(&mut self, changes: ChangeList)
        ensures
            final(self).changes@ == old(self).changes@.push(changes.list),
            final(self)@ == old(self)@.push(changes@),
            final(self).file_name@ == old(self).file_name@,
    {
        self.changes.push(changes.list);
        proof {
            assert(self@ =~= old(self)@.push(entry_view(self.changes@.last()@)));
        }
    }

    /// The durable text form of this history, as the format's spec
    /// functions define it.
    pub fn render(&self) -> (out: Vec<u8>)
        ensures
            out@ == render_history(self@),
    {
        let ghost ev: EntrySeq = entries_view(self.changes@);
        let mut out: Vec<u8> = Vec::new();
        out.push(LBRACKET);
        proof {
            assert(ev.take(0) =~= Seq::<Seq<(Seq<u8>, Seq<u8>)>>::empty());
            assert(rendered_entries(ev.take(0)) =~= Seq::<Seq<u8>>::empty());
            assert(out@ =~= seq![LBRACKET] + join_comma(rendered_entries(ev.take(0))));
        }
        let mut i: usize = 0;
        while i < self.changes.len()
            invariant
                i <= self.changes@.len(),
                ev == entries_view(self.changes@),
                out@ == seq![LBRACKET] + join_comma(rendered_entries(ev.take(i as int))),
            decreases self.changes@.len() - i,
        {
            if i > 0 {
                out.push(COMMA);
            }
            let ghost mark: Seq<u8> = out@;
            out.push(LBRACKET);
            let ghost pv: Seq<(Seq<u8>, Seq<u8>)> = entry_view(self.changes@[i as int]@);
            proof {
                assert(pv.take(0) =~= Seq::<(Seq<u8>, Seq<u8>)>::empty());
                assert(rendered_pairs(pv.take(0)) =~= Seq::<Seq<u8>>::empty());
                assert(out@ =~= mark + seq![LBRACKET] + join_comma(rendered_pairs(pv.take(0))));
            }
            let mut j: usize = 0;
            while j < self.changes[i].len()
                invariant
                    i < self.changes@.len(),
                    j <= self.changes@[i as int]@.len(),
                    pv == entry_view(self.changes@[i as int]@),
                    pv.len() == self.changes@[i as int]@.len(),
                    out@ == mark + seq![LBRACKET] + join_comma(rendered_pairs(pv.take(j as int))),
                decreases self.changes@[i as int]@.len() - j,
            {
                if j > 0 {
                    out.push(COMMA);
                }
                let ghost before: Seq<u8> = out@;
                let c = &self.changes[i][j];
                proof {
                    assert(c@ == pv[j as int]);
                }
                push_pair(&mut out, c.from.as_slice(), c.to.as_slice());
                proof {
                    lemma_join_push(rendered_pairs(pv.take(j as int)), render_pair(pv[j as int]));
                    assert(pv.take(j as int + 1) =~= pv.take(j as int).push(pv[j as int]));
                    assert(rendered_pairs(pv.take(j as int + 1)) =~= rendered_pairs(
                        pv.take(j as int),
                    ).push(render_pair(pv[j as int])));
                    assert(out@ =~= mark + seq![LBRACKET] + join_comma(
                        rendered_pairs(pv.take(j as int + 1)),
                    ));
                }
                j += 1;
            }
            out.push(RBRACKET);
            proof {
                assert(pv.take(pv.len() as int) =~= pv);
                assert(out@ =~= mark + render_entry(pv));
                assert(ev[i as int] == pv);
                lemma_join_push(rendered_entries(ev.take(i as int)), render_entry(ev[i as int]));
                assert(ev.take(i as int + 1) =~= ev.take(i as int).push(ev[i as int]));
                assert(rendered_entries(ev.take(i as int + 1)) =~= rendered_entries(
                    ev.take(i as int),
                ).push(render_entry(ev[i as int])));
                assert(out@ =~= seq![LBRACKET] + join_comma(
                    rendered_entries(ev.take(i as int + 1)),
                ));
            }
            i += 1;
        }
        out.push(RBRACKET);
        proof {
            assert(ev.take(ev.len() as int) =~= ev);
            assert(out@ =~= render_history(self@));
        }
        out
    }

    /// Parse one stored entry at `pos`: a bracketed array of pairs.
    fn eat_entry(text: &[u8], pos: usize) -> (r: Option<(Vec<Change>, usize)>)
        requires
            pos <= text@.len(),
        ensures
            match r {
                Some(ep) => p_entry(text@.skip(pos as int)) == Some(
                    (entry_view(ep.0@), text@.skip(ep.1 as int)),
                ) && pos < ep.1 <= text@.len(),
                None => p_entry(text@.skip(pos as int)) is None,
            },
    {
        let ghost t: Seq<u8> = text@.skip(pos as int);
        let p1 = match eat_byte(text, pos, LBRACKET) {
            None => {
                return None;
            },
            Some(p) => p,
        };
        if p1 < text.len() && text[p1] == RBRACKET {
            proof {
                assert(text@.skip(p1 as int)[0] == text@[p1 as int]);
                assert(text@.skip(p1 as int).skip(1) =~= text@.skip(p1 as int + 1));
                assert(entry_view(Seq::<Change>::empty()) =~= Seq::<(Seq<u8>, Seq<u8>)>::empty());
            }
            let v: Vec<Change> = Vec::new();
            return Some((v, p1 + 1));
        }
        proof {
            if p1 < text@.len() {
                assert(text@.skip(p1 as int)[0] == text@[p1 as int]);
            }
        }
        let (f, tto, p2) = match eat_pair(text, p1) {
            None => {
                return None;
            },
            Some(x) => x,
        };
        let mut acc: Vec<Change> = Vec::new();
        acc.push(Change { from: f, to: tto });
        proof {
            assert(entry_view(acc@) =~= seq![(acc@[0].from@, acc@[0].to@)]);
        }
        let mut cur: usize = p2;
        loop
            invariant
                pos < cur <= text@.len(),
                t == text@.skip(pos as int),
                match p_pairs_rest(text@.skip(cur as int)) {
                    Some((ps, rr)) => p_entry(t) == Some((entry_view(acc@) + ps, rr)),
                    None => p_entry(t) is None,
                },
            decreases text@.len() - cur,
        {
            let ghost tc: Seq<u8> = text@.skip(cur as int);
            if cur == text.len() {
                proof {
                    assert(tc =~= Seq::<u8>::empty());
                }
                return None;
            }
            let b = text[cur];
            proof {
                assert(tc[0] == text@[cur as int]);
            }
            if b == RBRACKET {
                proof {
                    assert(tc.skip(1) =~= text@.skip(cur as int + 1));
                    assert(entry_view(acc@) + Seq::<(Seq<u8>, Seq<u8>)>::empty() =~= entry_view(
                        acc@,
                    ));
                }
                return Some((acc, cur + 1));
            } else if b == COMMA {
                proof {
                    assert(tc.skip(1) =~= text@.skip(cur as int + 1));
                }
                let (f2, t2, p3) = match eat_pair(text, cur + 1) {
                    None => {
                        return None;
                    },
                    Some(x) => x,
                };
                let ghost acc0: Seq<Change> = acc@;
                acc.push(Change { from: f2, to: t2 });
                cur = p3;
                proof {
                    assert(acc@.last()@ == (acc@.last().from@, acc@.last().to@));
                    assert(entry_view(acc@) =~= entry_view(acc0).push((acc@.last().from@,
                    acc@.last().to@)));
                    match p_pairs_rest(text@.skip(cur as int)) {
                        Some((ps, rr)) => {
                            assert(entry_view(acc@) + ps =~= entry_view(acc0) + (seq![(
                                acc@.last().from@,
                                acc@.last().to@,
                            )] + ps));
                        },
                        None => {},
                    }
                }
            } else {
                return None;
            }
        }
    }

    /// Parse a whole stored ledger.  The text must be exactly what
    /// [`Self::render`] produces for some history; anything else is
    /// rejected as corrupt.
    pub fn parse(text: &[u8]) -> (r: Option<Vec<Vec<Change>>>)
        ensures
            match r {
                Some(changes) => parse_history(text@) == Some(entries_view(changes@)),
                None => parse_history(text@) is None,
            },
    {
        let ghost t: Seq<u8> = text@;
        proof {
            assert(text@.skip(0) =~= text@);
        }
        let p1 = match eat_byte(text, 0, LBRACKET) {
            None => {
                return None;
            },
            Some(p) => p,
        };
        if p1 < text.len() && text[p1] == RBRACKET {
            proof {
                assert(text@.skip(p1 as int)[0] == text@[p1 as int]);
                assert(text@.skip(p1 as int).skip(1) =~= text@.skip(p1 as int + 1));
                assert(entries_view(Seq::<Vec<Change>>::empty()) =~= Seq::<
                    Seq<(Seq<u8>, Seq<u8>)>,
                >::empty());
            }
            if p1 + 1 == text.len() {
                let v: Vec<Vec<Change>> = Vec::new();
                return Some(v);
            } else {
                return None;
            }
        }
        proof {
            if p1 < text@.len() {
                assert(text@.skip(p1 as int)[0] == text@[p1 as int]);
            }
        }
        let (e0, p2) = match Self::eat_entry(text, p1) {
            None => {
                return None;
            },
            Some(x) => x,
        };
        let mut acc: Vec<Vec<Change>> = Vec::new();
        acc.push(e0);
        proof {
            assert(entries_view(acc@) =~= seq![entry_view(acc@[0]@)]);
        }
        let mut cur: usize = p2;
        loop
            invariant
                0 < cur <= text@.len(),
                t == text@,
                match p_entries_rest(text@.skip(cur as int)) {
                    Some((es, rr)) => p_history(t) == Some((entries_view(acc@) + es, rr)),
                    None => p_history(t) is None,
                },
            decreases text@.len() - cur,
        {
            let ghost tc: Seq<u8> = text@.skip(cur as int);
            if cur == text.len() {
                proof {
                    assert(tc =~= Seq::<u8>::empty());
                }
                return None;
            }
            let b = text[cur];
            proof {
                assert(tc[0] == text@[cur as int]);
            }
            if b == RBRACKET {
                proof {
                    assert(tc.skip(1) =~= text@.skip(cur as int + 1));
                    assert(entries_view(acc@) + Seq::<Seq<(Seq<u8>, Seq<u8>)>>::empty()
                        =~= entries_view(acc@));
                }
                if cur + 1 == text.len() {
                    proof {
                        assert(text@.skip(cur as int + 1).len() == 0);
                    }
                    return Some(acc);
                } else {
                    proof {
                        assert(text@.skip(cur as int + 1).len() > 0);
                    }
                    return None;
                }
            } else if b == COMMA {
                proof {
                    assert(tc.skip(1) =~= text@.skip(cur as int + 1));
                }
                let (e2, p3) = match Self::eat_entry(text, cur + 1) {
                    None => {
                        return None;
                    },
                    Some(x) => x,
                };
                let ghost acc0: Seq<Vec<Change>> = acc@;
                acc.push(e2);
                cur = p3;
                proof {
                    assert(entries_view(acc@) =~= entries_view(acc0).push(
                        entry_view(acc@.last()@),
                    ));
                    match p_entries_rest(text@.skip(cur as int)) {
                        Some((es, rr)) => {
                            assert(entries_view(acc@) + es =~= entries_view(acc0) + (seq![
                                entry_view(acc@.last()@),
                            ] + es));
                        },
                        None => {},
                    }
                }
            } else {
                return None;
            }
        }
    }

    /// Read a stored ledger back into a history kept at `file_name`.
    /// Text that is not exactly a rendered history is corrupt and
    /// yields nothing; the caller treats that as fatal.
    pub fn load(text: &[u8], file_name: &[u8]) -> (r: Option<ActionHistory>)
        ensures
            match r {
                Some(h) => parse_history(text@) == Some(h@) && h.file_name@ == file_name@,
                None => parse_history(text@) is None,
            },
    {
        match Self::parse(text) {
            None => None,
            Some(changes) => Some(
                ActionHistory { changes, file_name: vstd::slice::slice_to_vec(file_name) },
            ),
        }
    }

    /// One run's ledger write, as pure data: take what is stored (or
    /// nothing, if no ledger exists yet), append this run's change list
    /// as one new entry — even an empty one — and hand back the bytes
    /// to store.  Stored text that parses to no history is corrupt and
    /// yields nothing; the caller treats that as fatal.
    pub fn record(existing: Option<&Vec<u8>>, changes: ChangeList, file_name: &[u8]) -> (r: Option<
        Vec<u8>,
    >)
        ensures
            existing is None ==> (r matches Some(out) && out@ == render_history(
                Seq::<Seq<(Seq<u8>, Seq<u8>)>>::empty().push(changes@),
            )),
            existing matches Some(t) ==> match parse_history(t@) {
                None => r is None,
                Some(es) => (r matches Some(out) && out@ == render_history(es.push(changes@))),
            },
    {
        let mut h = match existing {
            None => ActionHistory::new(file_name),
            Some(t) => match ActionHistory::load(t.as_slice(), file_name) {
                None => {
                    return None;
                },
                Some(h) => h,
            },
        };
        h.append(changes);
        Some(h.render())
    }
}

/// Appending never disturbs what the ledger already holds: the new
/// history is exactly one entry longer, earlier entries are unchanged
/// and in their old order, and the last entry is the appended change
/// list.
pub proof fn lemma_append_monotonic(before: ActionHistory, after: ActionHistory, entry: ChangeList)
    requires
        after@ == before@.push(entry@),
    ensures
        after@.len() == before@.len() + 1,
        forall|i: int| 0 <= i < before@.len() ==> after@[i] == before@[i],
        after@.last() == entry@,
{
}

/// Ledger append monotonicity, through the store: the bytes a
/// completed run leaves behind — its change list appended to whatever
/// entries were stored — parse back to exactly those entries, every
/// earlier one unchanged and in its place, the new one last.  Run
/// after run, the ledger can only grow by one entry at the end.
pub proof fn lemma_ledger_monotonic(es: EntrySeq, entry: Seq<(Seq<u8>, Seq<u8>)>)
    ensures
        parse_history(render_history(es.push(entry))) == Some(es.push(entry)),
        es.push(entry).len() == es.len() + 1,
        forall|i: int| 0 <= i < es.len() ==> es.push(entry)[i] == es[i],
        es.push(entry).last() == entry,
{
    crate::codec::lemma_history_round_trip(es.push(entry));
}

} // verus!
