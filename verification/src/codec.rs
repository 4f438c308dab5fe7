//! The ledger's durable text form.
//!
//! A history is stored as a compact structured text document: an array
//! of entries, each entry an array of `{"from":...,"to":...}` pairs
//! whose path bytes stand between quotes with `"` and `\` escaped.
//! Rendering is defined by spec functions; the executable renderer and
//! parser follow them exactly, and parsing a rendered history is proved
//! to give the history back unchanged.

use vstd::prelude::*;

verus! {

pub const QUOTE: u8 = 34;

pub const BACKSLASH: u8 = 92;

pub const LBRACKET: u8 = 91;

pub const RBRACKET: u8 = 93;

pub const LBRACE: u8 = 123;

pub const RBRACE: u8 = 125;

pub const COMMA: u8 = 44;

/// One entry's worth of pairs, as plain byte sequences.
pub type PairSeq = Seq<(Seq<u8>, Seq<u8>)>;

/// A whole history's entries.
pub type EntrySeq = Seq<Seq<(Seq<u8>, Seq<u8>)>>;

/// The bytes `{"from":`.
pub open spec fn lit_from() -> Seq<u8> {
    seq![LBRACE, QUOTE, 102u8, 114u8, 111u8, 109u8, QUOTE, 58u8]
}

/// The bytes `,"to":`.
pub open spec fn lit_to() -> Seq<u8> {
    seq![COMMA, QUOTE, 116u8, 111u8, QUOTE, 58u8]
}

/// How one byte stands inside a quoted string: quotes and backslashes
/// get a backslash in front, everything else stands as itself.
pub open spec fn esc_byte(b: u8) -> Seq<u8> {
    if b == QUOTE || b == BACKSLASH {
        seq![BACKSLASH, b]
    } else {
        seq![b]
    }
}

/// A byte string with its quotes and backslashes escaped.
pub open spec fn esc(s: Seq<u8>) -> Seq<u8>
    decreases s.len(),
{
    if s.len() == 0 {
        seq![]
    } else {
        esc_byte(s[0]) + esc(s.skip(1))
    }
}

/// A byte string escaped and wrapped in quotes.
pub open spec fn quoted(s: Seq<u8>) -> Seq<u8> {
    seq![QUOTE] + esc(s) + seq![QUOTE]
}

/// One `(from, to)` pair as `{"from":"...","to":"..."}`.
pub open spec fn render_pair(p: (Seq<u8>, Seq<u8>)) -> Seq<u8> {
    lit_from() + quoted(p.0) + lit_to() + quoted(p.1) + seq![RBRACE]
}

/// Rendered list elements joined with commas.
pub open spec fn join_comma(rs: Seq<Seq<u8>>) -> Seq<u8>
    decreases rs.len(),
{
    if rs.len() == 0 {
        seq![]
    } else if rs.len() == 1 {
        rs[0]
    } else {
        join_comma(rs.drop_last()) + seq![COMMA] + rs.last()
    }
}

/// Rendered list elements, every one with a comma in front.
pub open spec fn tail_join(rs: Seq<Seq<u8>>) -> Seq<u8>
    decreases rs.len(),
{
    if rs.len() == 0 {
        seq![]
    } else {
        seq![COMMA] + rs[0] + tail_join(rs.skip(1))
    }
}

/// The rendered form of each pair of an entry.
pub open spec fn rendered_pairs(e: PairSeq) -> Seq<Seq<u8>> {
    e.map_values(|p: (Seq<u8>, Seq<u8>)| render_pair(p))
}

/// One entry as an array of pairs.
pub open spec fn render_entry(e: PairSeq) -> Seq<u8> {
    seq![LBRACKET] + join_comma(rendered_pairs(e)) + seq![RBRACKET]
}

/// The rendered form of each entry of a history.
pub open spec fn rendered_entries(es: EntrySeq) -> Seq<Seq<u8>> {
    es.map_values(|e: Seq<(Seq<u8>, Seq<u8>)>| render_entry(e))
}

/// A whole history as an array of entries.
pub open spec fn render_history(es: EntrySeq) -> Seq<u8> {
    seq![LBRACKET] + join_comma(rendered_entries(es)) + seq![RBRACKET]
}

// ---------------------------------------------------------------------
// The parser, over the remaining suffix of the input.

/// Consume one expected byte.
pub open spec fn p_byte(t: Seq<u8>, b: u8) -> Option<Seq<u8>> {
    if t.len() > 0 && t[0] == b {
        Some(t.skip(1))
    } else {
        None
    }
}

/// Consume an expected literal.
pub open spec fn p_lit(t: Seq<u8>, lit: Seq<u8>) -> Option<Seq<u8>> {
    if lit.len() <= t.len() && t.take(lit.len() as int) == lit {
        Some(t.skip(lit.len() as int))
    } else {
        None
    }
}

/// Consume the inside of a quoted string up to and including its
/// closing quote, undoing the escapes.
pub open spec fn p_str_body(t: Seq<u8>) -> Option<(Seq<u8>, Seq<u8>)>
    decreases t.len(),
{
    if t.len() == 0 {
        None
    } else if t[0] == QUOTE {
        Some((seq![], t.skip(1)))
    } else if t[0] == BACKSLASH {
        if t.len() >= 2 && (t[1] == QUOTE || t[1] == BACKSLASH) {
            match p_str_body(t.skip(2)) {
                Some((s, r)) => Some((seq![t[1]] + s, r)),
                None => None,
            }
        } else {
            None
        }
    } else {
        match p_str_body(t.skip(1)) {
            Some((s, r)) => Some((seq![t[0]] + s, r)),
            None => None,
        }
    }
}

/// Consume a whole quoted string.
pub open spec fn p_quoted(t: Seq<u8>) -> Option<(Seq<u8>, Seq<u8>)> {
    match p_byte(t, QUOTE) {
        Some(t1) => p_str_body(t1),
        None => None,
    }
}

/// Consume one `{"from":...,"to":...}` pair.
pub open spec fn p_pair(t: Seq<u8>) -> Option<((Seq<u8>, Seq<u8>), Seq<u8>)> {
    match p_lit(t, lit_from()) {
        None => None,
        Some(t1) => match p_quoted(t1) {
            None => None,
            Some((s1, t2)) => match p_lit(t2, lit_to()) {
                None => None,
                Some(t3) => match p_quoted(t3) {
                    None => None,
                    Some((s2, t4)) => match p_byte(t4, RBRACE) {
                        None => None,
                        Some(t5) => Some(((s1, s2), t5)),
                    },
                },
            },
        },
    }
}

/// A successful string body consumes at least its closing quote.
pub proof fn lemma_p_str_body_consumes(t: Seq<u8>)
    ensures
        p_str_body(t) matches Some((s, r)) ==> r.len() < t.len(),
    decreases t.len(),
{
    if t.len() > 0 && t[0] != QUOTE {
        if t[0] == BACKSLASH {
            if t.len() >= 2 && (t[1] == QUOTE || t[1] == BACKSLASH) {
                lemma_p_str_body_consumes(t.skip(2));
            }
        } else {
            lemma_p_str_body_consumes(t.skip(1));
        }
    }
}

/// A successful pair consumes at least one byte.
pub proof fn lemma_p_pair_consumes(t: Seq<u8>)
    ensures
        p_pair(t) matches Some((p, r)) ==> r.len() < t.len(),
{
    if let Some(t1) = p_lit(t, lit_from()) {
        lemma_p_str_body_consumes(t1.skip(1));
        if let Some((s1, t2)) = p_quoted(t1) {
            if let Some(t3) = p_lit(t2, lit_to()) {
                lemma_p_str_body_consumes(t3.skip(1));
            }
        }
    }
}

/// Consume the rest of a pair array after its first pair: either the
/// closing bracket, or a comma and another pair, repeatedly.
pub open spec fn p_pairs_rest(t: Seq<u8>) -> Option<(PairSeq, Seq<u8>)>
    decreases t.len(),
    via p_pairs_rest_dec
{
    if t.len() == 0 {
        None
    } else if t[0] == RBRACKET {
        Some((seq![], t.skip(1)))
    } else if t[0] == COMMA {
        match p_pair(t.skip(1)) {
            Some((p, r)) => match p_pairs_rest(r) {
                Some((ps, r2)) => Some((seq![p] + ps, r2)),
                None => None,
            },
            None => None,
        }
    } else {
        None
    }
}

#[via_fn]
proof fn p_pairs_rest_dec(t: Seq<u8>) {
    if t.len() > 0 && t[0] != RBRACKET && t[0] == COMMA {
        lemma_p_pair_consumes(t.skip(1));
    }
}

/// Consume one entry: a bracketed, comma-separated array of pairs.
pub open spec fn p_entry(t: Seq<u8>) -> Option<(PairSeq, Seq<u8>)> {
    match p_byte(t, LBRACKET) {
        None => None,
        Some(t1) => if t1.len() > 0 && t1[0] == RBRACKET {
            Some((seq![], t1.skip(1)))
        } else {
            match p_pair(t1) {
                None => None,
                Some((p, r)) => match p_pairs_rest(r) {
                    None => None,
                    Some((ps, r2)) => Some((seq![p] + ps, r2)),
                },
            }
        },
    }
}

/// A successful pair-array rest consumes at least its closing bracket.
pub proof fn lemma_p_pairs_rest_consumes(t: Seq<u8>)
    ensures
        p_pairs_rest(t) matches Some((ps, r)) ==> r.len() < t.len(),
    decreases t.len(),
{
    if t.len() > 0 && t[0] != RBRACKET && t[0] == COMMA {
        lemma_p_pair_consumes(t.skip(1));
        if let Some((p, r)) = p_pair(t.skip(1)) {
            lemma_p_pairs_rest_consumes(r);
        }
    }
}

/// A successful entry consumes at least one byte.
pub proof fn lemma_p_entry_consumes(t: Seq<u8>)
    ensures
        p_entry(t) matches Some((e, r)) ==> r.len() < t.len(),
{
    if let Some(t1) = p_byte(t, LBRACKET) {
        if !(t1.len() > 0 && t1[0] == RBRACKET) {
            lemma_p_pair_consumes(t1);
            if let Some((p, r)) = p_pair(t1) {
                lemma_p_pairs_rest_consumes(r);
            }
        }
    }
}

/// Consume the rest of an entry array after its first entry.
pub open spec fn p_entries_rest(t: Seq<u8>) -> Option<(EntrySeq, Seq<u8>)>
    decreases t.len(),
    via p_entries_rest_dec
{
    if t.len() == 0 {
        None
    } else if t[0] == RBRACKET {
        Some((seq![], t.skip(1)))
    } else if t[0] == COMMA {
        match p_entry(t.skip(1)) {
            Some((e, r)) => match p_entries_rest(r) {
                Some((es, r2)) => Some((seq![e] + es, r2)),
                None => None,
            },
            None => None,
        }
    } else {
        None
    }
}

#[via_fn]
proof fn p_entries_rest_dec(t: Seq<u8>) {
    if t.len() > 0 && t[0] != RBRACKET && t[0] == COMMA {
        lemma_p_entry_consumes(t.skip(1));
    }
}

/// Consume a whole history: a bracketed, comma-separated array of
/// entries.
pub open spec fn p_history(t: Seq<u8>) -> Option<(EntrySeq, Seq<u8>)> {
    match p_byte(t, LBRACKET) {
        None => None,
        Some(t1) => if t1.len() > 0 && t1[0] == RBRACKET {
            Some((seq![], t1.skip(1)))
        } else {
            match p_entry(t1) {
                None => None,
                Some((e, r)) => match p_entries_rest(r) {
                    None => None,
                    Some((es, r2)) => Some((seq![e] + es, r2)),
                },
            }
        },
    }
}

/// What a stored ledger means: the entries of the unique history it
/// renders, provided the whole text is consumed.
pub open spec fn parse_history(t: Seq<u8>) -> Option<EntrySeq> {
    match p_history(t) {
        None => None,
        Some((es, rest)) => if rest.len() == 0 {
            Some(es)
        } else {
            None
        },
    }
}

// ---------------------------------------------------------------------
// Rendering then parsing gives the history back.

/// Escaping one more byte at the end extends the escaped form at the
/// end.
pub proof fn lemma_esc_push(s: Seq<u8>, b: u8)
    ensures
        esc(s.push(b)) == esc(s) + esc_byte(b),
    decreases s.len(),
{
    if s.len() == 0 {
        assert(s.push(b)[0] == b);
        assert(s.push(b).skip(1) =~= Seq::<u8>::empty());
        assert(esc(s.push(b).skip(1)) == Seq::<u8>::empty());
        assert(esc(s.push(b)) == esc_byte(b) + Seq::<u8>::empty());
        assert(esc_byte(b) + Seq::<u8>::empty() =~= esc_byte(b));
        assert(esc(s) + esc_byte(b) =~= esc_byte(b));
    } else {
        assert(s.push(b).skip(1) =~= s.skip(1).push(b));
        lemma_esc_push(s.skip(1), b);
        assert(esc(s.push(b)) =~= esc_byte(s[0]) + (esc(s.skip(1)) + esc_byte(b)));
        assert(esc_byte(s[0]) + (esc(s.skip(1)) + esc_byte(b)) =~= (esc_byte(s[0]) + esc(
            s.skip(1),
        )) + esc_byte(b));
    }
}

/// Joining one more rendered element appends it after a comma, or alone
/// if it is the first.
pub proof fn lemma_join_push(rs: Seq<Seq<u8>>, r: Seq<u8>)
    ensures
        join_comma(rs.push(r)) == if rs.len() == 0 {
            r
        } else {
            join_comma(rs) + seq![COMMA] + r
        },
{
    assert(rs.push(r).drop_last() =~= rs);
    assert(rs.push(r).last() == r);
}

/// Appending an element to a comma-prefixed tail appends its rendered
/// form after a comma.
pub proof fn lemma_tail_join_push(rs: Seq<Seq<u8>>, r: Seq<u8>)
    ensures
        tail_join(rs.push(r)) == tail_join(rs) + seq![COMMA] + r,
    decreases rs.len(),
{
    if rs.len() == 0 {
        assert(rs.push(r)[0] == r);
        assert(rs.push(r).skip(1) =~= Seq::<Seq<u8>>::empty());
        assert(tail_join(rs.push(r).skip(1)) == Seq::<u8>::empty());
        assert(tail_join(rs.push(r)) == seq![COMMA] + r + Seq::<u8>::empty());
        assert(seq![COMMA] + r + Seq::<u8>::empty() =~= seq![COMMA] + r);
        assert(tail_join(rs) + seq![COMMA] + r =~= seq![COMMA] + r);
    } else {
        assert(rs.push(r).skip(1) =~= rs.skip(1).push(r));
        lemma_tail_join_push(rs.skip(1), r);
        assert(tail_join(rs.push(r)) =~= seq![COMMA] + rs[0] + (tail_join(rs.skip(1)) + seq![COMMA]
            + r));
        assert(seq![COMMA] + rs[0] + (tail_join(rs.skip(1)) + seq![COMMA] + r) =~= (seq![COMMA]
            + rs[0] + tail_join(rs.skip(1))) + seq![COMMA] + r);
    }
}

/// A non-empty comma-joined list is its first element followed by the
/// comma-prefixed rest.
pub proof fn lemma_join_split(rs: Seq<Seq<u8>>)
    requires
        rs.len() > 0,
    ensures
        join_comma(rs) == rs[0] + tail_join(rs.skip(1)),
    decreases rs.len(),
{
    if rs.len() == 1 {
        assert(rs.skip(1) =~= Seq::<Seq<u8>>::empty());
        assert(rs[0] + tail_join(rs.skip(1)) =~= rs[0]);
    } else {
        lemma_join_split(rs.drop_last());
        assert(rs.drop_last().skip(1).push(rs.last()) =~= rs.skip(1));
        lemma_tail_join_push(rs.drop_last().skip(1), rs.last());
        assert(rs.drop_last()[0] == rs[0]);
        assert((rs[0] + tail_join(rs.drop_last().skip(1))) + seq![COMMA] + rs.last() =~= rs[0] + (
        tail_join(rs.drop_last().skip(1)) + seq![COMMA] + rs.last()));
    }
}

/// Parsing an escaped string with its closing quote recovers the
/// original bytes and leaves the rest untouched.
pub proof fn lemma_str_body_round_trip(s: Seq<u8>, rest: Seq<u8>)
    ensures
        p_str_body(esc(s) + seq![QUOTE] + rest) == Some((s, rest)),
    decreases s.len(),
{
    let t = esc(s) + seq![QUOTE] + rest;
    if s.len() == 0 {
        assert(t =~= seq![QUOTE] + rest);
        assert(t[0] == QUOTE);
        assert(t.skip(1) =~= rest);
        assert(p_str_body(t) == Some((Seq::<u8>::empty(), rest)));
        assert(Seq::<u8>::empty() =~= s);
    } else {
        let b = s[0];
        let tail = esc(s.skip(1)) + seq![QUOTE] + rest;
        lemma_str_body_round_trip(s.skip(1), rest);
        if b == QUOTE || b == BACKSLASH {
            assert(t =~= seq![BACKSLASH, b] + tail);
            assert(t[0] == BACKSLASH);
            assert(t[1] == b);
            assert(t.len() >= 2);
            assert(t.skip(2) =~= tail);
            assert(p_str_body(t) == Some((seq![b] + s.skip(1), rest)));
        } else {
            assert(t =~= seq![b] + tail);
            assert(t[0] == b);
            assert(t[0] != QUOTE && t[0] != BACKSLASH);
            assert(t.skip(1) =~= tail);
            assert(p_str_body(t) == Some((seq![b] + s.skip(1), rest)));
        }
        assert(seq![b] + s.skip(1) =~= s);
    }
}

/// Parsing a quoted string recovers the original bytes.
pub proof fn lemma_quoted_round_trip(s: Seq<u8>, rest: Seq<u8>)
    ensures
        p_quoted(quoted(s) + rest) == Some((s, rest)),
{
    let t = quoted(s) + rest;
    assert(t[0] == QUOTE);
    assert(t.skip(1) =~= esc(s) + seq![QUOTE] + rest);
    lemma_str_body_round_trip(s, rest);
}

/// Parsing an expected literal consumes exactly it.
pub proof fn lemma_lit_round_trip(lit: Seq<u8>, rest: Seq<u8>)
    ensures
        p_lit(lit + rest, lit) == Some(rest),
{
    let t = lit + rest;
    assert(t.take(lit.len() as int) =~= lit);
    assert(t.skip(lit.len() as int) =~= rest);
}

/// Parsing a rendered pair recovers the pair.
pub proof fn lemma_pair_round_trip(p: (Seq<u8>, Seq<u8>), rest: Seq<u8>)
    ensures
        p_pair(render_pair(p) + rest) == Some((p, rest)),
{
    let t = render_pair(p) + rest;
    let r1 = quoted(p.0) + lit_to() + quoted(p.1) + seq![RBRACE] + rest;
    assert(t =~= lit_from() + r1);
    lemma_lit_round_trip(lit_from(), r1);
    let r2 = lit_to() + quoted(p.1) + seq![RBRACE] + rest;
    assert(r1 =~= quoted(p.0) + r2);
    lemma_quoted_round_trip(p.0, r2);
    let r3 = quoted(p.1) + seq![RBRACE] + rest;
    assert(r2 =~= lit_to() + r3);
    lemma_lit_round_trip(lit_to(), r3);
    let r4 = seq![RBRACE] + rest;
    assert(r3 =~= quoted(p.1) + r4);
    lemma_quoted_round_trip(p.1, r4);
    assert(r4[0] == RBRACE);
    assert(r4.skip(1) =~= rest);
}

/// Parsing the comma-prefixed tail of a pair array recovers the pairs.
#[verifier::rlimit(100)]
#[verifier::spinoff_prover]
pub proof fn lemma_pairs_rest_round_trip(e: PairSeq, rest: Seq<u8>)
    ensures
        p_pairs_rest(tail_join(rendered_pairs(e)) + seq![RBRACKET] + rest) == Some((e, rest)),
    decreases e.len(),
{
    let t = tail_join(rendered_pairs(e)) + seq![RBRACKET] + rest;
    if e.len() == 0 {
        assert(rendered_pairs(e) =~= Seq::<Seq<u8>>::empty());
        assert(t =~= seq![RBRACKET] + rest);
        assert(t[0] == RBRACKET);
        assert(t.skip(1) =~= rest);
        assert(Seq::<(Seq<u8>, Seq<u8>)>::empty() =~= e);
    } else {
        assert(rendered_pairs(e)[0] == render_pair(e[0]));
        assert(rendered_pairs(e).skip(1) =~= rendered_pairs(e.skip(1)));
        let t1 = render_pair(e[0]) + (tail_join(rendered_pairs(e.skip(1))) + seq![RBRACKET] + rest);
        assert(t =~= seq![COMMA] + t1);
        assert(t[0] == COMMA);
        assert(t[0] != RBRACKET);
        assert(t.skip(1) =~= t1);
        lemma_pair_round_trip(e[0], tail_join(rendered_pairs(e.skip(1))) + seq![RBRACKET] + rest);
        lemma_pairs_rest_round_trip(e.skip(1), rest);
        assert(p_pair(t1) == Some(
            (e[0], tail_join(rendered_pairs(e.skip(1))) + seq![RBRACKET] + rest),
        ));
        assert(p_pairs_rest(t) == Some((seq![e[0]] + e.skip(1), rest)));
        assert(seq![e[0]] + e.skip(1) =~= e);
    }
}

/// Parsing a rendered entry recovers its pairs.
#[verifier::rlimit(100)]
#[verifier::spinoff_prover]
pub proof fn lemma_entry_round_trip(e: PairSeq, rest: Seq<u8>)
    ensures
        p_entry(render_entry(e) + rest) == Some((e, rest)),
{
    let t = render_entry(e) + rest;
    let t1 = join_comma(rendered_pairs(e)) + seq![RBRACKET] + rest;
    assert(t =~= seq![LBRACKET] + t1);
    assert(t[0] == LBRACKET);
    assert(t.skip(1) =~= t1);
    if e.len() == 0 {
        assert(rendered_pairs(e) =~= Seq::<Seq<u8>>::empty());
        assert(t1 =~= seq![RBRACKET] + rest);
        assert(t1[0] == RBRACKET);
        assert(t1.skip(1) =~= rest);
        assert(Seq::<(Seq<u8>, Seq<u8>)>::empty() =~= e);
    } else {
        lemma_join_split(rendered_pairs(e));
        assert(rendered_pairs(e)[0] == render_pair(e[0]));
        assert(rendered_pairs(e).skip(1) =~= rendered_pairs(e.skip(1)));
        let r1 = tail_join(rendered_pairs(e.skip(1))) + seq![RBRACKET] + rest;
        assert(t1 =~= render_pair(e[0]) + r1);
        assert(render_pair(e[0])[0] == LBRACE);
        assert(t1[0] == LBRACE);
        assert(t1[0] != RBRACKET);
        lemma_pair_round_trip(e[0], r1);
        lemma_pairs_rest_round_trip(e.skip(1), rest);
        assert(p_pair(t1) == Some((e[0], r1)));
        assert(p_entry(t) == Some((seq![e[0]] + e.skip(1), rest)));
        assert(seq![e[0]] + e.skip(1) =~= e);
    }
}

/// Parsing the comma-prefixed tail of an entry array recovers the
/// entries.
#[verifier::rlimit(100)]
#[verifier::spinoff_prover]
pub proof fn lemma_entries_rest_round_trip(es: EntrySeq, rest: Seq<u8>)
    ensures
        p_entries_rest(tail_join(rendered_entries(es)) + seq![RBRACKET] + rest) == Some(
            (es, rest),
        ),
    decreases es.len(),
{
    let t = tail_join(rendered_entries(es)) + seq![RBRACKET] + rest;
    if es.len() == 0 {
        assert(rendered_entries(es) =~= Seq::<Seq<u8>>::empty());
        assert(t =~= seq![RBRACKET] + rest);
        assert(t[0] == RBRACKET);
        assert(t.skip(1) =~= rest);
        assert(Seq::<Seq<(Seq<u8>, Seq<u8>)>>::empty() =~= es);
    } else {
        assert(rendered_entries(es)[0] == render_entry(es[0]));
        assert(rendered_entries(es).skip(1) =~= rendered_entries(es.skip(1)));
        let t1 = render_entry(es[0]) + (tail_join(rendered_entries(es.skip(1))) + seq![RBRACKET]
            + rest);
        assert(t =~= seq![COMMA] + t1);
        assert(t[0] == COMMA);
        assert(t[0] != RBRACKET);
        assert(t.skip(1) =~= t1);
        lemma_entry_round_trip(
            es[0],
            tail_join(rendered_entries(es.skip(1))) + seq![RBRACKET] + rest,
        );
        lemma_entries_rest_round_trip(es.skip(1), rest);
        assert(p_entry(t1) == Some(
            (es[0], tail_join(rendered_entries(es.skip(1))) + seq![RBRACKET] + rest),
        ));
        assert(p_entries_rest(t) == Some((seq![es[0]] + es.skip(1), rest)));
        assert(seq![es[0]] + es.skip(1) =~= es);
    }
}

/// A non-empty rendered history parses to its entries with nothing
/// left over.
#[verifier::rlimit(100)]
#[verifier::spinoff_prover]
proof fn lemma_p_history_round_trip_nonempty(es: EntrySeq)
    requires
        es.len() > 0,
    ensures
        p_history(render_history(es)) == Some((es, Seq::<u8>::empty())),
{
    let t = render_history(es);
    let t1 = join_comma(rendered_entries(es)) + seq![RBRACKET];
    assert(t =~= seq![LBRACKET] + t1);
    assert(t[0] == LBRACKET);
    assert(t.skip(1) =~= t1);
    lemma_join_split(rendered_entries(es));
    assert(rendered_entries(es)[0] == render_entry(es[0]));
    assert(rendered_entries(es).skip(1) =~= rendered_entries(es.skip(1)));
    let r1 = tail_join(rendered_entries(es.skip(1))) + seq![RBRACKET] + Seq::<u8>::empty();
    assert(t1 =~= render_entry(es[0]) + r1);
    assert(render_entry(es[0])[0] == LBRACKET);
    assert(t1[0] == LBRACKET);
    assert(t1[0] != RBRACKET);
    lemma_entry_round_trip(es[0], r1);
    lemma_entries_rest_round_trip(es.skip(1), Seq::<u8>::empty());
    assert(p_entry(t1) == Some((es[0], tail_join(rendered_entries(es.skip(1))) + seq![
        RBRACKET,
    ] + Seq::<u8>::empty())));
    assert(seq![es[0]] + es.skip(1) =~= es);
    assert(p_history(t) == Some((es, Seq::<u8>::empty())));
}

/// Ledger round trip: a rendered history parses back to exactly its
/// entries.  Whatever a completed run leaves in the ledger, the next
/// run reads the same entries back, so entries only ever accumulate.
#[verifier::spinoff_prover]
pub proof fn lemma_history_round_trip(es: EntrySeq)
    ensures
        parse_history(render_history(es)) == Some(es),
{
    let t = render_history(es);
    if es.len() == 0 {
        let t1 = join_comma(rendered_entries(es)) + seq![RBRACKET];
        assert(t =~= seq![LBRACKET] + t1);
        assert(t[0] == LBRACKET);
        assert(t.skip(1) =~= t1);
        assert(rendered_entries(es) =~= Seq::<Seq<u8>>::empty());
        assert(t1 =~= seq![RBRACKET] + Seq::<u8>::empty());
        assert(t1[0] == RBRACKET);
        assert(t1.skip(1) =~= Seq::<u8>::empty());
        assert(Seq::<Seq<(Seq<u8>, Seq<u8>)>>::empty() =~= es);
    } else {
        lemma_p_history_round_trip_nonempty(es);
    }
}

// ---------------------------------------------------------------------
// The executable renderer and parser, pair by pair.  Entry and history
// loops live beside the ledger type itself.

/// The bytes `{"from":`, for the executable renderer and parser.
pub fn lit_from_vec() -> (v: Vec<u8>)
    ensures
        v@ == lit_from(),
{
    let mut v: Vec<u8> = Vec::new();
    v.push(LBRACE);
    v.push(QUOTE);
    v.push(102);
    v.push(114);
    v.push(111);
    v.push(109);
    v.push(QUOTE);
    v.push(58);
    proof {
        assert(v@ =~= lit_from());
    }
    v
}

/// The bytes `,"to":`, for the executable renderer and parser.
pub fn lit_to_vec() -> (v: Vec<u8>)
    ensures
        v@ == lit_to(),
{
    let mut v: Vec<u8> = Vec::new();
    v.push(COMMA);
    v.push(QUOTE);
    v.push(116);
    v.push(111);
    v.push(QUOTE);
    v.push(58);
    proof {
        assert(v@ =~= lit_to());
    }
    v
}

/// Append the escaped form of `s`.
pub fn push_escaped(out: &mut Vec<u8>, s: &[u8])
    ensures
        final(out)@ == old(out)@ + esc(s@),
{
    let ghost base: Seq<u8> = out@;
    let mut i: usize = 0;
    while i < s.len()
        invariant
            i <= s@.len(),
            out@ == base + esc(s@.take(i as int)),
        decreases s@.len() - i,
    {
        let b = s[i];
        if b == QUOTE || b == BACKSLASH {
            out.push(BACKSLASH);
            out.push(b);
        } else {
            out.push(b);
        }
        proof {
            lemma_esc_push(s@.take(i as int), b);
            assert(s@.take(i as int + 1) =~= s@.take(i as int).push(b));
            assert(out@ =~= base + (esc(s@.take(i as int)) + esc_byte(b)));
        }
        i += 1;
    }
    proof {
        assert(s@.take(s@.len() as int) =~= s@);
    }
}

/// Append the quoted, escaped form of `s`.
pub fn push_quoted(out: &mut Vec<u8>, s: &[u8])
    ensures
        final(out)@ == old(out)@ + quoted(s@),
{
    let ghost base: Seq<u8> = out@;
    out.push(QUOTE);
    push_escaped(out, s);
    out.push(QUOTE);
    proof {
        assert(out@ =~= base + quoted(s@));
    }
}

/// Append one rendered `(from, to)` pair.
pub fn push_pair(out: &mut Vec<u8>, from: &[u8], to: &[u8])
    ensures
        final(out)@ == old(out)@ + render_pair((from@, to@)),
{
    let ghost base: Seq<u8> = out@;
    let lf = lit_from_vec();
    let lt = lit_to_vec();
    let mut i: usize = 0;
    while i < lf.len()
        invariant
            i <= lf@.len(),
            lf@ == lit_from(),
            out@ == base + lf@.take(i as int),
        decreases lf@.len() - i,
    {
        out.push(lf[i]);
        proof {
            assert(lf@.take(i as int + 1) =~= lf@.take(i as int).push(lf@[i as int]));
        }
        i += 1;
    }
    proof {
        assert(lf@.take(lf@.len() as int) =~= lf@);
    }
    push_quoted(out, from);
    let mut j: usize = 0;
    let ghost base2: Seq<u8> = out@;
    while j < lt.len()
        invariant
            j <= lt@.len(),
            lt@ == lit_to(),
            out@ == base2 + lt@.take(j as int),
        decreases lt@.len() - j,
    {
        out.push(lt[j]);
        proof {
            assert(lt@.take(j as int + 1) =~= lt@.take(j as int).push(lt@[j as int]));
        }
        j += 1;
    }
    proof {
        assert(lt@.take(lt@.len() as int) =~= lt@);
    }
    push_quoted(out, to);
    out.push(RBRACE);
    proof {
        assert(out@ =~= base + render_pair((from@, to@)));
    }
}

/// Consume one expected byte at `pos`.
pub fn eat_byte(text: &[u8], pos: usize, b: u8) -> (r: Option<usize>)
    requires
        pos <= text@.len(),
    ensures
        match r {
            Some(p2) => p_byte(text@.skip(pos as int), b) == Some(text@.skip(p2 as int)) && p2
                == pos + 1 && p2 <= text@.len(),
            None => p_byte(text@.skip(pos as int), b) is None,
        },
{
    if pos < text.len() && text[pos] == b {
        proof {
            assert(text@.skip(pos as int)[0] == text@[pos as int]);
            assert(text@.skip(pos as int).skip(1) =~= text@.skip(pos as int + 1));
        }
        Some(pos + 1)
    } else {
        proof {
            if pos < text@.len() {
                assert(text@.skip(pos as int)[0] == text@[pos as int]);
            }
        }
        None
    }
}

/// Consume an expected literal at `pos`.
pub fn eat_lit(text: &[u8], pos: usize, lit: &[u8]) -> (r: Option<usize>)
    requires
        pos <= text@.len(),
    ensures
        match r {
            Some(p2) => p_lit(text@.skip(pos as int), lit@) == Some(text@.skip(p2 as int)) && p2
                == pos + lit@.len() && p2 <= text@.len(),
            None => p_lit(text@.skip(pos as int), lit@) is None,
        },
{
    let ghost t: Seq<u8> = text@.skip(pos as int);
    if text.len() - pos < lit.len() {
        return None;
    }
    let mut i: usize = 0;
    while i < lit.len()
        invariant
            i <= lit@.len(),
            pos + lit@.len() <= text@.len(),
            text@.len() <= usize::MAX,
            t == text@.skip(pos as int),
            forall|j: int| 0 <= j < i ==> text@[pos + j] == lit@[j],
        decreases lit@.len() - i,
    {
        if text[pos + i] != lit[i] {
            proof {
                assert(t[i as int] == text@[pos + i]);
                assert(t.take(lit@.len() as int)[i as int] == t[i as int]);
                assert(t.take(lit@.len() as int) != lit@);
            }
            return None;
        }
        i += 1;
    }
    proof {
        assert(t.take(lit@.len() as int) =~= lit@);
        assert(t.skip(lit@.len() as int) =~= text@.skip(pos + lit@.len()));
    }
    Some(pos + lit.len())
}

/// Consume a quoted string at `pos`, undoing the escapes.
pub fn eat_quoted(text: &[u8], pos: usize) -> (r: Option<(Vec<u8>, usize)>)
    requires
        pos <= text@.len(),
    ensures
        match r {
            Some(vp) => p_quoted(text@.skip(pos as int)) == Some((vp.0@, text@.skip(vp.1 as int)))
                && pos < vp.1 <= text@.len(),
            None => p_quoted(text@.skip(pos as int)) is None,
        },
{
    let ghost t: Seq<u8> = text@.skip(pos as int);
    if pos == text.len() || text[pos] != QUOTE {
        proof {
            if pos < text@.len() {
                assert(t[0] == text@[pos as int]);
            }
        }
        return None;
    }
    proof {
        assert(t[0] == text@[pos as int]);
        assert(t.skip(1) =~= text@.skip(pos as int + 1));
    }
    let mut cur: usize = pos + 1;
    let mut acc: Vec<u8> = Vec::new();
    loop
        invariant
            pos + 1 <= cur <= text@.len(),
            t == text@.skip(pos as int),
            t.len() > 0 && t[0] == QUOTE,
            p_quoted(t) == p_str_body(text@.skip(pos as int + 1)),
            match p_str_body(text@.skip(cur as int)) {
                Some((s, rr)) => p_str_body(text@.skip(pos as int + 1)) == Some((acc@ + s, rr)),
                None => p_str_body(text@.skip(pos as int + 1)) is None,
            },
        decreases text@.len() - cur,
    {
        let ghost tc: Seq<u8> = text@.skip(cur as int);
        if cur == text.len() {
            proof {
                assert(tc =~= Seq::<u8>::empty());
            }
            return None;
        }
        let b = text[cur];
        proof {
            assert(tc[0] == text@[cur as int]);
        }
        if b == QUOTE {
            proof {
                assert(tc.skip(1) =~= text@.skip(cur as int + 1));
                assert(p_str_body(tc) == Some((Seq::<u8>::empty(), text@.skip(cur as int + 1))));
                assert(acc@ + Seq::<u8>::empty() =~= acc@);
            }
            return Some((acc, cur + 1));
        } else if b == BACKSLASH {
            if cur + 1 == text.len() {
                proof {
                    assert(tc.len() == 1);
                }
                return None;
            }
            let b2 = text[cur + 1];
            proof {
                assert(tc[1] == text@[cur as int + 1]);
            }
            if b2 == QUOTE || b2 == BACKSLASH {
                let ghost acc0: Seq<u8> = acc@;
                acc.push(b2);
                cur = cur + 2;
                proof {
                    assert(tc.skip(2) =~= text@.skip(cur as int));
                    match p_str_body(text@.skip(cur as int)) {
                        Some((s, rr)) => {
                            assert(p_str_body(tc) == Some((seq![b2] + s, rr)));
                            assert(acc@ + s =~= acc0 + (seq![b2] + s));
                        },
                        None => {
                            assert(p_str_body(tc) is None);
                        },
                    }
                }
            } else {
                return None;
            }
        } else {
            let ghost acc0: Seq<u8> = acc@;
            acc.push(b);
            cur = cur + 1;
            proof {
                assert(tc.skip(1) =~= text@.skip(cur as int));
                match p_str_body(text@.skip(cur as int)) {
                    Some((s, rr)) => {
                        assert(p_str_body(tc) == Some((seq![b] + s, rr)));
                        assert(acc@ + s =~= acc0 + (seq![b] + s));
                    },
                    None => {
                        assert(p_str_body(tc) is None);
                    },
                }
            }
        }
    }
}

/// Consume one `{"from":...,"to":...}` pair at `pos`.
pub fn eat_pair(text: &[u8], pos: usize) -> (r: Option<(Vec<u8>, Vec<u8>, usize)>)
    requires
        pos <= text@.len(),
    ensures
        match r {
            Some(fp) => p_pair(text@.skip(pos as int)) == Some(
                ((fp.0@, fp.1@), text@.skip(fp.2 as int)),
            ) && pos < fp.2 <= text@.len(),
            None => p_pair(text@.skip(pos as int)) is None,
        },
{
    let lf = lit_from_vec();
    let lt = lit_to_vec();
    let p1 = match eat_lit(text, pos, lf.as_slice()) {
        None => {
            return None;
        },
        Some(p) => p,
    };
    let (s1, p2) = match eat_quoted(text, p1) {
        None => {
            return None;
        },
        Some(sp) => sp,
    };
    let p3 = match eat_lit(text, p2, lt.as_slice()) {
        None => {
            return None;
        },
        Some(p) => p,
    };
    let (s2, p4) = match eat_quoted(text, p3) {
        None => {
            return None;
        },
        Some(sp) => sp,
    };
    let p5 = match eat_byte(text, p4, RBRACE) {
        None => {
            return None;
        },
        Some(p) => p,
    };
    Some((s1, s2, p5))
}

/// Byte-for-byte equality of two byte strings.
pub fn bytes_eq(a: &[u8], b: &[u8]) -> (r: bool)
    ensures
        r == (a@ == b@),
{
    if a.len() != b.len() {
        proof {
            assert(a@ != b@);
        }
        return false;
    }
    let mut i: usize = 0;
    while i < a.len()
        invariant
            i <= a.len(),
            a@.len() == b@.len(),
            forall|j: int| 0 <= j < i ==> a@[j] == b@[j],
        decreases a@.len() - i,
    {
        if a[i] != b[i] {
            proof {
                assert(a@ != b@);
            }
            return false;
        }
        i += 1;
    }
    proof {
        assert(a@ =~= b@);
    }
    true
}

} // verus!
