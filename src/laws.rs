//! Properties of a whole scan.
use vstd::prelude::*;
use vstd::utf8::encode_utf8;
use crate::grammar::{
    lemma_skip_bounds, lemma_step_bounds, literal_value, scan, scan_from, skip_comment,
    skip_trivia, step, Lexeme,
};
use crate::text::{byte_at, col_at, lemma_position_order, lemma_prefix_boundary, row_at};
use crate::token::KindModel;

verus! {

/// A lexeme lies within the text, consumes at least one character, and holds
/// what its characters say: an identifier holds exactly them, a number holds
/// their value.
pub open spec fn lexeme_of(s: Seq<char>, l: Lexeme) -> bool {
    &&& 0 <= l.start < l.end <= s.len()
    &&& match l.kind {
        KindModel::Ident(text) => text == s.subrange(l.start, l.end),
        KindModel::Num(v) => v == literal_value(s.subrange(l.start, l.end)),
        _ => true,
    }
}

proof fn lemma_scan_from_facts(s: Seq<char>, i: int)
    requires
        0 <= i <= s.len(),
    ensures
        forall|n: int|
            0 <= n < scan_from(s, i).len() ==> lexeme_of(s, #[trigger] scan_from(s, i)[n]) && i
                <= scan_from(s, i)[n].start,
        forall|m: int, n: int|
            0 <= m < n < scan_from(s, i).len() ==> #[trigger] scan_from(s, i)[m].end
                <= #[trigger] scan_from(s, i)[n].start,
    decreases s.len() - i,
{
    lemma_step_bounds(s, i);
    lemma_skip_bounds(s, i);
    if let Some(t) = step(s, i).0 {
        let e = step(s, i).1;
        lemma_scan_from_facts(s, e);
        let sc = scan_from(s, i);
        let rest = scan_from(s, e);
        assert(sc == seq![t] + rest);
        assert(lexeme_of(s, t));
        assert forall|n: int| 0 <= n < sc.len() implies lexeme_of(s, #[trigger] sc[n]) && i
            <= sc[n].start by {
            if n > 0 {
                assert(sc[n] == rest[n - 1]);
            }
        }
        assert forall|m: int, n: int| 0 <= m < n < sc.len() implies #[trigger] sc[m].end
            <= #[trigger] sc[n].start by {
            assert(sc[n] == rest[n - 1]);
            if m > 0 {
                assert(sc[m] == rest[m - 1]);
            }
        }
    }
}

/// The characters `a..b` of a text encode to the bytes between their offsets.
pub proof fn lemma_range_bytes(s: Seq<char>, a: int, b: int)
    requires
        0 <= a <= b <= s.len(),
    ensures
        encode_utf8(s.subrange(a, b)) == encode_utf8(s).subrange(
            byte_at(s, a) as int,
            byte_at(s, b) as int,
        ),
{
    let pre = s.subrange(0, b);
    lemma_prefix_boundary(s, b);
    assert(pre.subrange(0, a) =~= s.subrange(0, a));
    lemma_prefix_boundary(pre, a);
    assert(pre.subrange(a, pre.len() as int) =~= s.subrange(a, b));
    assert(encode_utf8(s).subrange(byte_at(s, a) as int, byte_at(s, b) as int) =~= encode_utf8(
        s,
    ).subrange(0, byte_at(s, b) as int).subrange(byte_at(s, a) as int, byte_at(s, b) as int));
}

/// Scanning is deterministic: scanning the same text twice gives the same
/// tokens, in the same order, at the same positions.
pub proof fn lemma_rescan_identical(s: Seq<char>, t: Seq<char>)
    requires
        s == t,
    ensures
        scan(s).len() == scan(t).len(),
        forall|n: int| 0 <= n < scan(s).len() ==> #[trigger] scan(s)[n].token(s) == scan(t)[n].token(t),
{
}

/// Every identifier or number token of a scan is the text of the range of
/// characters it consumed: its characters encode to exactly the source bytes
/// between its start and end offsets. Token ranges follow each other without
/// overlap.
pub proof fn lemma_lexemes_match_source(s: Seq<char>)
    ensures
        forall|n: int| 0 <= n < scan(s).len() ==> lexeme_of(s, #[trigger] scan(s)[n]),
        forall|n: int|
            0 <= n < scan(s).len() ==> encode_utf8(s.subrange(#[trigger] scan(s)[n].start, scan(s)[n].end))
                == encode_utf8(s).subrange(
                byte_at(s, scan(s)[n].start) as int,
                byte_at(s, scan(s)[n].end) as int,
            ),
        forall|n: int|
            0 <= n < scan(s).len() ==> (#[trigger] scan(s)[n].kind matches KindModel::Ident(text)
                ==> encode_utf8(text) == encode_utf8(s).subrange(
                byte_at(s, scan(s)[n].start) as int,
                byte_at(s, scan(s)[n].end) as int,
            )),
        forall|m: int, n: int|
            0 <= m < n < scan(s).len() ==> #[trigger] scan(s)[m].end <= #[trigger] scan(s)[n].start,
{
    lemma_scan_from_facts(s, 0);
    assert forall|n: int| 0 <= n < scan(s).len() implies encode_utf8(
        s.subrange(#[trigger] scan(s)[n].start, scan(s)[n].end),
    ) == encode_utf8(s).subrange(
        byte_at(s, scan(s)[n].start) as int,
        byte_at(s, scan(s)[n].end) as int,
    ) by {
        lemma_range_bytes(s, scan(s)[n].start, scan(s)[n].end);
    }
}

/// Token positions strictly increase along a scan: a later token stands on a
/// later row, or on the same row in a later column.
pub proof fn lemma_positions_increase(s: Seq<char>, i: int, j: int)
    requires
        0 <= i < j < scan(s).len(),
    ensures
        ({
            let a = scan(s)[i].token(s);
            let b = scan(s)[j].token(s);
            a.row < b.row || (a.row == b.row && a.col < b.col)
        }),
{
    lemma_scan_from_facts(s, 0);
    assert(scan(s)[i].start < scan(s)[i].end <= scan(s)[j].start);
    lemma_position_order(s, scan(s)[i].start, scan(s)[j].start);
}

/// Two successive pulls that both yield a token yield them in increasing
/// position: the second on a later row, or on the same row further right.
pub proof fn lemma_successive_pulls_increase(s: Seq<char>, i: int)
    requires
        0 <= i <= s.len(),
        step(s, i).0 is Some,
        step(s, step(s, i).1).0 is Some,
    ensures
        ({
            let a = step(s, i).0->0.token(s);
            let b = step(s, step(s, i).1).0->0.token(s);
            a.row < b.row || (a.row == b.row && a.col < b.col)
        }),
{
    lemma_step_bounds(s, i);
    let e = step(s, i).1;
    lemma_step_bounds(s, e);
    lemma_position_order(s, step(s, i).0->0.start, step(s, e).0->0.start);
}

proof fn lemma_skip_settles(s: Seq<char>, i: int)
    requires
        0 <= i <= s.len(),
    ensures
        skip_trivia(s, skip_trivia(s, i)) == skip_trivia(s, i),
        skip_trivia(s, skip_comment(s, i)) == skip_comment(s, i),
    decreases s.len() - i,
{
    if i < s.len() {
        lemma_skip_settles(s, i + 1);
    }
}

/// Once a pull yields no token, the scanner is exhausted: the next pull
/// yields none either and leaves the index where it is.
pub proof fn lemma_exhausted_stays(s: Seq<char>, i: int)
    requires
        0 <= i <= s.len(),
        step(s, i).0 is None,
    ensures
        step(s, step(s, i).1).0 is None,
        step(s, step(s, i).1).1 == step(s, i).1,
{
    lemma_skip_settles(s, i);
}

} // verus!
