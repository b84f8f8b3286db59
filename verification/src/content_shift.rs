//! Recovering how far the visible content moved between two frames, given a
//! hash per visible row.
//!
//! Applications that repaint rows in place instead of asking the terminal to
//! scroll leave no scroll to count, so the shift has to be recovered from the
//! content: every row that also appeared in the previous frame votes for the
//! offset it moved by, and the offset with the most votes wins.
use std::collections::HashMap;
use vstd::prelude::*;

verus! {

broadcast use vstd::std_specs::hash::group_hash_axioms;

/// How many rows have to line up at the same offset before a frame counts as a
/// scroll rather than a coincidence. A split window only scrolls its own rows,
/// so this cannot demand a majority of the screen.
pub const SCROLL_MATCH_ROWS: usize = 4;

/// `prev[p]` holds `h`, and no other row of `prev` does.
pub open spec fn sole_row(prev: Seq<u64>, h: u64, p: int) -> bool {
    &&& 0 <= p < prev.len()
    &&& prev[p] == h
    &&& forall|q: int| 0 <= q < prev.len() && #[trigger] prev[q] == h ==> q == p
}

/// `h` occurs exactly once in `prev`.
pub open spec fn has_sole_row(prev: Seq<u64>, h: u64) -> bool {
    exists|p: int| sole_row(prev, h, p)
}

/// The offset that row `r` of the current frame votes for: the row it came
/// from minus the row it is on now. A row whose content occurs no time or
/// several times in the previous frame (a run of blank lines, say) says
/// nothing about where it came from, and does not vote.
pub open spec fn row_vote(prev: Seq<u64>, cur: Seq<u64>, r: int) -> Option<int> {
    if has_sole_row(prev, cur[r]) {
        Some((choose|p: int| sole_row(prev, cur[r], p)) - r)
    } else {
        None
    }
}

/// How many of the first `n` rows of `cur` vote for offset `o`.
pub open spec fn votes_before(prev: Seq<u64>, cur: Seq<u64>, o: int, n: int) -> nat
    decreases n,
{
    if n <= 0 {
        0
    } else {
        votes_before(prev, cur, o, n - 1) + if row_vote(prev, cur, n - 1) == Some(o) {
            1nat
        } else {
            0nat
        }
    }
}

/// How many rows of `cur` vote for offset `o`.
pub open spec fn votes(prev: Seq<u64>, cur: Seq<u64>, o: int) -> nat {
    votes_before(prev, cur, o, cur.len() as int)
}

/// Offset `a` beats offset `b`: it has more votes, or as many and is the
/// smaller offset.
pub open spec fn outvotes(prev: Seq<u64>, cur: Seq<u64>, a: int, b: int) -> bool {
    ||| votes(prev, cur, a) > votes(prev, cur, b)
    ||| (votes(prev, cur, a) == votes(prev, cur, b) && a < b)
}

/// Offset `o` received votes and beats every other offset.
pub open spec fn leads(prev: Seq<u64>, cur: Seq<u64>, o: int) -> bool {
    &&& votes(prev, cur, o) > 0
    &&& forall|b: int| b != o ==> #[trigger] outvotes(prev, cur, o, b)
}

/// How far the content moved up between the frame `prev` and the frame `cur`,
/// in rows (negative when it moved down): the leading offset (the one with the
/// most votes, the smaller of two with as many), when it is not 0 and at least
/// `SCROLL_MATCH_ROWS` rows voted for it; 0 otherwise.
pub open spec fn shift_between(prev: Seq<u64>, cur: Seq<u64>) -> int {
    if exists|o: int| leads(prev, cur, o) {
        let o = choose|o: int| leads(prev, cur, o);
        if o != 0 && votes(prev, cur, o) >= SCROLL_MATCH_ROWS {
            o
        } else {
            0
        }
    } else {
        0
    }
}

/// Lifts an optional row offset to the integers.
pub open spec fn offset_as_int(x: Option<isize>) -> Option<int> {
    match x {
        Some(o) => Some(o as int),
        None => None,
    }
}

proof fn lemma_votes_at_most_rows(prev: Seq<u64>, cur: Seq<u64>, o: int, n: int)
    requires
        0 <= n,
    ensures
        votes_before(prev, cur, o, n) <= n,
    decreases n,
{
    if n > 0 {
        lemma_votes_at_most_rows(prev, cur, o, n - 1);
    }
}

proof fn lemma_vote_is_counted(prev: Seq<u64>, cur: Seq<u64>, o: int, n: int, j: int)
    requires
        0 <= j < n,
        row_vote(prev, cur, j) == Some(o),
    ensures
        votes_before(prev, cur, o, n) >= 1,
    decreases n,
{
    if j < n - 1 {
        lemma_vote_is_counted(prev, cur, o, n - 1, j);
    }
}

proof fn lemma_voter_exists(prev: Seq<u64>, cur: Seq<u64>, o: int, n: int)
    requires
        votes_before(prev, cur, o, n) > 0,
    ensures
        exists|j: int| 0 <= j < n && row_vote(prev, cur, j) == Some(o),
    decreases n,
{
    if n > 0 && row_vote(prev, cur, n - 1) != Some(o) {
        lemma_voter_exists(prev, cur, o, n - 1);
    }
}

/// Two offsets cannot both lead.
proof fn lemma_leader_unique(prev: Seq<u64>, cur: Seq<u64>, a: int, b: int)
    requires
        leads(prev, cur, a),
        leads(prev, cur, b),
    ensures
        a == b,
{
    if a != b {
        assert(outvotes(prev, cur, a, b));
        assert(outvotes(prev, cur, b, a));
    }
}

/// The leading offset, when one leads, decides the shift.
proof fn lemma_shift_from_leader(prev: Seq<u64>, cur: Seq<u64>, o: int)
    requires
        leads(prev, cur, o),
    ensures
        shift_between(prev, cur) == (if o != 0 && votes(prev, cur, o) >= SCROLL_MATCH_ROWS {
            o
        } else {
            0
        }),
{
    let c = choose|x: int| leads(prev, cur, x);
    lemma_leader_unique(prev, cur, c, o);
}

/// When no row votes, nothing leads and the shift is 0.
proof fn lemma_no_voters_no_shift(prev: Seq<u64>, cur: Seq<u64>)
    requires
        forall|j: int| 0 <= j < cur.len() ==> #[trigger] row_vote(prev, cur, j) is None,
    ensures
        shift_between(prev, cur) == 0,
{
    assert forall|o: int| !leads(prev, cur, o) by {
        if votes(prev, cur, o) > 0 {
            lemma_voter_exists(prev, cur, o, cur.len() as int);
        }
    }
}

/// What a row of the current frame votes for, read from an index of the
/// previous frame that maps each hash to the first row holding it and to how
/// many rows hold it.
proof fn lemma_vote_from_index(
    prev: Seq<u64>,
    cur: Seq<u64>,
    index: Map<u64, (usize, usize)>,
    r: int,
    vote: Option<int>,
)
    requires
        0 <= r < cur.len(),
        forall|q: int| 0 <= q < prev.len() ==> index.contains_key(#[trigger] prev[q]),
        forall|h: u64| #[trigger]
            index.contains_key(h) ==> {
                &&& index[h].0 < prev.len()
                &&& prev[index[h].0 as int] == h
                &&& (index[h].1 == 1 <==> forall|q: int|
                    0 <= q < prev.len() && #[trigger] prev[q] == h ==> q == index[h].0)
            },
        index.contains_key(cur[r]) && index[cur[r]].1 == 1 ==> vote == Some(
            index[cur[r]].0 - r,
        ),
        !(index.contains_key(cur[r]) && index[cur[r]].1 == 1) ==> vote is None,
    ensures
        row_vote(prev, cur, r) == vote,
{
    let h = cur[r];
    if index.contains_key(h) {
        let f = index[h].0 as int;
        if index[h].1 == 1 {
            assert(sole_row(prev, h, f));
            let p = choose|p: int| sole_row(prev, h, p);
            assert(prev[f] == h);
        } else {
            if has_sole_row(prev, h) {
                let p = choose|p: int| sole_row(prev, h, p);
                assert(prev[f] == h);
                assert(f == p);
                assert(forall|q: int| 0 <= q < prev.len() && #[trigger] prev[q] == h ==> q == f);
            }
        }
    } else {
        if has_sole_row(prev, h) {
            let p = choose|p: int| sole_row(prev, h, p);
            assert(index.contains_key(prev[p]));
        }
    }
}


/// How many of the first `n` rows of `cur` vote at all.
pub open spec fn voters_before(prev: Seq<u64>, cur: Seq<u64>, n: int) -> nat
    decreases n,
{
    if n <= 0 {
        0
    } else {
        voters_before(prev, cur, n - 1) + if row_vote(prev, cur, n - 1) is Some {
            1nat
        } else {
            0nat
        }
    }
}

/// How many rows of `cur` vote at all: those whose content occurs exactly once
/// in `prev`.
pub open spec fn voters(prev: Seq<u64>, cur: Seq<u64>) -> nat {
    voters_before(prev, cur, cur.len() as int)
}

proof fn lemma_votes_at_most_voters(prev: Seq<u64>, cur: Seq<u64>, o: int, n: int)
    ensures
        votes_before(prev, cur, o, n) <= voters_before(prev, cur, n),
    decreases n,
{
    if n > 0 {
        lemma_votes_at_most_voters(prev, cur, o, n - 1);
    }
}

proof fn lemma_votes_over_range(prev: Seq<u64>, cur: Seq<u64>, o: int, lo: int, hi: int, n: int)
    requires
        0 <= lo <= hi,
        forall|r: int| lo <= r < hi ==> #[trigger] row_vote(prev, cur, r) == Some(o),
    ensures
        votes_before(prev, cur, o, n) >= (if n < lo {
            0
        } else if n < hi {
            n - lo
        } else {
            hi - lo
        }),
    decreases n,
{
    if n > 0 {
        lemma_votes_over_range(prev, cur, o, lo, hi, n - 1);
        if lo <= n - 1 < hi {
            assert(row_vote(prev, cur, n - 1) == Some(o));
        }
    }
}

/// An offset that no row votes for has no votes.
proof fn lemma_unvoted_offset(prev: Seq<u64>, cur: Seq<u64>, o: int)
    requires
        forall|j: int| 0 <= j < cur.len() ==> #[trigger] row_vote(prev, cur, j) != Some(o),
    ensures
        votes(prev, cur, o) == 0,
{
    if votes(prev, cur, o) > 0 {
        lemma_voter_exists(prev, cur, o, cur.len() as int);
    }
}

/// The reported shift is the offset with the most votes: whenever it is not 0,
/// at least `SCROLL_MATCH_ROWS` rows voted for it and no offset has more votes.
pub proof fn lemma_shift_has_most_votes(prev: Seq<u64>, cur: Seq<u64>)
    ensures
        shift_between(prev, cur) != 0 ==> {
            &&& votes(prev, cur, shift_between(prev, cur)) >= SCROLL_MATCH_ROWS
            &&& forall|o: int|
                #[trigger] votes(prev, cur, o) <= votes(prev, cur, shift_between(prev, cur))
        },
{
    if shift_between(prev, cur) != 0 {
        let s = shift_between(prev, cur);
        assert forall|o: int| #[trigger] votes(prev, cur, o) <= votes(prev, cur, s) by {
            if o != s {
                assert(outvotes(prev, cur, s, o));
            }
        }
    }
}

/// A frame compared with itself has not scrolled: every row can only have come
/// from where it already is.
pub proof fn lemma_unchanged_frame_no_shift(rows: Seq<u64>)
    ensures
        shift_between(rows, rows) == 0,
{
    assert forall|o: int| o != 0 implies votes(rows, rows, o) == 0 by {
        assert forall|j: int| 0 <= j < rows.len() implies #[trigger] row_vote(rows, rows, j)
            != Some(o) by {
            if has_sole_row(rows, rows[j]) {
                let p = choose|p: int| sole_row(rows, rows[j], p);
                assert(rows[j] == rows[j]);
            }
        }
        lemma_unvoted_offset(rows, rows, o);
    }
    if exists|o: int| leads(rows, rows, o) {
        let o = choose|o: int| leads(rows, rows, o);
        lemma_shift_from_leader(rows, rows, o);
    }
}

/// Rows whose content occurs in the previous frame not at all, or more than
/// once, say nothing about a scroll: a frame made only of such rows (a
/// rewritten screen, a screen of blank lines, the first frame) reports 0.
pub proof fn lemma_unmatched_frame_no_shift(prev: Seq<u64>, cur: Seq<u64>)
    requires
        forall|r: int| 0 <= r < cur.len() ==> !has_sole_row(prev, #[trigger] cur[r]),
    ensures
        shift_between(prev, cur) == 0,
{
    assert forall|j: int| 0 <= j < cur.len() implies #[trigger] row_vote(prev, cur, j) is None by {
        assert(!has_sole_row(prev, cur[j]));
    }
    lemma_no_voters_no_shift(prev, cur);
}

/// There is nothing to compare the first frame against.
pub proof fn lemma_first_frame_no_shift(cur: Seq<u64>)
    ensures
        shift_between(Seq::<u64>::empty(), cur) == 0,
{
    assert forall|r: int| 0 <= r < cur.len() implies !has_sole_row(
        Seq::<u64>::empty(),
        #[trigger] cur[r],
    ) by {}
    lemma_unmatched_frame_no_shift(Seq::<u64>::empty(), cur);
}

/// Fewer than `SCROLL_MATCH_ROWS` matching rows are more likely coincidence
/// than a scroll, and report 0.
pub proof fn lemma_few_matches_no_shift(prev: Seq<u64>, cur: Seq<u64>)
    requires
        voters(prev, cur) < SCROLL_MATCH_ROWS,
    ensures
        shift_between(prev, cur) == 0,
{
    lemma_shift_has_most_votes(prev, cur);
    lemma_votes_at_most_voters(prev, cur, shift_between(prev, cur), cur.len() as int);
}

/// Content that moved by `k` rows is reported as a shift of `k`: when the rows
/// `lo..hi` of the new frame, at least `SCROLL_MATCH_ROWS` of them, came from
/// `k` rows further down, and every row of the new frame that occurs in the
/// previous one occurs there only `k` rows further down.
pub proof fn lemma_moved_content_reports_shift(
    prev: Seq<u64>,
    cur: Seq<u64>,
    k: int,
    lo: int,
    hi: int,
)
    requires
        k != 0,
        0 <= lo,
        lo + SCROLL_MATCH_ROWS <= hi <= cur.len(),
        forall|r: int| lo <= r < hi ==> 0 <= r + k < prev.len() && prev[r + k] == #[trigger] cur[r],
        forall|r: int, q: int|
            0 <= r < cur.len() && 0 <= q < prev.len() && #[trigger] prev[q] == #[trigger] cur[r]
                ==> q == r + k,
    ensures
        shift_between(prev, cur) == k,
{
    assert forall|j: int| 0 <= j < cur.len() implies #[trigger] row_vote(prev, cur, j) is None
        || row_vote(prev, cur, j) == Some(k) by {
        if has_sole_row(prev, cur[j]) {
            let p = choose|p: int| sole_row(prev, cur[j], p);
            assert(prev[p] == cur[j]);
        }
    }
    assert forall|r: int| lo <= r < hi implies #[trigger] row_vote(prev, cur, r) == Some(k) by {
        assert(prev[r + k] == cur[r]);
        assert(sole_row(prev, cur[r], r + k));
        let p = choose|p: int| sole_row(prev, cur[r], p);
        assert(prev[p] == cur[r]);
    }
    lemma_votes_over_range(prev, cur, k, lo, hi, cur.len() as int);
    assert forall|b: int| b != k implies #[trigger] outvotes(prev, cur, k, b) by {
        assert forall|j: int| 0 <= j < cur.len() implies #[trigger] row_vote(prev, cur, j) != Some(
            b,
        ) by {
            assert(row_vote(prev, cur, j) is None || row_vote(prev, cur, j) == Some(k));
        }
        lemma_unvoted_offset(prev, cur, b);
    }
    assert(leads(prev, cur, k));
    lemma_shift_from_leader(prev, cur, k);
}

/// The strongest offset that one of the first `n` rows votes for, if any row
/// votes: it beats every other offset voted for by those rows.
proof fn lemma_best_vote(prev: Seq<u64>, cur: Seq<u64>, n: int) -> (best: Option<int>)
    requires
        n <= cur.len(),
    ensures
        best is None ==> forall|j: int| 0 <= j < n ==> #[trigger] row_vote(prev, cur, j) is None,
        best matches Some(o) ==> exists|j: int| 0 <= j < n && row_vote(prev, cur, j) == Some(o),
        best matches Some(o) ==> forall|j: int|
            0 <= j < n && (#[trigger] row_vote(prev, cur, j)) is Some ==> {
                ||| row_vote(prev, cur, j)->0 == o
                ||| outvotes(prev, cur, o, row_vote(prev, cur, j)->0)
            },
    decreases n,
{
    if n <= 0 {
        None
    } else {
        let earlier = lemma_best_vote(prev, cur, n - 1);
        match row_vote(prev, cur, n - 1) {
            None => earlier,
            Some(x) => match earlier {
                None => Some(x),
                Some(o) => {
                    if outvotes(prev, cur, x, o) {
                        assert forall|j: int|
                            0 <= j < n && (#[trigger] row_vote(prev, cur, j)) is Some implies {
                            ||| row_vote(prev, cur, j)->0 == x
                            ||| outvotes(prev, cur, x, row_vote(prev, cur, j)->0)
                        } by {
                            if j < n - 1 {
                                assert(row_vote(prev, cur, j)->0 == o || outvotes(
                                    prev,
                                    cur,
                                    o,
                                    row_vote(prev, cur, j)->0,
                                ));
                            }
                        }
                        Some(x)
                    } else {
                        Some(o)
                    }
                },
            },
        }
    }
}

/// Whenever some row votes, some offset leads.
proof fn lemma_leader_exists(prev: Seq<u64>, cur: Seq<u64>, j: int)
    requires
        0 <= j < cur.len(),
        row_vote(prev, cur, j) is Some,
    ensures
        exists|o: int| leads(prev, cur, o),
{
    let best = lemma_best_vote(prev, cur, cur.len() as int);
    let o = best->0;
    let w = choose|w: int| 0 <= w < cur.len() && row_vote(prev, cur, w) == Some(o);
    lemma_vote_is_counted(prev, cur, o, cur.len() as int, w);
    assert forall|b: int| b != o implies #[trigger] outvotes(prev, cur, o, b) by {
        if votes(prev, cur, b) > 0 {
            lemma_voter_exists(prev, cur, b, cur.len() as int);
            let v = choose|v: int| 0 <= v < cur.len() && row_vote(prev, cur, v) == Some(b);
            assert(row_vote(prev, cur, v) is Some);
        }
    }
    assert(leads(prev, cur, o));
}

/// How many integers of `lo..hi` satisfy `p`.
pub open spec fn count_in(p: spec_fn(int) -> bool, lo: int, hi: int) -> nat
    decreases hi - lo,
{
    if hi <= lo {
        0
    } else {
        count_in(p, lo, hi - 1) + if p(hi - 1) {
            1nat
        } else {
            0nat
        }
    }
}

proof fn lemma_count_shifted(p: spec_fn(int) -> bool, q: spec_fn(int) -> bool, lo: int, hi: int, d: int)
    requires
        forall|x: int| #[trigger] q(x) == p(x - d),
    ensures
        count_in(p, lo, hi) == count_in(q, lo + d, hi + d),
    decreases hi - lo,
{
    if hi > lo {
        lemma_count_shifted(p, q, lo, hi - 1, d);
        assert(q(hi + d - 1) == p(hi - 1));
    }
}

proof fn lemma_count_none(p: spec_fn(int) -> bool, lo: int, hi: int)
    requires
        forall|x: int| lo <= x < hi ==> !#[trigger] p(x),
    ensures
        count_in(p, lo, hi) == 0,
    decreases hi - lo,
{
    if hi > lo {
        lemma_count_none(p, lo, hi - 1);
    }
}

proof fn lemma_count_trimmed(p: spec_fn(int) -> bool, lo: int, lo2: int, hi2: int, hi: int)
    requires
        lo <= lo2 <= hi2 <= hi,
        forall|x: int| lo <= x < hi && #[trigger] p(x) ==> lo2 <= x < hi2,
    ensures
        count_in(p, lo, hi) == count_in(p, lo2, hi2),
    decreases hi - lo,
{
    if hi > hi2 {
        lemma_count_trimmed(p, lo, lo2, hi2, hi - 1);
    } else if lo < lo2 {
        // hi == hi2: peel the top element off both counts
        if hi2 > lo2 {
            lemma_count_trimmed(p, lo, lo2, hi2 - 1, hi - 1);
        } else {
            lemma_count_none(p, lo, hi);
        }
    }
}

/// In a previous frame without repeated rows, row `r` votes for `o` exactly
/// when the previous frame held its content `o` rows further down.
proof fn lemma_vote_without_repeats(prev: Seq<u64>, cur: Seq<u64>, r: int, o: int)
    requires
        prev.no_duplicates(),
        0 <= r < cur.len(),
    ensures
        row_vote(prev, cur, r) == Some(o) <==> (0 <= r + o < prev.len() && prev[r + o] == cur[r]),
{
    if 0 <= r + o < prev.len() && prev[r + o] == cur[r] {
        assert(sole_row(prev, cur[r], r + o));
        let p = choose|p: int| sole_row(prev, cur[r], p);
        assert(prev[p] == cur[r]);
    }
    if has_sole_row(prev, cur[r]) {
        let p = choose|p: int| sole_row(prev, cur[r], p);
        assert(prev[p] == cur[r]);
    }
}

proof fn lemma_votes_count_matches(prev: Seq<u64>, cur: Seq<u64>, o: int, n: int)
    requires
        prev.no_duplicates(),
        n <= cur.len(),
    ensures
        votes_before(prev, cur, o, n) == count_in(
            |r: int| 0 <= r < cur.len() && 0 <= r + o < prev.len() && prev[r + o] == cur[r],
            0,
            n,
        ),
    decreases n,
{
    if n > 0 {
        lemma_votes_count_matches(prev, cur, o, n - 1);
        lemma_vote_without_repeats(prev, cur, n - 1, o);
    }
}

/// Between frames without repeated rows, the votes mirror: as many rows of
/// `b` moved by `o` from `a` as rows of `a` moved by `-o` from `b`.
proof fn lemma_votes_mirror(a: Seq<u64>, b: Seq<u64>, o: int)
    requires
        a.no_duplicates(),
        b.no_duplicates(),
    ensures
        votes(b, a, -o) == votes(a, b, o),
{
    let p = |r: int| 0 <= r < b.len() && 0 <= r + o < a.len() && a[r + o] == b[r];
    let q = |x: int| 0 <= x < a.len() && 0 <= x + (-o) < b.len() && b[x + (-o)] == a[x];
    lemma_votes_count_matches(a, b, o, b.len() as int);
    lemma_votes_count_matches(b, a, -o, a.len() as int);
    assert forall|x: int| #[trigger] q(x) == p(x - o) by {}
    lemma_count_shifted(p, q, 0, b.len() as int, o);
    let lo2 = if o > 0 { o } else { 0 };
    let top = if a.len() < b.len() + o { a.len() as int } else { b.len() + o };
    if lo2 <= top {
        lemma_count_trimmed(q, o, lo2, top, b.len() + o);
        lemma_count_trimmed(q, 0, lo2, top, a.len() as int);
    } else {
        lemma_count_none(q, o, b.len() + o);
        lemma_count_none(q, 0, a.len() as int);
    }
}

/// Scrolling back reports the opposite shift: between two frames without
/// repeated rows whose leading offset, if any, wins outright rather than by
/// the tie rule, the shift from `b` back to `a` is minus the shift from `a` to
/// `b`.
pub proof fn lemma_scrolling_back_reverses_shift(a: Seq<u64>, b: Seq<u64>)
    requires
        a.no_duplicates(),
        b.no_duplicates(),
        forall|o: int|
            #[trigger] leads(a, b, o) ==> forall|x: int|
                x != o ==> #[trigger] votes(a, b, x) < votes(a, b, o),
    ensures
        shift_between(b, a) == -shift_between(a, b),
{
    assert forall|y: int| #[trigger] votes(b, a, y) == votes(a, b, -y) by {
        lemma_votes_mirror(a, b, -y);
    }
    if exists|o: int| leads(a, b, o) {
        let l = choose|o: int| leads(a, b, o);
        assert forall|y: int| y != -l implies #[trigger] outvotes(b, a, -l, y) by {
            assert(votes(b, a, y) == votes(a, b, -y));
            assert(votes(a, b, -y) < votes(a, b, l));
            assert(votes(b, a, -l) == votes(a, b, --l));
        }
        assert(votes(b, a, -l) == votes(a, b, l));
        assert(leads(b, a, -l));
        lemma_shift_from_leader(a, b, l);
        lemma_shift_from_leader(b, a, -l);
    } else {
        assert forall|o: int| votes(a, b, o) == 0 by {
            if votes(a, b, o) > 0 {
                lemma_voter_exists(a, b, o, b.len() as int);
                let j = choose|j: int| 0 <= j < b.len() && row_vote(a, b, j) == Some(o);
                lemma_leader_exists(a, b, j);
            }
        }
        assert forall|y: int| !leads(b, a, y) by {
            assert(votes(b, a, y) == votes(a, b, -y));
        }
    }
}

/// How far the visible content moved up between the frame `previous` and the
/// frame `current`, each given as a hash per visible row; negative when it
/// moved down, 0 when no offset is backed by enough rows. Where two offsets
/// have as many votes, the smaller one wins.
pub fn detect_content_shift(previous: &Vec<u64>, current: &Vec<u64>) -> (shift: isize)
    requires
        previous.len() <= isize::MAX,
        current.len() <= isize::MAX,
    ensures
        shift == shift_between(previous@, current@),
{
    let ghost prev = previous@;
    let ghost cur = current@;

    // Rows are only worth matching if they are distinct: a screen padded out
    // with blank rows would otherwise vote for every offset at once. Each hash
    // maps to the first row holding it and to how many rows hold it.
    let mut previous_rows: HashMap<u64, (usize, usize)> = HashMap::new();
    let mut i: usize = 0;
    while i < previous.len()
        invariant
            prev == previous@,
            i <= prev.len(),
            forall|q: int| 0 <= q < i ==> previous_rows@.contains_key(#[trigger] prev[q]),
            forall|h: u64| #[trigger]
                previous_rows@.contains_key(h) ==> {
                    &&& previous_rows@[h].0 < i
                    &&& prev[previous_rows@[h].0 as int] == h
                    &&& 1 <= previous_rows@[h].1 <= i
                    &&& (previous_rows@[h].1 == 1 <==> forall|q: int|
                        0 <= q < i && #[trigger] prev[q] == h ==> q == previous_rows@[h].0)
                },
        decreases prev.len() - i,
    {
        let hash = previous[i];
        let seen = previous_rows.get(&hash);
        match seen {
            Some(entry) => {
                let (first, count) = *entry;
                previous_rows.insert(hash, (first, count + 1));
                proof {
                    assert(prev[first as int] == hash && first < i);
                }
            },
            None => {
                proof {
                    assert forall|q: int| 0 <= q < i implies prev[q] != hash by {
                        assert(previous_rows@.contains_key(prev[q]));
                    }
                }
                previous_rows.insert(hash, (i, 1));
            },
        }
        i += 1;
    }

    // Every row that also appeared last frame votes for the offset it moved by.
    let mut offsets: Vec<Option<isize>> = Vec::new();
    let mut tally: HashMap<isize, usize> = HashMap::new();
    let mut r: usize = 0;
    while r < current.len()
        invariant
            prev == previous@,
            cur == current@,
            prev.len() <= isize::MAX,
            cur.len() <= isize::MAX,
            r <= cur.len(),
            forall|q: int| 0 <= q < prev.len() ==> previous_rows@.contains_key(#[trigger] prev[q]),
            forall|h: u64| #[trigger]
                previous_rows@.contains_key(h) ==> {
                    &&& previous_rows@[h].0 < prev.len()
                    &&& prev[previous_rows@[h].0 as int] == h
                    &&& (previous_rows@[h].1 == 1 <==> forall|q: int|
                        0 <= q < prev.len() && #[trigger] prev[q] == h ==> q
                            == previous_rows@[h].0)
                },
            offsets@.len() == r,
            forall|j: int|
                0 <= j < r ==> offset_as_int(#[trigger] offsets@[j]) == row_vote(prev, cur, j),
            forall|o: isize| #[trigger]
                tally@.contains_key(o) ==> tally@[o] == votes_before(prev, cur, o as int, r as int),
            forall|o: isize| #[trigger]
                tally@.contains_key(o) || votes_before(prev, cur, o as int, r as int) == 0,
        decreases cur.len() - r,
    {
        let hash = current[r];
        let source = previous_rows.get(&hash);
        let vote: Option<isize> = match source {
            Some(entry) => {
                let (row, count) = *entry;
                if count == 1 {
                    Some(row as isize - r as isize)
                } else {
                    None
                }
            },
            None => None,
        };
        proof {
            lemma_vote_from_index(prev, cur, previous_rows@, r as int, offset_as_int(vote));
        }
        match vote {
            Some(offset) => {
                let so_far: usize = match tally.get(&offset) {
                    Some(n) => *n,
                    None => 0,
                };
                proof {
                    lemma_votes_at_most_rows(prev, cur, offset as int, r as int);
                }
                tally.insert(offset, so_far + 1);
            },
            None => {},
        }
        offsets.push(vote);
        r += 1;
    }

    // The offset with the most votes wins; between offsets with as many votes,
    // the smaller one.
    let mut best_offset: isize = 0;
    let mut best_count: usize = 0;
    let mut k: usize = 0;
    while k < offsets.len()
        invariant
            prev == previous@,
            cur == current@,
            offsets@.len() == cur.len(),
            k <= cur.len(),
            forall|j: int|
                0 <= j < cur.len() ==> offset_as_int(#[trigger] offsets@[j]) == row_vote(
                    prev,
                    cur,
                    j,
                ),
            forall|o: isize| #[trigger]
                tally@.contains_key(o) ==> tally@[o] == votes(prev, cur, o as int),
            forall|o: isize| #[trigger] tally@.contains_key(o) || votes(prev, cur, o as int) == 0,
            best_count == 0 ==> forall|j: int| 0 <= j < k ==> (#[trigger] offsets@[j]) is None,
            best_count > 0 ==> votes(prev, cur, best_offset as int) == best_count,
            forall|j: int|
                0 <= j < k && (#[trigger] offsets@[j]) is Some ==> {
                    ||| offsets@[j]->0 == best_offset
                    ||| outvotes(prev, cur, best_offset as int, offsets@[j]->0 as int)
                },
        decreases cur.len() - k,
    {
        match offsets[k] {
            Some(offset) => {
                proof {
                    lemma_vote_is_counted(prev, cur, offset as int, cur.len() as int, k as int);
                }
                let count: usize = match tally.get(&offset) {
                    Some(n) => *n,
                    None => 0,
                };
                if count > best_count || (count == best_count && offset < best_offset) {
                    best_offset = offset;
                    best_count = count;
                }
            },
            None => {},
        }
        k += 1;
    }

    proof {
        if best_count == 0 {
            assert forall|j: int| 0 <= j < cur.len() implies #[trigger] row_vote(
                prev,
                cur,
                j,
            ) is None by {
                assert(offsets@[j] is None);
            }
            lemma_no_voters_no_shift(prev, cur);
        } else {
            let b = best_offset as int;
            assert forall|o: int| o != b implies #[trigger] outvotes(prev, cur, b, o) by {
                if votes(prev, cur, o) > 0 {
                    lemma_voter_exists(prev, cur, o, cur.len() as int);
                    let j = choose|j: int| 0 <= j < cur.len() && row_vote(prev, cur, j) == Some(o);
                    assert(offsets@[j] is Some);
                }
            }
            assert(leads(prev, cur, b));
            lemma_shift_from_leader(prev, cur, b);
        }
    }
    if best_count >= SCROLL_MATCH_ROWS && best_offset != 0 {
        best_offset
    } else {
        0
    }
}

} // verus!
