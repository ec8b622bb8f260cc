//! The mathematical model of hand classification.
//!
//! A hand is a 64-bit word whose low 52 bits hold one card each: rank
//! `r` (1 = deuce .. 13 = ace) and suit `s` (0..3) occupy bit
//! `(r - 1) * 4 + s`.  Every notion the evaluator's contracts speak of
//! — suit counts per rank, straights, flushes, the quad/trips/pair
//! slots and kickers — is defined here over that word.

use crate::hand::Order;
use vstd::arithmetic::power2::pow2;
use vstd::prelude::*;

verus! {

/// Bit `j` of `m` is set.
pub open spec fn bit_set(m: u64, j: u64) -> bool {
    (m >> j) & 1 == 1
}

/// The card of rank `r` (1..13) and suit `s` (0..3) is in the hand.
pub open spec fn has_at(m: u64, r: int, s: int) -> bool {
    bit_set(m, ((r - 1) * 4 + s) as u64)
}

/// How many suits of rank `r` the hand holds (0..4).
pub open spec fn cnt(m: u64, r: int) -> int {
    (if has_at(m, r, 0) {
        1int
    } else {
        0int
    }) + (if has_at(m, r, 1) {
        1int
    } else {
        0int
    }) + (if has_at(m, r, 2) {
        1int
    } else {
        0int
    }) + (if has_at(m, r, 3) {
        1int
    } else {
        0int
    })
}

/// At least one card of rank `r` is in the hand.
pub open spec fn occupied(m: u64, r: int) -> bool {
    cnt(m, r) > 0
}

/// The greatest `x` in `[lo, hi]` satisfying `p`, or 0 when none does.
/// Rank properties are always asked with `lo >= 1`, so 0 is free to
/// mean absence.
pub open spec fn top_in(p: spec_fn(int) -> bool, hi: int, lo: int) -> int
    decreases hi - lo + 1,
{
    if hi < lo {
        0
    } else if p(hi) {
        hi
    } else {
        top_in(p, hi - 1, lo)
    }
}

/// What a `top_in` value means: zero exactly when nothing in range
/// satisfies `p`; otherwise it is a satisfying value and nothing above
/// it in range satisfies `p`.
pub proof fn lemma_top_in_props(p: spec_fn(int) -> bool, hi: int, lo: int)
    requires
        lo >= 1,
    ensures
        top_in(p, hi, lo) == 0 ==> forall|x: int| lo <= x <= hi ==> !(#[trigger] p(x)),
        top_in(p, hi, lo) != 0 ==> lo <= top_in(p, hi, lo) <= hi && p(top_in(p, hi, lo)) && (
        forall|x: int| top_in(p, hi, lo) < x <= hi ==> !(#[trigger] p(x))),
    decreases hi - lo + 1,
{
    if hi < lo {
    } else if p(hi) {
    } else {
        lemma_top_in_props(p, hi - 1, lo);
    }
}

/// A witness that is satisfying and maximal pins `top_in` down.
pub proof fn lemma_top_in_is(p: spec_fn(int) -> bool, hi: int, lo: int, t: int)
    requires
        lo >= 1,
        lo <= t <= hi,
        p(t),
        forall|x: int| t < x <= hi ==> !(#[trigger] p(x)),
    ensures
        top_in(p, hi, lo) == t,
    decreases hi - t,
{
    if hi == t {
    } else {
        lemma_top_in_is(p, hi - 1, lo, t);
    }
}

/// Properties that agree on the range have the same `top_in`.
pub proof fn lemma_top_in_congr(p: spec_fn(int) -> bool, q: spec_fn(int) -> bool, hi: int, lo: int)
    requires
        forall|x: int| lo <= x <= hi ==> #[trigger] p(x) == #[trigger] q(x),
    ensures
        top_in(p, hi, lo) == top_in(q, hi, lo),
    decreases hi - lo + 1,
{
    if hi < lo {
    } else {
        lemma_top_in_congr(p, q, hi - 1, lo);
    }
}

/// Extending the range downward by one keeps the result unless the
/// range so far held nothing and the new low point satisfies `p`.
pub proof fn lemma_top_in_lower(p: spec_fn(int) -> bool, hi: int, lo: int)
    requires
        1 <= lo <= hi,
    ensures
        top_in(p, hi, lo) == (if top_in(p, hi, lo + 1) != 0 {
            top_in(p, hi, lo + 1)
        } else if p(lo) {
            lo
        } else {
            0
        }),
    decreases hi - lo + 1,
{
    if hi == lo {
        assert(top_in(p, hi, lo + 1) == 0);
        assert(top_in(p, hi - 1, lo) == 0);
    } else {
        lemma_top_in_lower(p, hi - 1, lo);
        if p(hi) {
            assert(top_in(p, hi, lo) == hi);
            assert(top_in(p, hi, lo + 1) == hi);
        } else {
            assert(top_in(p, hi, lo) == top_in(p, hi - 1, lo));
            assert(top_in(p, hi, lo + 1) == top_in(p, hi - 1, lo + 1));
        }
    }
}

/// How many consecutive ranks starting at `r` and counting upward are
/// occupied (a run never extends past the ace).
pub open spec fn run_up(m: u64, r: int) -> int
    decreases 14 - r,
{
    if r < 1 || r > 13 || !occupied(m, r) {
        0
    } else {
        1 + run_up(m, r + 1)
    }
}

/// Like [`run_up`], within the single suit `s`.
pub open spec fn run_up_suit(m: u64, s: int, r: int) -> int
    decreases 14 - r,
{
    if r < 1 || r > 13 || !has_at(m, r, s) {
        0
    } else {
        1 + run_up_suit(m, s, r + 1)
    }
}

/// The hand holds a straight whose top card has rank `t`.  `t == 4`
/// is the wheel: ace plus deuce through five.
pub open spec fn straight_at(m: u64, t: int) -> bool {
    if 5 <= t <= 13 {
        forall|r: int| t - 4 <= r <= t ==> #[trigger] occupied(m, r)
    } else if t == 4 {
        occupied(m, 13) && forall|r: int| 1 <= r <= 4 ==> #[trigger] occupied(m, r)
    } else {
        false
    }
}

/// The hand holds, within suit `s`, a straight flush topped by rank
/// `t` (`t == 4` is the wheel).
pub open spec fn sf_at_suit(m: u64, t: int, s: int) -> bool {
    if 5 <= t <= 13 {
        forall|r: int| t - 4 <= r <= t ==> #[trigger] has_at(m, r, s)
    } else if t == 4 {
        has_at(m, 13, s) && forall|r: int| 1 <= r <= 4 ==> #[trigger] has_at(m, r, s)
    } else {
        false
    }
}

/// Some suit holds a straight flush topped by rank `t`.
pub open spec fn sf_at(m: u64, t: int) -> bool {
    exists|s: int| 0 <= s < 4 && sf_at_suit(m, t, s)
}

pub open spec fn p_straight(m: u64) -> spec_fn(int) -> bool {
    |t: int| straight_at(m, t)
}

pub open spec fn p_sf_suit(m: u64, s: int) -> spec_fn(int) -> bool {
    |t: int| sf_at_suit(m, t, s)
}

pub open spec fn p_sf(m: u64) -> spec_fn(int) -> bool {
    |t: int| sf_at(m, t)
}

/// Top rank of the best straight, 0 when there is none.
pub open spec fn straight_rank(m: u64) -> int {
    top_in(p_straight(m), 13, 1)
}

/// Top rank of the best straight flush, 0 when there is none.
pub open spec fn sf_rank(m: u64) -> int {
    top_in(p_sf(m), 13, 1)
}

/// A run of five or more upward from `r` is exactly a straight topped
/// by `r + 4`.
pub proof fn lemma_run_window(m: u64, r: int)
    requires
        1 <= r <= 9,
    ensures
        run_up(m, r) >= 5 <==> straight_at(m, r + 4),
{
    if run_up(m, r) >= 5 {
        assert forall|x: int| r <= x <= r + 4 implies #[trigger] occupied(m, x) by {
            lemma_run_covers(m, r, x);
        }
    }
    if straight_at(m, r + 4) {
        lemma_run_nonneg(m, r + 5);
        assert(occupied(m, r + 4));
        assert(run_up(m, r + 4) >= 1);
        assert(run_up(m, r + 3) >= 2);
        assert(run_up(m, r + 2) >= 3);
        assert(run_up(m, r + 1) >= 4);
        assert(run_up(m, r) >= 5);
    }
}

/// A run from `r` cannot extend past the ace.
pub proof fn lemma_run_le(m: u64, r: int)
    requires
        1 <= r <= 14,
    ensures
        0 <= run_up(m, r) <= 14 - r,
    decreases 14 - r,
{
    if r < 1 || r > 13 || !occupied(m, r) {
    } else {
        lemma_run_le(m, r + 1);
    }
}

/// Suit-local version of [`lemma_run_le`].
pub proof fn lemma_run_le_suit(m: u64, s: int, r: int)
    requires
        1 <= r <= 14,
    ensures
        0 <= run_up_suit(m, s, r) <= 14 - r,
    decreases 14 - r,
{
    if r < 1 || r > 13 || !has_at(m, r, s) {
    } else {
        lemma_run_le_suit(m, s, r + 1);
    }
}

proof fn lemma_run_nonneg(m: u64, r: int)
    ensures
        run_up(m, r) >= 0,
    decreases 14 - r,
{
    if r < 1 || r > 13 || !occupied(m, r) {
    } else {
        lemma_run_nonneg(m, r + 1);
    }
}

proof fn lemma_run_nonneg_suit(m: u64, s: int, r: int)
    ensures
        run_up_suit(m, s, r) >= 0,
    decreases 14 - r,
{
    if r < 1 || r > 13 || !has_at(m, r, s) {
    } else {
        lemma_run_nonneg_suit(m, s, r + 1);
    }
}

/// Every rank within the run is occupied.
proof fn lemma_run_covers(m: u64, r: int, x: int)
    requires
        1 <= r,
        r <= x,
        run_up(m, r) > x - r,
    ensures
        occupied(m, x),
    decreases x - r,
{
    if x == r {
    } else {
        lemma_run_covers(m, r + 1, x);
    }
}

/// Suit-local version of [`lemma_run_window`].
pub proof fn lemma_run_window_suit(m: u64, s: int, r: int)
    requires
        1 <= r <= 9,
    ensures
        run_up_suit(m, s, r) >= 5 <==> sf_at_suit(m, r + 4, s),
{
    if run_up_suit(m, s, r) >= 5 {
        assert forall|x: int| r <= x <= r + 4 implies #[trigger] has_at(m, x, s) by {
            lemma_run_covers_suit(m, s, r, x);
        }
    }
    if sf_at_suit(m, r + 4, s) {
        lemma_run_nonneg_suit(m, s, r + 5);
        assert(has_at(m, r + 4, s));
        assert(run_up_suit(m, s, r + 4) >= 1);
        assert(run_up_suit(m, s, r + 3) >= 2);
        assert(run_up_suit(m, s, r + 2) >= 3);
        assert(run_up_suit(m, s, r + 1) >= 4);
        assert(run_up_suit(m, s, r) >= 5);
    }
}

proof fn lemma_run_covers_suit(m: u64, s: int, r: int, x: int)
    requires
        1 <= r,
        r <= x,
        run_up_suit(m, s, r) > x - r,
    ensures
        has_at(m, x, s),
    decreases x - r,
{
    if x == r {
    } else {
        lemma_run_covers_suit(m, s, r + 1, x);
    }
}

/// The wheel window: ranks one through four occupied plus an ace.
pub proof fn lemma_wheel_window(m: u64)
    ensures
        (run_up(m, 1) >= 4 && occupied(m, 13)) <==> straight_at(m, 4),
{
    if run_up(m, 1) >= 4 {
        assert forall|x: int| 1 <= x <= 4 implies #[trigger] occupied(m, x) by {
            lemma_run_covers(m, 1, x);
        }
    }
    if straight_at(m, 4) {
        lemma_run_nonneg(m, 5);
        assert(occupied(m, 4));
        assert(run_up(m, 4) >= 1);
        assert(run_up(m, 3) >= 2);
        assert(run_up(m, 2) >= 3);
        assert(run_up(m, 1) >= 4);
    }
}

/// Suit-local wheel window.
pub proof fn lemma_wheel_window_suit(m: u64, s: int)
    ensures
        (run_up_suit(m, s, 1) >= 4 && has_at(m, 13, s)) <==> sf_at_suit(m, 4, s),
{
    if run_up_suit(m, s, 1) >= 4 {
        assert forall|x: int| 1 <= x <= 4 implies #[trigger] has_at(m, x, s) by {
            lemma_run_covers_suit(m, s, 1, x);
        }
    }
    if sf_at_suit(m, 4, s) {
        lemma_run_nonneg_suit(m, s, 5);
        assert(has_at(m, 4, s));
        assert(run_up_suit(m, s, 4) >= 1);
        assert(run_up_suit(m, s, 3) >= 2);
        assert(run_up_suit(m, s, 2) >= 3);
        assert(run_up_suit(m, s, 1) >= 4);
    }
}

/// How many cards of suit `s` the hand holds among ranks 1 through `r`.
pub open spec fn suit_count_to(m: u64, s: int, r: int) -> int
    decreases r,
{
    if r < 1 {
        0
    } else {
        suit_count_to(m, s, r - 1) + if has_at(m, r, s) {
            1int
        } else {
            0int
        }
    }
}

/// How many cards of suit `s` the hand holds.
pub open spec fn suit_count(m: u64, s: int) -> int {
    suit_count_to(m, s, 13)
}

/// The rank set of suit `s` read as a binary number, bit `r - 1` for
/// rank `r`: the comparison key that picks the best flush suit.
pub open spec fn rank_mask_to(m: u64, s: int, r: int) -> int
    decreases r,
{
    if r < 1 {
        0
    } else {
        rank_mask_to(m, s, r - 1) + if has_at(m, r, s) {
            pow2((r - 1) as nat) as int
        } else {
            0int
        }
    }
}

pub open spec fn rank_mask(m: u64, s: int) -> int {
    rank_mask_to(m, s, 13)
}

/// The rank mask over ranks 1 through `r` fits below `2^r`.
pub proof fn lemma_rank_mask_bound(m: u64, s: int, r: int)
    requires
        0 <= r <= 13,
    ensures
        0 <= rank_mask_to(m, s, r) < pow2(r as nat),
    decreases r,
{
    vstd::arithmetic::power2::lemma_pow2_pos(r as nat);
    if r == 0 {
    } else {
        lemma_rank_mask_bound(m, s, r - 1);
        vstd::arithmetic::power2::lemma_pow2_unfold(r as nat);
    }
}

/// Some suit has at least five cards.
pub open spec fn flush_exists(m: u64) -> bool {
    exists|s: int| 0 <= s < 4 && suit_count(m, s) >= 5
}

/// Suit `s` wins the flush: it qualifies, no qualifying suit has a
/// greater rank mask, and it is the first suit with that mask.
pub open spec fn is_flush_winner(m: u64, s: int) -> bool {
    &&& 0 <= s < 4
    &&& suit_count(m, s) >= 5
    &&& forall|s2: int| 0 <= s2 < 4 && #[trigger] suit_count(m, s2) >= 5 ==> rank_mask(m, s2)
        <= rank_mask(m, s)
    &&& forall|s2: int| 0 <= s2 < s && #[trigger] suit_count(m, s2) >= 5 ==> rank_mask(m, s2)
        < rank_mask(m, s)
}

/// The winning flush suit (meaningful only when a flush exists).
pub open spec fn flush_suit(m: u64) -> int {
    choose|s: int| is_flush_winner(m, s)
}

pub open spec fn p_suited(m: u64, s: int) -> spec_fn(int) -> bool {
    |r: int| has_at(m, r, s)
}

pub open spec fn p_suited_except(m: u64, s: int, x: int) -> spec_fn(int) -> bool {
    |r: int| has_at(m, r, s) && r != x
}

/// Highest rank of the winning flush suit.
pub open spec fn flush_rank1(m: u64) -> int {
    top_in(p_suited(m, flush_suit(m)), 13, 1)
}

/// Second-highest rank of the winning flush suit.
pub open spec fn flush_rank2(m: u64) -> int {
    top_in(p_suited_except(m, flush_suit(m), flush_rank1(m)), 13, 1)
}

/// There is at most one flush winner, so `flush_suit` is canonical.
pub proof fn lemma_flush_winner_unique(m: u64, s1: int, s2: int)
    requires
        is_flush_winner(m, s1),
        is_flush_winner(m, s2),
    ensures
        s1 == s2,
{
    if s1 < s2 {
        assert(rank_mask(m, s1) < rank_mask(m, s2));
        assert(rank_mask(m, s2) <= rank_mask(m, s1));
    } else if s2 < s1 {
        assert(rank_mask(m, s2) < rank_mask(m, s1));
        assert(rank_mask(m, s1) <= rank_mask(m, s2));
    }
}

/// The best straight flush overall is the best of the four per-suit
/// bests.
pub proof fn lemma_sf_union(m: u64, t0: int, t1: int, t2: int, t3: int, mx: int)
    requires
        t0 == top_in(p_sf_suit(m, 0), 13, 1),
        t1 == top_in(p_sf_suit(m, 1), 13, 1),
        t2 == top_in(p_sf_suit(m, 2), 13, 1),
        t3 == top_in(p_sf_suit(m, 3), 13, 1),
        mx == t0 || mx == t1 || mx == t2 || mx == t3,
        t0 <= mx && t1 <= mx && t2 <= mx && t3 <= mx,
    ensures
        top_in(p_sf(m), 13, 1) == mx,
{
    lemma_top_in_props(p_sf_suit(m, 0), 13, 1);
    lemma_top_in_props(p_sf_suit(m, 1), 13, 1);
    lemma_top_in_props(p_sf_suit(m, 2), 13, 1);
    lemma_top_in_props(p_sf_suit(m, 3), 13, 1);
    assert forall|x: int, s: int| 0 <= s < 4 implies #[trigger] p_sf_suit(m, s)(x) == sf_at_suit(
        m,
        x,
        s,
    ) by {}
    if mx == 0 {
        assert forall|x: int| 1 <= x <= 13 implies !(#[trigger] p_sf(m)(x)) by {
            if sf_at(m, x) {
                let s = choose|s: int| 0 <= s < 4 && sf_at_suit(m, x, s);
                assert(s == 0 || s == 1 || s == 2 || s == 3);
                assert(p_sf_suit(m, s)(x));
            }
        }
        lemma_top_in_props(p_sf(m), 13, 1);
        if top_in(p_sf(m), 13, 1) != 0 {
            assert(p_sf(m)(top_in(p_sf(m), 13, 1)));
        }
    } else {
        if mx == t0 && t0 != 0 {
            assert(sf_at_suit(m, mx, 0));
        } else if mx == t1 && t1 != 0 {
            assert(sf_at_suit(m, mx, 1));
        } else if mx == t2 && t2 != 0 {
            assert(sf_at_suit(m, mx, 2));
        } else {
            assert(sf_at_suit(m, mx, 3));
        }
        assert(sf_at(m, mx));
        assert(p_sf(m)(mx) == sf_at(m, mx));
        assert forall|x: int| mx < x <= 13 implies !(#[trigger] p_sf(m)(x)) by {
            if sf_at(m, x) {
                let s = choose|s: int| 0 <= s < 4 && sf_at_suit(m, x, s);
                assert(s == 0 || s == 1 || s == 2 || s == 3);
                assert(p_sf_suit(m, s)(x));
            }
        }
        lemma_top_in_is(p_sf(m), 13, 1, mx);
    }
}

pub open spec fn p_cnt4(m: u64) -> spec_fn(int) -> bool {
    |r: int| cnt(m, r) == 4
}

/// The quad slot after scanning ranks 13 down to `lo`.
pub open spec fn quad_to(m: u64, lo: int) -> int {
    top_in(p_cnt4(m), 13, lo)
}

pub open spec fn p_trips(m: u64, lo: int) -> spec_fn(int) -> bool {
    |r: int| cnt(m, r) >= 3 && r != quad_to(m, lo)
}

/// The trips slot after scanning ranks 13 down to `lo`: the best rank
/// with at least three suits that the quad slot did not take.
pub open spec fn trips_to(m: u64, lo: int) -> int {
    top_in(p_trips(m, lo), 13, lo)
}

pub open spec fn p_pair1(m: u64, lo: int) -> spec_fn(int) -> bool {
    |r: int| cnt(m, r) >= 2 && r != quad_to(m, lo) && r != trips_to(m, lo)
}

/// The first pair slot: the best paired-or-better rank left over.
pub open spec fn pair1_to(m: u64, lo: int) -> int {
    top_in(p_pair1(m, lo), 13, lo)
}

pub open spec fn p_pair2(m: u64, lo: int) -> spec_fn(int) -> bool {
    |r: int| cnt(m, r) >= 2 && r != quad_to(m, lo) && r != trips_to(m, lo) && r != pair1_to(m, lo)
}

/// The second pair slot.
pub open spec fn pair2_to(m: u64, lo: int) -> int {
    top_in(p_pair2(m, lo), 13, lo)
}

/// Best rank with four suits, 0 when none.
pub open spec fn quad_rank(m: u64) -> int {
    quad_to(m, 1)
}

/// Best rank with three or more suits not claimed by the quad slot.
pub open spec fn trips_rank(m: u64) -> int {
    trips_to(m, 1)
}

/// Best paired rank not claimed by the quad or trips slots.
pub open spec fn pair1_rank(m: u64) -> int {
    pair1_to(m, 1)
}

/// Second-best such paired rank.
pub open spec fn pair2_rank(m: u64) -> int {
    pair2_to(m, 1)
}

pub open spec fn p_kick(m: u64, x: int) -> spec_fn(int) -> bool {
    |r: int| occupied(m, r) && r != x
}

/// Best occupied rank other than `x`, 0 when none: the kicker.
pub open spec fn kicker(m: u64, x: int) -> int {
    top_in(p_kick(m, x), 13, 1)
}


/// One scan step for the four counter slots: moving the scan one rank
/// lower fills each empty slot with the new rank exactly when the
/// rank's suit count reaches the slot's tier and no higher-priority
/// slot took the rank.
pub proof fn lemma_slots_step(m: u64, r: int)
    requires
        1 <= r <= 13,
    ensures
        quad_to(m, r) == (if quad_to(m, r + 1) != 0 {
            quad_to(m, r + 1)
        } else if cnt(m, r) == 4 {
            r
        } else {
            0
        }),
        trips_to(m, r) == (if trips_to(m, r + 1) != 0 {
            trips_to(m, r + 1)
        } else if cnt(m, r) >= 3 && r != quad_to(m, r) {
            r
        } else {
            0
        }),
        pair1_to(m, r) == (if pair1_to(m, r + 1) != 0 {
            pair1_to(m, r + 1)
        } else if cnt(m, r) >= 2 && r != quad_to(m, r) && r != trips_to(m, r) {
            r
        } else {
            0
        }),
        pair2_to(m, r) == (if pair2_to(m, r + 1) != 0 {
            pair2_to(m, r + 1)
        } else if cnt(m, r) >= 2 && r != quad_to(m, r) && r != trips_to(m, r) && r != pair1_to(
            m,
            r,
        ) {
            r
        } else {
            0
        }),
{
    lemma_top_in_props(p_cnt4(m), 13, r + 1);
    lemma_top_in_props(p_trips(m, r + 1), 13, r + 1);
    lemma_top_in_props(p_pair1(m, r + 1), 13, r + 1);
    lemma_top_in_props(p_pair2(m, r + 1), 13, r + 1);

    lemma_top_in_lower(p_cnt4(m), 13, r);
    assert(p_cnt4(m)(r) == (cnt(m, r) == 4));

    assert forall|x: int|
        r + 1 <= x <= 13 implies #[trigger] p_trips(m, r)(x) == #[trigger] p_trips(m, r + 1)(
        x,
    ) by {
        assert(p_trips(m, r)(x) == (cnt(m, x) >= 3 && x != quad_to(m, r)));
        assert(p_trips(m, r + 1)(x) == (cnt(m, x) >= 3 && x != quad_to(m, r + 1)));
    }
    lemma_top_in_congr(p_trips(m, r), p_trips(m, r + 1), 13, r + 1);
    lemma_top_in_lower(p_trips(m, r), 13, r);
    assert(p_trips(m, r)(r) == (cnt(m, r) >= 3 && r != quad_to(m, r)));

    assert forall|x: int|
        r + 1 <= x <= 13 implies #[trigger] p_pair1(m, r)(x) == #[trigger] p_pair1(m, r + 1)(
        x,
    ) by {
        assert(p_pair1(m, r)(x) == (cnt(m, x) >= 2 && x != quad_to(m, r) && x != trips_to(m, r)));
        assert(p_pair1(m, r + 1)(x) == (cnt(m, x) >= 2 && x != quad_to(m, r + 1) && x != trips_to(
            m,
            r + 1,
        )));
    }
    lemma_top_in_congr(p_pair1(m, r), p_pair1(m, r + 1), 13, r + 1);
    lemma_top_in_lower(p_pair1(m, r), 13, r);
    assert(p_pair1(m, r)(r) == (cnt(m, r) >= 2 && r != quad_to(m, r) && r != trips_to(m, r)));

    assert forall|x: int|
        r + 1 <= x <= 13 implies #[trigger] p_pair2(m, r)(x) == #[trigger] p_pair2(m, r + 1)(
        x,
    ) by {
        assert(p_pair2(m, r)(x) == (cnt(m, x) >= 2 && x != quad_to(m, r) && x != trips_to(m, r)
            && x != pair1_to(m, r)));
        assert(p_pair2(m, r + 1)(x) == (cnt(m, x) >= 2 && x != quad_to(m, r + 1) && x != trips_to(
            m,
            r + 1,
        ) && x != pair1_to(m, r + 1)));
    }
    lemma_top_in_congr(p_pair2(m, r), p_pair2(m, r + 1), 13, r + 1);
    lemma_top_in_lower(p_pair2(m, r), 13, r);
    assert(p_pair2(m, r)(r) == (cnt(m, r) >= 2 && r != quad_to(m, r) && r != trips_to(m, r) && r
        != pair1_to(m, r)));
}

/// The whole classification: category and the two tie-break ranks,
/// resolved in strict descending priority.
pub open spec fn spec_eval(m: u64) -> (Order, int, int) {
    if m & crate::hand::CARD_BITS == 0 {
        (Order::Nothing, 0int, 0int)
    } else if sf_rank(m) != 0 {
        (Order::Stfl, sf_rank(m), sf_rank(m) - 1)
    } else if quad_rank(m) != 0 {
        (Order::Quad, quad_rank(m), kicker(m, quad_rank(m)))
    } else if trips_rank(m) != 0 && pair1_rank(m) != 0 {
        (Order::Boat, trips_rank(m), pair1_rank(m))
    } else if flush_exists(m) {
        (Order::Flsh, flush_rank1(m), flush_rank2(m))
    } else if straight_rank(m) != 0 {
        (Order::Strt, straight_rank(m), straight_rank(m) - 1)
    } else if trips_rank(m) != 0 {
        (Order::Trip, trips_rank(m), kicker(m, trips_rank(m)))
    } else if pair1_rank(m) != 0 && pair2_rank(m) != 0 {
        (Order::Twop, pair1_rank(m), pair2_rank(m))
    } else if pair1_rank(m) != 0 {
        (Order::Pair, pair1_rank(m), kicker(m, pair1_rank(m)))
    } else {
        (Order::High, kicker(m, 0), kicker(m, kicker(m, 0)))
    }
}

/// The packed word that evaluation of `m` must produce.
pub open spec fn spec_realized(m: u64) -> u64 {
    crate::hand::pack_realized(
        crate::hand::order_value(spec_eval(m).0),
        spec_eval(m).1 as u64,
        spec_eval(m).2 as u64,
        m,
    )
}

} // verus!
