//! The hand evaluator: rank-by-rank scans that realize the model of
//! [`crate::model`] in executable form.

use crate::hand::Order;
use crate::hand::CARD_BITS;
use crate::model::cnt;
use crate::model::spec_eval;
use crate::model::flush_exists;
use crate::model::flush_rank1;
use crate::model::flush_rank2;
use crate::model::flush_suit;
use crate::model::has_at;
use crate::model::is_flush_winner;
use crate::model::lemma_flush_winner_unique;
use crate::model::lemma_rank_mask_bound;
use crate::model::lemma_slots_step;
use crate::model::lemma_top_in_congr;
use crate::model::p_suited;
use crate::model::p_suited_except;
use crate::model::pair1_rank;
use crate::model::pair1_to;
use crate::model::pair2_rank;
use crate::model::pair2_to;
use crate::model::quad_rank;
use crate::model::quad_to;
use crate::model::rank_mask;
use crate::model::rank_mask_to;
use crate::model::suit_count;
use crate::model::suit_count_to;
use crate::model::trips_rank;
use crate::model::trips_to;
use crate::model::lemma_run_le;
use crate::model::lemma_run_le_suit;
use crate::model::lemma_run_window_suit;
use crate::model::lemma_sf_union;
use crate::model::lemma_wheel_window_suit;
use crate::model::p_sf_suit;
use crate::model::run_up_suit;
use crate::model::sf_at_suit;
use crate::model::sf_rank;
use crate::model::kicker;
use crate::model::lemma_run_window;
use crate::model::lemma_top_in_is;
use crate::model::lemma_top_in_lower;
use crate::model::lemma_top_in_props;
use crate::model::lemma_wheel_window;
use crate::model::occupied;
use crate::model::p_kick;
use crate::model::p_straight;
use crate::model::run_up;
use crate::model::straight_at;
use crate::model::straight_rank;
use crate::model::top_in;
use vstd::prelude::*;

verus! {

proof fn lemma_bit01(m: u64, j: u64)
    by (bit_vector)
    ensures
        (m >> j) & 1 == 0 || (m >> j) & 1 == 1,
{
}

/// How many suits of rank `r` the word holds: the population of the
/// rank's 4-bit group.
pub(crate) fn rank_nibble_count(m: u64, r: u64) -> (n: u64)
    requires
        1 <= r <= 13,
    ensures
        n as int == cnt(m, r as int),
        n <= 4,
        (n > 0) == occupied(m, r as int),
{
    let j: u64 = (r - 1) * 4;
    let b0 = (m >> j) & 1;
    let b1 = (m >> (j + 1)) & 1;
    let b2 = (m >> (j + 2)) & 1;
    let b3 = (m >> (j + 3)) & 1;
    proof {
        lemma_bit01(m, j);
        lemma_bit01(m, (j + 1) as u64);
        lemma_bit01(m, (j + 2) as u64);
        lemma_bit01(m, (j + 3) as u64);
        assert(((r as int - 1) * 4 + 0) as u64 == j);
        assert(((r as int - 1) * 4 + 1) as u64 == j + 1);
        assert(((r as int - 1) * 4 + 2) as u64 == j + 2);
        assert(((r as int - 1) * 4 + 3) as u64 == j + 3);
    }
    b0 + b1 + b2 + b3
}

/// The best occupied rank other than `excl`, 0 when there is none.
pub(crate) fn find_rank2(m: u64, excl: u64) -> (k: u64)
    ensures
        k as int == kicker(m, excl as int),
        k <= 13,
{
    let ghost p = p_kick(m, excl as int);
    let mut r: u64 = 13;
    while r >= 1
        invariant
            r <= 13,
            top_in(p, 13, r as int + 1) == 0,
            p == p_kick(m, excl as int),
        decreases r,
    {
        let n = rank_nibble_count(m, r);
        if n > 0 && r != excl {
            proof {
                lemma_top_in_props(p, 13, r as int + 1);
                assert(p(r as int) == (occupied(m, r as int) && r as int != excl as int));
                assert forall|x: int| (r as int) < x <= 13 implies !(#[trigger] p(x)) by {}
                lemma_top_in_is(p, 13, 1, r as int);
            }
            return r;
        }
        proof {
            lemma_top_in_lower(p, 13, r as int);
            assert(p(r as int) == (occupied(m, r as int) && r as int != excl as int));
        }
        r -= 1;
    }
    proof {
        assert(top_in(p, 13, 1) == 0);
    }
    0
}

/// Top rank of the best straight in the word, 0 when there is none.
///
/// One descending pass over the thirteen ranks keeps a counter of
/// consecutive occupied ranks and records the first run of five, which
/// is the highest; a final look back at the ace closes the wheel.
pub(crate) fn straight_top(m: u64) -> (t: u64)
    ensures
        t as int == straight_rank(m),
        t == 0 || 4 <= t <= 13,
{
    let ghost p = p_straight(m);
    let mut c: u64 = 0;
    let mut best: u64 = 0;
    let mut r: u64 = 13;
    while r >= 1
        invariant
            r <= 13,
            c as int == run_up(m, r as int + 1),
            c as int <= 13 - r as int,
            best as int == top_in(p, 13, r as int + 5),
            c >= 5 ==> best != 0,
            best == 0 || 5 <= best <= 13,
            p == p_straight(m),
        decreases r,
    {
        let n = rank_nibble_count(m, r);
        if n > 0 {
            proof {
                assert(run_up(m, r as int) == 1 + run_up(m, r as int + 1));
                lemma_run_le(m, r as int);
            }
            c += 1;
            if c == 5 && best == 0 {
                proof {
                    lemma_run_window(m, r as int);
                    assert(p(r as int + 4) == straight_at(m, r as int + 4));
                    lemma_top_in_props(p, 13, r as int + 5);
                    assert forall|x: int| (r as int + 4) < x <= 13 implies !(#[trigger] p(x)) by {}
                    lemma_top_in_is(p, 13, 1, r as int + 4);
                    lemma_top_in_is(p, 13, r as int + 4, r as int + 4);
                }
                best = r + 4;
            } else {
                proof {
                    if r as int + 4 <= 13 {
                        lemma_top_in_lower(p, 13, r as int + 4);
                        lemma_run_window(m, r as int);
                        assert(p(r as int + 4) == straight_at(m, r as int + 4));
                    } else {
                        assert(top_in(p, 13, r as int + 4) == 0);
                        assert(top_in(p, 13, r as int + 5) == 0);
                    }
                }
            }
        } else {
            proof {
                assert(run_up(m, r as int) == 0);
                if r as int + 4 <= 13 {
                    lemma_top_in_lower(p, 13, r as int + 4);
                    lemma_run_window(m, r as int);
                    assert(p(r as int + 4) == straight_at(m, r as int + 4));
                } else {
                    assert(top_in(p, 13, r as int + 4) == 0);
                    assert(top_in(p, 13, r as int + 5) == 0);
                }
            }
            c = 0;
        }
        r -= 1;
    }
    // The wheel: an ace closes a run over ranks one through four.
    let ace = rank_nibble_count(m, 13);
    proof {
        lemma_wheel_window(m);
        assert(p(4int) == straight_at(m, 4));
        assert(p(3int) == straight_at(m, 3));
        assert(p(2int) == straight_at(m, 2));
        assert(p(1int) == straight_at(m, 1));
    }
    if ace > 0 && c == 4 && best == 0 {
        proof {
            lemma_top_in_props(p, 13, 5);
            assert forall|x: int| 4 < x <= 13 implies !(#[trigger] p(x)) by {}
            lemma_top_in_is(p, 13, 1, 4);
        }
        return 4;
    }
    proof {
        if best != 0 {
            lemma_top_in_lower(p, 13, 4);
            lemma_top_in_lower(p, 13, 3);
            lemma_top_in_lower(p, 13, 2);
            lemma_top_in_lower(p, 13, 1);
        } else {
            assert(!straight_at(m, 4));
            lemma_top_in_lower(p, 13, 4);
            lemma_top_in_lower(p, 13, 3);
            lemma_top_in_lower(p, 13, 2);
            lemma_top_in_lower(p, 13, 1);
        }
    }
    best
}

/// Whether the card of rank `r` and suit `s` is in the word.
fn has_card(m: u64, r: u64, s: u64) -> (b: bool)
    requires
        1 <= r <= 13,
        s < 4,
    ensures
        b == has_at(m, r as int, s as int),
{
    let j: u64 = (r - 1) * 4 + s;
    proof {
        assert(((r as int - 1) * 4 + s as int) as u64 == j);
    }
    (m >> j) & 1 == 1
}

/// Top rank of the best straight flush within suit `s`, 0 when there
/// is none.  Same descending scan as [`straight_top`], confined to one
/// suit.
fn sf_suit_top(m: u64, s: u64) -> (t: u64)
    requires
        s < 4,
    ensures
        t as int == top_in(p_sf_suit(m, s as int), 13, 1),
        t == 0 || 4 <= t <= 13,
{
    let ghost p = p_sf_suit(m, s as int);
    let mut c: u64 = 0;
    let mut best: u64 = 0;
    let mut r: u64 = 13;
    while r >= 1
        invariant
            r <= 13,
            s < 4,
            c as int == run_up_suit(m, s as int, r as int + 1),
            c as int <= 13 - r as int,
            best as int == top_in(p, 13, r as int + 5),
            c >= 5 ==> best != 0,
            best == 0 || 5 <= best <= 13,
            p == p_sf_suit(m, s as int),
        decreases r,
    {
        if has_card(m, r, s) {
            proof {
                assert(run_up_suit(m, s as int, r as int) == 1 + run_up_suit(
                    m,
                    s as int,
                    r as int + 1,
                ));
                lemma_run_le_suit(m, s as int, r as int);
            }
            c += 1;
            if c == 5 && best == 0 {
                proof {
                    lemma_run_window_suit(m, s as int, r as int);
                    assert(p(r as int + 4) == sf_at_suit(m, r as int + 4, s as int));
                    lemma_top_in_props(p, 13, r as int + 5);
                    assert forall|x: int| (r as int + 4) < x <= 13 implies !(#[trigger] p(x)) by {}
                    lemma_top_in_is(p, 13, 1, r as int + 4);
                    lemma_top_in_is(p, 13, r as int + 4, r as int + 4);
                }
                best = r + 4;
            } else {
                proof {
                    if r as int + 4 <= 13 {
                        lemma_top_in_lower(p, 13, r as int + 4);
                        lemma_run_window_suit(m, s as int, r as int);
                        assert(p(r as int + 4) == sf_at_suit(m, r as int + 4, s as int));
                    } else {
                        assert(top_in(p, 13, r as int + 4) == 0);
                        assert(top_in(p, 13, r as int + 5) == 0);
                    }
                }
            }
        } else {
            proof {
                assert(run_up_suit(m, s as int, r as int) == 0);
                if r as int + 4 <= 13 {
                    lemma_top_in_lower(p, 13, r as int + 4);
                    lemma_run_window_suit(m, s as int, r as int);
                    assert(p(r as int + 4) == sf_at_suit(m, r as int + 4, s as int));
                } else {
                    assert(top_in(p, 13, r as int + 4) == 0);
                    assert(top_in(p, 13, r as int + 5) == 0);
                }
            }
            c = 0;
        }
        r -= 1;
    }
    // The wheel within this suit.
    let ace = has_card(m, 13, s);
    proof {
        lemma_wheel_window_suit(m, s as int);
        assert(p(4int) == sf_at_suit(m, 4, s as int));
        assert(p(3int) == sf_at_suit(m, 3, s as int));
        assert(p(2int) == sf_at_suit(m, 2, s as int));
        assert(p(1int) == sf_at_suit(m, 1, s as int));
    }
    if ace && c == 4 && best == 0 {
        proof {
            lemma_top_in_props(p, 13, 5);
            assert forall|x: int| 4 < x <= 13 implies !(#[trigger] p(x)) by {}
            lemma_top_in_is(p, 13, 1, 4);
        }
        return 4;
    }
    proof {
        if best != 0 {
            lemma_top_in_lower(p, 13, 4);
            lemma_top_in_lower(p, 13, 3);
            lemma_top_in_lower(p, 13, 2);
            lemma_top_in_lower(p, 13, 1);
        } else {
            assert(!sf_at_suit(m, 4, s as int));
            lemma_top_in_lower(p, 13, 4);
            lemma_top_in_lower(p, 13, 3);
            lemma_top_in_lower(p, 13, 2);
            lemma_top_in_lower(p, 13, 1);
        }
    }
    best
}

/// Top rank of the best straight flush in any suit, 0 when there is
/// none.
pub(crate) fn sf_top(m: u64) -> (t: u64)
    ensures
        t as int == sf_rank(m),
        t == 0 || 4 <= t <= 13,
{
    let t0 = sf_suit_top(m, 0);
    let t1 = sf_suit_top(m, 1);
    let t2 = sf_suit_top(m, 2);
    let t3 = sf_suit_top(m, 3);
    let mut best = t0;
    if t1 > best {
        best = t1;
    }
    if t2 > best {
        best = t2;
    }
    if t3 > best {
        best = t3;
    }
    proof {
        lemma_sf_union(m, t0 as int, t1 as int, t2 as int, t3 as int, best as int);
    }
    best
}

/// The per-rank population slots: best quad rank, best trips rank,
/// and the two best pair ranks, filled in strict priority order.
pub(crate) struct RankCounts {
    pub(crate) quads: u64,
    pub(crate) trips: u64,
    pub(crate) pair1: u64,
    pub(crate) pair2: u64,
}

/// Scans ranks high to low and classifies each rank's suit population
/// into the four slots.  A rank whose tier slot is taken demotes to
/// the next slot down, so a second quad serves as trips and a second
/// trips as the boat's pair.
pub(crate) fn rank_counts(m: u64) -> (rc: RankCounts)
    ensures
        rc.quads as int == quad_rank(m),
        rc.trips as int == trips_rank(m),
        rc.pair1 as int == pair1_rank(m),
        rc.pair2 as int == pair2_rank(m),
        rc.quads <= 13 && rc.trips <= 13 && rc.pair1 <= 13 && rc.pair2 <= 13,
{
    let mut quads: u64 = 0;
    let mut trips: u64 = 0;
    let mut pair1: u64 = 0;
    let mut pair2: u64 = 0;
    let mut r: u64 = 13;
    while r >= 1
        invariant
            r <= 13,
            quads as int == quad_to(m, r as int + 1),
            trips as int == trips_to(m, r as int + 1),
            pair1 as int == pair1_to(m, r as int + 1),
            pair2 as int == pair2_to(m, r as int + 1),
            quads <= 13 && trips <= 13 && pair1 <= 13 && pair2 <= 13,
            quads == 0 || quads > r,
            trips == 0 || trips > r,
            pair1 == 0 || pair1 > r,
            pair2 == 0 || pair2 > r,
        decreases r,
    {
        let n = rank_nibble_count(m, r);
        proof {
            lemma_slots_step(m, r as int);
        }
        if n == 4 {
            if quads == 0 {
                quads = r;
            } else if trips == 0 {
                trips = r;
            } else if pair1 == 0 {
                pair1 = r;
            } else if pair2 == 0 {
                pair2 = r;
            }
        } else if n == 3 {
            if trips == 0 {
                trips = r;
            } else if pair1 == 0 {
                pair1 = r;
            } else if pair2 == 0 {
                pair2 = r;
            }
        } else if n == 2 {
            if pair1 == 0 {
                pair1 = r;
            } else if pair2 == 0 {
                pair2 = r;
            }
        }
        proof {
            assert(quads as int == quad_to(m, r as int));
            assert(trips as int == trips_to(m, r as int));
            assert(pair1 as int == pair1_to(m, r as int));
            assert(pair2 as int == pair2_to(m, r as int));
        }
        r -= 1;
    }
    RankCounts { quads, trips, pair1, pair2 }
}

/// Card count and rank mask of suit `s`.
fn suit_stats(m: u64, s: u64) -> (res: (u64, u64))
    requires
        s < 4,
    ensures
        res.0 as int == suit_count(m, s as int),
        res.1 as int == rank_mask(m, s as int),
        res.0 <= 13,
{
    let mut count: u64 = 0;
    let mut mask: u64 = 0;
    let mut bitval: u64 = 1;
    let mut r: u64 = 1;
    proof {
        vstd::arithmetic::power2::lemma2_to64();
    }
    while r <= 13
        invariant
            1 <= r <= 14,
            s < 4,
            count as int == suit_count_to(m, s as int, r as int - 1),
            count as int <= r as int - 1,
            mask as int == rank_mask_to(m, s as int, r as int - 1),
            r <= 13 ==> bitval as int == vstd::arithmetic::power2::pow2((r - 1) as nat),
            bitval <= 8192,
        decreases 14 - r,
    {
        proof {
            lemma_rank_mask_bound(m, s as int, r as int - 1);
            vstd::arithmetic::power2::lemma2_to64();
            if r as int - 1 < 13 {
                vstd::arithmetic::power2::lemma_pow2_strictly_increases((r - 1) as nat, 13);
            }
            if (r as int) < 13 {
                vstd::arithmetic::power2::lemma_pow2_strictly_increases(r as nat, 13);
            }
            vstd::arithmetic::power2::lemma_pow2_unfold(r as nat);
        }
        if has_card(m, r, s) {
            count += 1;
            mask += bitval;
        }
        if r < 13 {
            bitval *= 2;
        }
        r += 1;
    }
    (count, mask)
}

/// The best occupied rank of suit `s` other than `excl`, 0 when there
/// is none.
fn suited_top_except(m: u64, s: u64, excl: u64) -> (k: u64)
    requires
        s < 4,
    ensures
        k as int == top_in(p_suited_except(m, s as int, excl as int), 13, 1),
        k <= 13,
{
    let ghost p = p_suited_except(m, s as int, excl as int);
    let mut r: u64 = 13;
    while r >= 1
        invariant
            r <= 13,
            s < 4,
            top_in(p, 13, r as int + 1) == 0,
            p == p_suited_except(m, s as int, excl as int),
        decreases r,
    {
        if has_card(m, r, s) && r != excl {
            proof {
                lemma_top_in_props(p, 13, r as int + 1);
                assert(p(r as int) == (has_at(m, r as int, s as int) && r as int != excl as int));
                assert forall|x: int| (r as int) < x <= 13 implies !(#[trigger] p(x)) by {}
                lemma_top_in_is(p, 13, 1, r as int);
            }
            return r;
        }
        proof {
            lemma_top_in_lower(p, 13, r as int);
            assert(p(r as int) == (has_at(m, r as int, s as int) && r as int != excl as int));
        }
        r -= 1;
    }
    proof {
        assert(top_in(p, 13, 1) == 0);
    }
    0
}

/// Scans the four suits for a flush.  Returns the top two ranks of
/// the winning suit — the qualifying suit whose rank set, read as a
/// binary number, is greatest — or nothing when no suit has five
/// cards.
pub(crate) fn flush_scan(m: u64) -> (res: Option<(u64, u64)>)
    ensures
        (res is Some) == flush_exists(m),
        res matches Some(pr) ==> pr.0 as int == flush_rank1(m) && pr.1 as int == flush_rank2(m)
            && pr.0 <= 13 && pr.1 <= 13,
{
    let (c0, k0) = suit_stats(m, 0);
    let (c1, k1) = suit_stats(m, 1);
    let (c2, k2) = suit_stats(m, 2);
    let (c3, k3) = suit_stats(m, 3);
    let mut sel: u64 = 4;
    let mut kbest: u64 = 0;
    if c0 >= 5 {
        sel = 0;
        kbest = k0;
    }
    if c1 >= 5 && (sel == 4 || k1 > kbest) {
        sel = 1;
        kbest = k1;
    }
    if c2 >= 5 && (sel == 4 || k2 > kbest) {
        sel = 2;
        kbest = k2;
    }
    if c3 >= 5 && (sel == 4 || k3 > kbest) {
        sel = 3;
        kbest = k3;
    }
    if sel == 4 {
        proof {
            if flush_exists(m) {
                let s = choose|s: int| 0 <= s < 4 && suit_count(m, s) >= 5;
                assert(s == 0 || s == 1 || s == 2 || s == 3);
            }
        }
        return None;
    }
    proof {
        assert forall|s2: int|
            0 <= s2 < 4 && #[trigger] suit_count(m, s2) >= 5 implies rank_mask(m, s2)
            <= rank_mask(m, sel as int) by {
            assert(s2 == 0 || s2 == 1 || s2 == 2 || s2 == 3);
        }
        assert forall|s2: int|
            0 <= s2 < sel as int && #[trigger] suit_count(m, s2) >= 5 implies rank_mask(m, s2)
            < rank_mask(m, sel as int) by {
            assert(s2 == 0 || s2 == 1 || s2 == 2);
        }
        assert(is_flush_winner(m, sel as int));
        assert(flush_exists(m));
        assert(is_flush_winner(m, flush_suit(m)));
        lemma_flush_winner_unique(m, flush_suit(m), sel as int);
    }
    let r1 = suited_top_except(m, sel, 0);
    proof {
        assert forall|x: int|
            1 <= x <= 13 implies #[trigger] p_suited_except(m, sel as int, 0)(x) == #[trigger] p_suited(
            m,
            sel as int,
        )(x) by {}
        lemma_top_in_congr(p_suited_except(m, sel as int, 0), p_suited(m, sel as int), 13, 1);
    }
    let r2 = suited_top_except(m, sel, r1);
    Some((r1, r2))
}

/// Classifies the word: the hand category and the two tie-break
/// ranks, resolved in strict descending priority — straight flush,
/// quads, boat, flush, straight, trips, two pair, pair, high card.
pub(crate) fn classify(m: u64) -> (t: (Order, u64, u64))
    ensures
        t.0 == spec_eval(m).0,
        t.1 as int == spec_eval(m).1,
        t.2 as int == spec_eval(m).2,
        t.1 < 16 && t.2 < 16,
{
    if m & CARD_BITS == 0 {
        return (Order::Nothing, 0, 0);
    }
    let sf = sf_top(m);
    if sf != 0 {
        return (Order::Stfl, sf, sf - 1);
    }
    let counts = rank_counts(m);
    if counts.quads != 0 {
        return (Order::Quad, counts.quads, find_rank2(m, counts.quads));
    }
    if counts.trips != 0 && counts.pair1 != 0 {
        return (Order::Boat, counts.trips, counts.pair1);
    }
    if let Some((f1, f2)) = flush_scan(m) {
        return (Order::Flsh, f1, f2);
    }
    let st = straight_top(m);
    if st != 0 {
        return (Order::Strt, st, st - 1);
    }
    if counts.trips != 0 {
        return (Order::Trip, counts.trips, find_rank2(m, counts.trips));
    }
    if counts.pair1 != 0 {
        if counts.pair2 != 0 {
            return (Order::Twop, counts.pair1, counts.pair2);
        }
        return (Order::Pair, counts.pair1, find_rank2(m, counts.pair1));
    }
    let r1 = find_rank2(m, 0);
    (Order::High, r1, find_rank2(m, r1))
}

} // verus!
