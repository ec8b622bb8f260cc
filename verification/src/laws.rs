//! Classification laws: properties of the evaluation model that hold
//! of whole families of hands, proved once and for all.

use crate::hand::hand_wf;
use crate::hand::lemma_realized_fields;
use crate::hand::order_value;
use crate::hand::Order;
use crate::hand::CARD_BITS;
use crate::model::bit_set;
use crate::model::cnt;
use crate::model::flush_exists;
use crate::model::has_at;
use crate::model::kicker;
use crate::model::lemma_top_in_is;
use crate::model::lemma_top_in_props;
use crate::model::p_cnt4;
use crate::model::p_kick;
use crate::model::p_sf;
use crate::model::p_sf_suit;
use crate::model::p_straight;
use crate::model::p_suited;
use crate::model::p_suited_except;
use crate::model::pair1_rank;
use crate::model::quad_rank;
use crate::model::sf_at;
use crate::model::sf_at_suit;
use crate::model::sf_rank;
use crate::model::spec_eval;
use crate::model::spec_realized;
use crate::model::straight_rank;
use crate::model::suit_count;
use crate::model::suit_count_to;
use crate::model::top_in;
use crate::model::trips_rank;
use vstd::prelude::*;

verus! {

/// Evaluating the empty hand yields the nothing category with both
/// tie-break ranks zero, and so does any word without card bits.
pub proof fn lemma_empty_hand(m: u64)
    requires
        m & CARD_BITS == 0,
    ensures
        spec_eval(m) == (Order::Nothing, 0int, 0int),
{
}

proof fn lemma_low_bit_nonzero(m: u64, j: u64)
    by (bit_vector)
    requires
        j < 52,
        (m >> j) & 1 == 1,
    ensures
        m & 0x000fffffffffffff != 0,
{
}

proof fn lemma_bit_or(a: u64, b: u64, j: u64)
    by (bit_vector)
    requires
        j < 64,
    ensures
        (((a | b) >> j) & 1 == 1) == (((a >> j) & 1 == 1) || ((b >> j) & 1 == 1)),
{
}

proof fn lemma_bit_single(i: u64, j: u64)
    by (bit_vector)
    requires
        i < 64,
        j < 64,
    ensures
        (((1u64 << i) >> j) & 1 == 1) == (i == j),
{
}

proof fn lemma_index_injective(r1: int, s1: int, r2: int, s2: int)
    by (nonlinear_arith)
    requires
        1 <= r1 <= 13,
        0 <= s1 < 4,
        1 <= r2 <= 13,
        0 <= s2 < 4,
        (r1 - 1) * 4 + s1 == (r2 - 1) * 4 + s2,
    ensures
        r1 == r2 && s1 == s2,
{
}

/// The single-bit word of one card.
pub open spec fn rbit(r: int, s: int) -> u64 {
    1u64 << (((r - 1) * 4 + s) as u64)
}

/// Whether rank `r` belongs to the five-card run topped by `t`
/// (`t == 4` is the wheel: ace plus deuce through five).
pub open spec fn in_run(t: int, r: int) -> bool {
    if t == 4 {
        r == 13 || 1 <= r <= 4
    } else {
        t - 4 <= r <= t
    }
}

/// The bitmap of the hand holding exactly the five consecutive cards
/// of suit `s` topped by rank `t`.
pub open spec fn five_run_mask(t: int, s: int) -> u64 {
    if t == 4 {
        rbit(13, s) | rbit(1, s) | rbit(2, s) | rbit(3, s) | rbit(4, s)
    } else {
        rbit(t, s) | rbit(t - 1, s) | rbit(t - 2, s) | rbit(t - 3, s) | rbit(t - 4, s)
    }
}

proof fn lemma_five_run_has(t: int, s: int, r2: int, s2: int)
    requires
        4 <= t <= 13,
        0 <= s < 4,
        1 <= r2 <= 13,
        0 <= s2 < 4,
    ensures
        has_at(five_run_mask(t, s), r2, s2) == (s2 == s && in_run(t, r2)),
{
    let j: u64 = (((r2 - 1) * 4 + s2) as u64);
    let ghost ranks: Seq<int> = if t == 4 {
        seq![13int, 1int, 2int, 3int, 4int]
    } else {
        seq![t, t - 1, t - 2, t - 3, t - 4]
    };
    let b0 = rbit(ranks[0], s);
    let b1 = rbit(ranks[1], s);
    let b2 = rbit(ranks[2], s);
    let b3 = rbit(ranks[3], s);
    let b4 = rbit(ranks[4], s);
    assert(five_run_mask(t, s) == b0 | b1 | b2 | b3 | b4);
    lemma_bit_or(b0 | b1 | b2 | b3, b4, j);
    lemma_bit_or(b0 | b1 | b2, b3, j);
    lemma_bit_or(b0 | b1, b2, j);
    lemma_bit_or(b0, b1, j);
    assert forall|k: int| 0 <= k < 5 implies (bit_set(#[trigger] rbit(ranks[k], s), j) == (ranks[k]
        == r2 && s == s2)) by {
        lemma_bit_single((((ranks[k] - 1) * 4 + s) as u64), j);
        if (ranks[k] - 1) * 4 + s == (r2 - 1) * 4 + s2 {
            lemma_index_injective(ranks[k], s, r2, s2);
        }
    }
    assert(bit_set(b0, j) == (ranks[0] == r2 && s == s2));
    assert(bit_set(b1, j) == (ranks[1] == r2 && s == s2));
    assert(bit_set(b2, j) == (ranks[2] == r2 && s == s2));
    assert(bit_set(b3, j) == (ranks[3] == r2 && s == s2));
    assert(bit_set(b4, j) == (ranks[4] == r2 && s == s2));
    assert(in_run(t, r2) == (ranks[0] == r2 || ranks[1] == r2 || ranks[2] == r2 || ranks[3] == r2
        || ranks[4] == r2));
}

/// Five cards of one suit with consecutive ranks evaluate to a
/// straight flush whose primary rank is the run's top card and whose
/// secondary rank is one less.  `t == 4` covers the wheel.
pub proof fn lemma_straight_flush_hand(t: int, s: int)
    requires
        4 <= t <= 13,
        0 <= s < 4,
    ensures
        spec_eval(five_run_mask(t, s)).0 == Order::Stfl,
        spec_eval(five_run_mask(t, s)).1 == t,
        spec_eval(five_run_mask(t, s)).2 == t - 1,
{
    let m = five_run_mask(t, s);
    assert forall|r2: int, s2: int| 1 <= r2 <= 13 && 0 <= s2 < 4 implies #[trigger] has_at(
        m,
        r2,
        s2,
    ) == (s2 == s && in_run(t, r2)) by {
        lemma_five_run_has(t, s, r2, s2);
    }
    // The word is not empty.
    assert(has_at(m, 13, s) || has_at(m, t, s));
    if t == 4 {
        lemma_low_bit_nonzero(m, ((13int - 1) * 4 + s) as u64);
    } else {
        lemma_low_bit_nonzero(m, ((t - 1) * 4 + s) as u64);
    }
    // The run is a straight flush topped by t ...
    assert(sf_at_suit(m, t, s));
    assert(sf_at(m, t));
    // ... and no higher straight flush exists.
    assert forall|x: int| t < x <= 13 implies !(#[trigger] p_sf(m)(x)) by {
        if sf_at(m, x) {
            let s3 = choose|s3: int| 0 <= s3 < 4 && sf_at_suit(m, x, s3);
            if x == 13 {
                assert(has_at(m, 9, s3));
                assert(in_run(t, 9) ==> t != 4 && t - 4 <= 9 <= t);
                assert(t < 13 && t >= 9 + 4);
            } else {
                assert(has_at(m, x, s3));
                assert(!in_run(t, x));
            }
        }
    }
    assert(p_sf(m)(t) == sf_at(m, t));
    lemma_top_in_is(p_sf(m), 13, 1, t);
}

/// Category priority: a hand holding four of a kind never classifies
/// as a boat (or anything below); only a straight flush outranks it.
pub proof fn lemma_quads_over_boat(m: u64, r: int)
    requires
        1 <= r <= 13,
        cnt(m, r) == 4,
    ensures
        spec_eval(m).0 == Order::Quad || spec_eval(m).0 == Order::Stfl,
        spec_eval(m).0 != Order::Boat,
{
    assert(has_at(m, r, 0));
    lemma_low_bit_nonzero(m, (((r - 1) * 4) as u64));
    lemma_top_in_props(p_cnt4(m), 13, 1);
    if quad_rank(m) == 0 {
        assert(!(p_cnt4(m)(r)));
    }
}

/// Category priority: a hand with a flush-eligible suit never
/// classifies below a flush, whatever straights it also holds.
pub proof fn lemma_flush_outranks_straight(m: u64)
    requires
        flush_exists(m),
        straight_rank(m) != 0,
    ensures
        order_value(spec_eval(m).0) >= order_value(Order::Flsh),
        spec_eval(m).0 != Order::Strt,
{
    let s = choose|s: int| 0 <= s < 4 && suit_count(m, s) >= 5;
    let r = lemma_suit_count_witness(m, s, 13);
    lemma_low_bit_nonzero(m, (((r - 1) * 4 + s) as u64));
}

/// A positive suit count names an occupied rank within it.
proof fn lemma_suit_count_witness(m: u64, s: int, r: int) -> (w: int)
    requires
        suit_count_to(m, s, r) > 0,
        r <= 13,
    ensures
        1 <= w <= 13,
        has_at(m, w, s),
    decreases r,
{
    if r >= 1 && has_at(m, r, s) {
        r
    } else {
        lemma_suit_count_witness(m, s, r - 1)
    }
}

/// Decoding the low 52 bits of a realized hand reproduces exactly the
/// well-formed hand it was evaluated from.
pub proof fn lemma_realized_round_trip(m: u64)
    requires
        hand_wf(m),
    ensures
        spec_realized(m) & CARD_BITS == m,
{
    lemma_eval_rank_bounds(m);
    let o = order_value(spec_eval(m).0);
    assert(o < 16);
    lemma_realized_fields(o, spec_eval(m).1 as u64, spec_eval(m).2 as u64, m);
    assert(m >> 52 == 0 ==> m & 0x000fffffffffffff == m) by (bit_vector);
}

/// Both tie-break ranks of any evaluation lie between 0 and 13.
pub proof fn lemma_eval_rank_bounds(m: u64)
    ensures
        0 <= spec_eval(m).1 <= 13,
        0 <= spec_eval(m).2 <= 13,
{
    lemma_top_in_props(p_sf(m), 13, 1);
    lemma_top_in_props(p_straight(m), 13, 1);
    lemma_top_in_props(p_cnt4(m), 13, 1);
    lemma_top_in_props(crate::model::p_trips(m, 1), 13, 1);
    lemma_top_in_props(crate::model::p_pair1(m, 1), 13, 1);
    lemma_top_in_props(crate::model::p_pair2(m, 1), 13, 1);
    lemma_top_in_props(p_kick(m, quad_rank(m)), 13, 1);
    lemma_top_in_props(p_kick(m, trips_rank(m)), 13, 1);
    lemma_top_in_props(p_kick(m, pair1_rank(m)), 13, 1);
    lemma_top_in_props(p_kick(m, 0), 13, 1);
    lemma_top_in_props(p_kick(m, kicker(m, 0)), 13, 1);
    lemma_top_in_props(p_suited(m, crate::model::flush_suit(m)), 13, 1);
    lemma_top_in_props(
        p_suited_except(m, crate::model::flush_suit(m), crate::model::flush_rank1(m)),
        13,
        1,
    );
}

} // verus!
