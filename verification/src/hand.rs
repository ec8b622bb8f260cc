//! Hand representations: the mutable card accumulator, the packed
//! classification result, and the hand-category ordering.

use crate::card::card_bit;
use crate::card::card_text;
use crate::card::Card;
use vstd::prelude::*;
use vstd::string::*;

verus! {

/// The low 52 bits of a hand word: one bit per card.
pub const CARD_BITS: u64 = 0x000fffffffffffff;

/// Hand categories in ascending strength.  The numeric code of a
/// category (see [`order_value`]) doubles as a comparison key.
#[derive(Debug, Clone, Copy, PartialEq, Eq)]
pub enum Order {
    Nothing,
    High,
    Pair,
    Twop,
    Trip,
    Strt,
    Flsh,
    Boat,
    Quad,
    Stfl,
}

/// The numeric code of a hand category, 0 (nothing) through 9
/// (straight flush).
pub open spec fn order_value(o: Order) -> u64 {
    match o {
        Order::Nothing => 0,
        Order::High => 1,
        Order::Pair => 2,
        Order::Twop => 3,
        Order::Trip => 4,
        Order::Strt => 5,
        Order::Flsh => 6,
        Order::Boat => 7,
        Order::Quad => 8,
        Order::Stfl => 9,
    }
}

impl Order {
    /// The numeric code of this category.
    pub fn code(&self) -> (v: u64)
        ensures
            v == order_value(*self),
            v <= 9,
    {
        match self {
            Order::Nothing => 0,
            Order::High => 1,
            Order::Pair => 2,
            Order::Twop => 3,
            Order::Trip => 4,
            Order::Strt => 5,
            Order::Flsh => 6,
            Order::Boat => 7,
            Order::Quad => 8,
            Order::Stfl => 9,
        }
    }
}

/// An error carrying a display message.
#[derive(Debug, Clone, Eq, PartialEq)]
pub struct Error {
    pub msg: String,
}

impl Error {
    pub(crate) fn of(msg: String) -> (e: Error)
        ensures
            e.msg == msg,
    {
        Error { msg }
    }
}

/// The message attached to a duplicate-card error.
pub open spec fn dup_card_msg(c: Card) -> Seq<char> {
    "Duplicate card: "@ + card_text(c)
}

/// A mutable accumulator of cards: bits 0-51 are the card-presence
/// bitmap, bits 52-63 stay clear.
#[derive(Debug, Clone, Eq, PartialEq)]
pub struct BuildingHand(u64);

impl View for BuildingHand {
    type V = u64;

    closed spec fn view(&self) -> u64 {
        self.0
    }
}

/// A well-formed hand word uses only the low 52 bits.
pub open spec fn hand_wf(m: u64) -> bool {
    m >> 52 == 0
}

proof fn lemma_wf_or_bit(m: u64, i: u64)
    by (bit_vector)
    requires
        m >> 52 == 0,
        i < 52,
    ensures
        (m | (1u64 << i)) >> 52 == 0,
{
}

impl BuildingHand {
    /// The empty hand.
    pub fn new() -> (h: BuildingHand)
        ensures
            h@ == 0u64,
            hand_wf(h@),
    {
        proof {
            assert(0u64 >> 52 == 0u64) by (bit_vector);
        }
        BuildingHand(0)
    }

    /// Sets the card's bit.  With `err_on_duplicate` and the bit
    /// already set, returns a duplicate-card error and leaves the hand
    /// unchanged; otherwise sets the bit (idempotently) and returns no
    /// error.
    pub fn add_card(&mut self, card: &Card, err_on_duplicate: bool) -> (r: Option<Error>)
        ensures
            err_on_duplicate && old(self)@ & card_bit(*card) != 0 ==> final(self)@ == old(self)@
                && (r matches Some(e) && e.msg@ == dup_card_msg(*card)),
            !(err_on_duplicate && old(self)@ & card_bit(*card) != 0) ==> final(self)@ == old(self)@
                | card_bit(*card) && r is None,
            hand_wf(old(self)@) ==> hand_wf(final(self)@),
    {
        let bit = card.bit();
        if err_on_duplicate && self.0 & bit != 0 {
            let mut msg = String::from_str("Duplicate card: ");
            let text = card.text();
            msg.append(text.as_str());
            Some(Error::of(msg))
        } else {
            proof {
                if hand_wf(self@) {
                    lemma_wf_or_bit(self@, crate::card::card_index(*card) as u64);
                }
            }
            self.0 |= bit;
            None
        }
    }
}

/// The immutable classification result, packed high to low: 4 bits of
/// category code, 4 bits of primary tie-break rank, 4 bits of
/// secondary tie-break rank, then the original 52-bit card bitmap.
#[derive(Debug, Clone, Eq, PartialEq)]
pub struct RealizedHand(u64);

impl View for RealizedHand {
    type V = u64;

    closed spec fn view(&self) -> u64 {
        self.0
    }
}

/// The packed word of a realized hand.
pub open spec fn pack_realized(o: u64, rank1: u64, rank2: u64, m: u64) -> u64 {
    (o << 60) | (rank1 << 56) | (rank2 << 52) | (m & CARD_BITS)
}

/// The four fields of a packed word decode back to what was packed,
/// and the card bitmap rides through unchanged.
pub proof fn lemma_realized_fields(o: u64, rank1: u64, rank2: u64, m: u64)
    by (bit_vector)
    requires
        o < 16,
        rank1 < 16,
        rank2 < 16,
    ensures
        (pack_realized(o, rank1, rank2, m) >> 60) & 0xf == o,
        (pack_realized(o, rank1, rank2, m) >> 56) & 0xf == rank1,
        (pack_realized(o, rank1, rank2, m) >> 52) & 0xf == rank2,
        pack_realized(o, rank1, rank2, m) & CARD_BITS == m & CARD_BITS,
{
}

impl BuildingHand {
    /// Packs a category and two tie-break ranks together with this
    /// hand's card bitmap into a realized hand.
    pub fn new_realized_hand(&self, order: Order, rank1: u64, rank2: u64) -> (r: RealizedHand)
        ensures
            r@ == pack_realized(order_value(order), rank1, rank2, self@),
    {
        RealizedHand(order.code() << 60 | rank1 << 56 | rank2 << 52 | (self.0 & CARD_BITS))
    }
}

impl BuildingHand {
    /// Classifies this hand: the best five-card category it contains,
    /// with two tie-break ranks, packed together with the unchanged
    /// card bitmap.
    pub fn to_realized_hand(&self) -> (r: RealizedHand)
        ensures
            r@ == crate::model::spec_realized(self@),
    {
        let (order, rank1, rank2) = crate::eval::classify(self.0);
        self.new_realized_hand(order, rank1, rank2)
    }
}

impl RealizedHand {
    /// The hand the classification was derived from: the low 52 bits.
    pub fn to_building_hand(&self) -> (h: BuildingHand)
        ensures
            h@ == self@ & CARD_BITS,
    {
        BuildingHand(self.0 & CARD_BITS)
    }

    /// The packed category code, 0 through 9.
    pub fn category_code(&self) -> (v: u64)
        ensures
            v == (self@ >> 60) & 0xf,
    {
        (self.0 >> 60) & 0xf
    }

    /// The primary tie-break rank field.
    pub fn rank1(&self) -> (v: u64)
        ensures
            v == (self@ >> 56) & 0xf,
    {
        (self.0 >> 56) & 0xf
    }

    /// The secondary tie-break rank field.
    pub fn rank2(&self) -> (v: u64)
        ensures
            v == (self@ >> 52) & 0xf,
    {
        (self.0 >> 52) & 0xf
    }
}

/// A compact comparison-ready encoding reserved for showdown
/// comparison, packed high to low: 4 bits of category code, 2 bits of
/// flush suit, 6 bits spare, then five 4-bit card ranks in descending
/// order.
#[derive(Debug, Clone, Eq, PartialEq)]
pub struct ShowdownHand(pub u32);

} // verus!
