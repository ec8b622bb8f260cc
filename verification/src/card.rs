//! The card catalog: a fixed bijection between the 52 cards and single
//! bit positions of a 64-bit field.
//!
//! For rank `r` (1 = deuce .. 13 = ace) and suit `s` (0 = diamond,
//! 1 = club, 2 = heart, 3 = spade) the card occupies bit
//! `(r - 1) * 4 + s`, so each rank owns one 4-bit group and the suit
//! sits in the low two bits of the index.

use crate::bits::lsb;
use crate::bits::msb;
use vstd::prelude::*;

verus! {

/// Card rank, 1-based: deuce is 1, ace is 13.
#[derive(Debug, Clone, Copy, PartialEq, Eq)]
pub enum Rank {
    _2,
    _3,
    _4,
    _5,
    _6,
    _7,
    _8,
    _9,
    _T,
    _J,
    _Q,
    _K,
    _A,
}

impl Rank {
    /// The 1-based numeric value of this rank.
    pub open spec fn spec_value(self) -> u64 {
        match self {
            Rank::_2 => 1,
            Rank::_3 => 2,
            Rank::_4 => 3,
            Rank::_5 => 4,
            Rank::_6 => 5,
            Rank::_7 => 6,
            Rank::_8 => 7,
            Rank::_9 => 8,
            Rank::_T => 9,
            Rank::_J => 10,
            Rank::_Q => 11,
            Rank::_K => 12,
            Rank::_A => 13,
        }
    }

    pub fn value(&self) -> (v: u64)
        ensures
            v == self.spec_value(),
            1 <= v <= 13,
    {
        match self {
            Rank::_2 => 1,
            Rank::_3 => 2,
            Rank::_4 => 3,
            Rank::_5 => 4,
            Rank::_6 => 5,
            Rank::_7 => 6,
            Rank::_8 => 7,
            Rank::_9 => 8,
            Rank::_T => 9,
            Rank::_J => 10,
            Rank::_Q => 11,
            Rank::_K => 12,
            Rank::_A => 13,
        }
    }
}

/// Card suit, encoded in the low two bits of a card's bit index.
#[derive(Debug, Clone, Copy, PartialEq, Eq)]
pub enum Suit {
    _D,
    _C,
    _H,
    _S,
}

impl Suit {
    /// The numeric suit code: diamond 0, club 1, heart 2, spade 3.
    pub open spec fn spec_value(self) -> u64 {
        match self {
            Suit::_D => 0,
            Suit::_C => 1,
            Suit::_H => 2,
            Suit::_S => 3,
        }
    }

    pub fn value(&self) -> (v: u64)
        ensures
            v == self.spec_value(),
            v <= 3,
    {
        match self {
            Suit::_D => 0,
            Suit::_C => 1,
            Suit::_H => 2,
            Suit::_S => 3,
        }
    }
}

/// One of the 52 cards, named rank-then-suit.
#[derive(Debug, Clone, Copy, PartialEq, Eq)]
pub enum Card {
    _2d,
    _2c,
    _2h,
    _2s,
    _3d,
    _3c,
    _3h,
    _3s,
    _4d,
    _4c,
    _4h,
    _4s,
    _5d,
    _5c,
    _5h,
    _5s,
    _6d,
    _6c,
    _6h,
    _6s,
    _7d,
    _7c,
    _7h,
    _7s,
    _8d,
    _8c,
    _8h,
    _8s,
    _9d,
    _9c,
    _9h,
    _9s,
    _Td,
    _Tc,
    _Th,
    _Ts,
    _Jd,
    _Jc,
    _Jh,
    _Js,
    _Qd,
    _Qc,
    _Qh,
    _Qs,
    _Kd,
    _Kc,
    _Kh,
    _Ks,
    _Ad,
    _Ac,
    _Ah,
    _As,
}

/// The 1-based rank of a card (deuce 1 .. ace 13).
pub open spec fn rank_of(c: Card) -> int {
    match c {
        Card::_2d | Card::_2c | Card::_2h | Card::_2s => 1,
        Card::_3d | Card::_3c | Card::_3h | Card::_3s => 2,
        Card::_4d | Card::_4c | Card::_4h | Card::_4s => 3,
        Card::_5d | Card::_5c | Card::_5h | Card::_5s => 4,
        Card::_6d | Card::_6c | Card::_6h | Card::_6s => 5,
        Card::_7d | Card::_7c | Card::_7h | Card::_7s => 6,
        Card::_8d | Card::_8c | Card::_8h | Card::_8s => 7,
        Card::_9d | Card::_9c | Card::_9h | Card::_9s => 8,
        Card::_Td | Card::_Tc | Card::_Th | Card::_Ts => 9,
        Card::_Jd | Card::_Jc | Card::_Jh | Card::_Js => 10,
        Card::_Qd | Card::_Qc | Card::_Qh | Card::_Qs => 11,
        Card::_Kd | Card::_Kc | Card::_Kh | Card::_Ks => 12,
        Card::_Ad | Card::_Ac | Card::_Ah | Card::_As => 13,
    }
}

/// The suit code of a card (diamond 0, club 1, heart 2, spade 3).
pub open spec fn suit_of(c: Card) -> int {
    match c {
        Card::_2d | Card::_3d | Card::_4d | Card::_5d | Card::_6d | Card::_7d | Card::_8d
        | Card::_9d | Card::_Td | Card::_Jd | Card::_Qd | Card::_Kd | Card::_Ad => 0,
        Card::_2c | Card::_3c | Card::_4c | Card::_5c | Card::_6c | Card::_7c | Card::_8c
        | Card::_9c | Card::_Tc | Card::_Jc | Card::_Qc | Card::_Kc | Card::_Ac => 1,
        Card::_2h | Card::_3h | Card::_4h | Card::_5h | Card::_6h | Card::_7h | Card::_8h
        | Card::_9h | Card::_Th | Card::_Jh | Card::_Qh | Card::_Kh | Card::_Ah => 2,
        Card::_2s | Card::_3s | Card::_4s | Card::_5s | Card::_6s | Card::_7s | Card::_8s
        | Card::_9s | Card::_Ts | Card::_Js | Card::_Qs | Card::_Ks | Card::_As => 3,
    }
}

/// The bit index of a card within the 52-bit card field.
pub open spec fn card_index(c: Card) -> int {
    (rank_of(c) - 1) * 4 + suit_of(c)
}

/// The single-bit mask of a card.
pub open spec fn card_bit(c: Card) -> u64 {
    1u64 << (card_index(c) as u64)
}

/// The two-character display text of a card, rank character then
/// lower-case suit character.
pub open spec fn card_text(c: Card) -> Seq<char> {
    match c {
        Card::_2d => "2d"@,
        Card::_2c => "2c"@,
        Card::_2h => "2h"@,
        Card::_2s => "2s"@,
        Card::_3d => "3d"@,
        Card::_3c => "3c"@,
        Card::_3h => "3h"@,
        Card::_3s => "3s"@,
        Card::_4d => "4d"@,
        Card::_4c => "4c"@,
        Card::_4h => "4h"@,
        Card::_4s => "4s"@,
        Card::_5d => "5d"@,
        Card::_5c => "5c"@,
        Card::_5h => "5h"@,
        Card::_5s => "5s"@,
        Card::_6d => "6d"@,
        Card::_6c => "6c"@,
        Card::_6h => "6h"@,
        Card::_6s => "6s"@,
        Card::_7d => "7d"@,
        Card::_7c => "7c"@,
        Card::_7h => "7h"@,
        Card::_7s => "7s"@,
        Card::_8d => "8d"@,
        Card::_8c => "8c"@,
        Card::_8h => "8h"@,
        Card::_8s => "8s"@,
        Card::_9d => "9d"@,
        Card::_9c => "9c"@,
        Card::_9h => "9h"@,
        Card::_9s => "9s"@,
        Card::_Td => "Td"@,
        Card::_Tc => "Tc"@,
        Card::_Th => "Th"@,
        Card::_Ts => "Ts"@,
        Card::_Jd => "Jd"@,
        Card::_Jc => "Jc"@,
        Card::_Jh => "Jh"@,
        Card::_Js => "Js"@,
        Card::_Qd => "Qd"@,
        Card::_Qc => "Qc"@,
        Card::_Qh => "Qh"@,
        Card::_Qs => "Qs"@,
        Card::_Kd => "Kd"@,
        Card::_Kc => "Kc"@,
        Card::_Kh => "Kh"@,
        Card::_Ks => "Ks"@,
        Card::_Ad => "Ad"@,
        Card::_Ac => "Ac"@,
        Card::_Ah => "Ah"@,
        Card::_As => "As"@,
    }
}

proof fn lemma_single_bit_nonzero(i: u64)
    by (bit_vector)
    requires
        i < 64,
    ensures
        1u64 << i != 0,
{
}

proof fn lemma_msb_of_single_bit(i: u64, b: u64)
    by (bit_vector)
    requires
        i < 64,
        b < 64,
        (1u64 << i) >> b == 1,
    ensures
        b == i,
{
}

proof fn lemma_lsb_of_single_bit(i: u64, b: u64)
    by (bit_vector)
    requires
        i < 64,
        b < 64,
        ((1u64 << i) >> b) & 1 == 1,
    ensures
        b == i,
{
}

impl Card {
    /// The bit index of this card, `(rank - 1) * 4 + suit`.
    pub fn index(&self) -> (i: u8)
        ensures
            i as int == card_index(*self),
            i < 52,
    {
        match self {
            Card::_2d => 0,
            Card::_2c => 1,
            Card::_2h => 2,
            Card::_2s => 3,
            Card::_3d => 4,
            Card::_3c => 5,
            Card::_3h => 6,
            Card::_3s => 7,
            Card::_4d => 8,
            Card::_4c => 9,
            Card::_4h => 10,
            Card::_4s => 11,
            Card::_5d => 12,
            Card::_5c => 13,
            Card::_5h => 14,
            Card::_5s => 15,
            Card::_6d => 16,
            Card::_6c => 17,
            Card::_6h => 18,
            Card::_6s => 19,
            Card::_7d => 20,
            Card::_7c => 21,
            Card::_7h => 22,
            Card::_7s => 23,
            Card::_8d => 24,
            Card::_8c => 25,
            Card::_8h => 26,
            Card::_8s => 27,
            Card::_9d => 28,
            Card::_9c => 29,
            Card::_9h => 30,
            Card::_9s => 31,
            Card::_Td => 32,
            Card::_Tc => 33,
            Card::_Th => 34,
            Card::_Ts => 35,
            Card::_Jd => 36,
            Card::_Jc => 37,
            Card::_Jh => 38,
            Card::_Js => 39,
            Card::_Qd => 40,
            Card::_Qc => 41,
            Card::_Qh => 42,
            Card::_Qs => 43,
            Card::_Kd => 44,
            Card::_Kc => 45,
            Card::_Kh => 46,
            Card::_Ks => 47,
            Card::_Ad => 48,
            Card::_Ac => 49,
            Card::_Ah => 50,
            Card::_As => 51,
        }
    }

    /// The single-bit mask of this card within the 52-bit field.
    pub fn bit(&self) -> (b: u64)
        ensures
            b == card_bit(*self),
            b != 0,
    {
        let i = self.index();
        proof {
            lemma_single_bit_nonzero(i as u64);
        }
        1u64 << (i as u64)
    }

    /// The rank of this card, recovered by locating its single set bit
    /// with the most-significant-bit primitive.
    pub fn rank(&self) -> (r: Rank)
        ensures
            r.spec_value() as int == rank_of(*self),
    {
        let i = self.index();
        match msb(self.bit()) {
            Some(b) => {
                proof {
                    lemma_msb_of_single_bit(i as u64, b as u64);
                    assert(b / 4 == (rank_of(*self) - 1) && b % 4 == suit_of(*self))
                        by (nonlinear_arith)
                        requires
                            b as int == (rank_of(*self) - 1) * 4 + suit_of(*self),
                            1 <= rank_of(*self) <= 13,
                            0 <= suit_of(*self) <= 3,
                    ;
                }
                match b / 4 {
                    0 => Rank::_2,
                    1 => Rank::_3,
                    2 => Rank::_4,
                    3 => Rank::_5,
                    4 => Rank::_6,
                    5 => Rank::_7,
                    6 => Rank::_8,
                    7 => Rank::_9,
                    8 => Rank::_T,
                    9 => Rank::_J,
                    10 => Rank::_Q,
                    11 => Rank::_K,
                    12 => Rank::_A,
                    _ => unreached(),
                }
            },
            None => unreached(),
        }
    }

    /// The suit of this card, recovered from the low two bits of its
    /// bit index via the least-significant-bit primitive.
    pub fn suit(&self) -> (s: Suit)
        ensures
            s.spec_value() as int == suit_of(*self),
    {
        let i = self.index();
        match lsb(self.bit()) {
            Some(b) => {
                proof {
                    lemma_lsb_of_single_bit(i as u64, b as u64);
                    assert(b / 4 == (rank_of(*self) - 1) && b % 4 == suit_of(*self))
                        by (nonlinear_arith)
                        requires
                            b as int == (rank_of(*self) - 1) * 4 + suit_of(*self),
                            1 <= rank_of(*self) <= 13,
                            0 <= suit_of(*self) <= 3,
                    ;
                }
                match b % 4 {
                    0 => Suit::_D,
                    1 => Suit::_C,
                    2 => Suit::_H,
                    3 => Suit::_S,
                    _ => unreached(),
                }
            },
            None => unreached(),
        }
    }

    /// The card with the given rank and suit.
    pub fn from(rank: Rank, suit: Suit) -> (c: Card)
        ensures
            rank_of(c) == rank.spec_value() as int,
            suit_of(c) == suit.spec_value() as int,
    {
        match (rank, suit) {
            (Rank::_2, Suit::_D) => Card::_2d,
            (Rank::_2, Suit::_C) => Card::_2c,
            (Rank::_2, Suit::_H) => Card::_2h,
            (Rank::_2, Suit::_S) => Card::_2s,
            (Rank::_3, Suit::_D) => Card::_3d,
            (Rank::_3, Suit::_C) => Card::_3c,
            (Rank::_3, Suit::_H) => Card::_3h,
            (Rank::_3, Suit::_S) => Card::_3s,
            (Rank::_4, Suit::_D) => Card::_4d,
            (Rank::_4, Suit::_C) => Card::_4c,
            (Rank::_4, Suit::_H) => Card::_4h,
            (Rank::_4, Suit::_S) => Card::_4s,
            (Rank::_5, Suit::_D) => Card::_5d,
            (Rank::_5, Suit::_C) => Card::_5c,
            (Rank::_5, Suit::_H) => Card::_5h,
            (Rank::_5, Suit::_S) => Card::_5s,
            (Rank::_6, Suit::_D) => Card::_6d,
            (Rank::_6, Suit::_C) => Card::_6c,
            (Rank::_6, Suit::_H) => Card::_6h,
            (Rank::_6, Suit::_S) => Card::_6s,
            (Rank::_7, Suit::_D) => Card::_7d,
            (Rank::_7, Suit::_C) => Card::_7c,
            (Rank::_7, Suit::_H) => Card::_7h,
            (Rank::_7, Suit::_S) => Card::_7s,
            (Rank::_8, Suit::_D) => Card::_8d,
            (Rank::_8, Suit::_C) => Card::_8c,
            (Rank::_8, Suit::_H) => Card::_8h,
            (Rank::_8, Suit::_S) => Card::_8s,
            (Rank::_9, Suit::_D) => Card::_9d,
            (Rank::_9, Suit::_C) => Card::_9c,
            (Rank::_9, Suit::_H) => Card::_9h,
            (Rank::_9, Suit::_S) => Card::_9s,
            (Rank::_T, Suit::_D) => Card::_Td,
            (Rank::_T, Suit::_C) => Card::_Tc,
            (Rank::_T, Suit::_H) => Card::_Th,
            (Rank::_T, Suit::_S) => Card::_Ts,
            (Rank::_J, Suit::_D) => Card::_Jd,
            (Rank::_J, Suit::_C) => Card::_Jc,
            (Rank::_J, Suit::_H) => Card::_Jh,
            (Rank::_J, Suit::_S) => Card::_Js,
            (Rank::_Q, Suit::_D) => Card::_Qd,
            (Rank::_Q, Suit::_C) => Card::_Qc,
            (Rank::_Q, Suit::_H) => Card::_Qh,
            (Rank::_Q, Suit::_S) => Card::_Qs,
            (Rank::_K, Suit::_D) => Card::_Kd,
            (Rank::_K, Suit::_C) => Card::_Kc,
            (Rank::_K, Suit::_H) => Card::_Kh,
            (Rank::_K, Suit::_S) => Card::_Ks,
            (Rank::_A, Suit::_D) => Card::_Ad,
            (Rank::_A, Suit::_C) => Card::_Ac,
            (Rank::_A, Suit::_H) => Card::_Ah,
            (Rank::_A, Suit::_S) => Card::_As,
        }
    }

    /// The display text of this card, e.g. `"Qh"`.
    pub fn text(&self) -> (t: String)
        ensures
            t@ == card_text(*self),
    {
        let s: &str = match self {
            Card::_2d => "2d",
            Card::_2c => "2c",
            Card::_2h => "2h",
            Card::_2s => "2s",
            Card::_3d => "3d",
            Card::_3c => "3c",
            Card::_3h => "3h",
            Card::_3s => "3s",
            Card::_4d => "4d",
            Card::_4c => "4c",
            Card::_4h => "4h",
            Card::_4s => "4s",
            Card::_5d => "5d",
            Card::_5c => "5c",
            Card::_5h => "5h",
            Card::_5s => "5s",
            Card::_6d => "6d",
            Card::_6c => "6c",
            Card::_6h => "6h",
            Card::_6s => "6s",
            Card::_7d => "7d",
            Card::_7c => "7c",
            Card::_7h => "7h",
            Card::_7s => "7s",
            Card::_8d => "8d",
            Card::_8c => "8c",
            Card::_8h => "8h",
            Card::_8s => "8s",
            Card::_9d => "9d",
            Card::_9c => "9c",
            Card::_9h => "9h",
            Card::_9s => "9s",
            Card::_Td => "Td",
            Card::_Tc => "Tc",
            Card::_Th => "Th",
            Card::_Ts => "Ts",
            Card::_Jd => "Jd",
            Card::_Jc => "Jc",
            Card::_Jh => "Jh",
            Card::_Js => "Js",
            Card::_Qd => "Qd",
            Card::_Qc => "Qc",
            Card::_Qh => "Qh",
            Card::_Qs => "Qs",
            Card::_Kd => "Kd",
            Card::_Kc => "Kc",
            Card::_Kh => "Kh",
            Card::_Ks => "Ks",
            Card::_Ad => "Ad",
            Card::_Ac => "Ac",
            Card::_Ah => "Ah",
            Card::_As => "As",
        };
        s.to_owned()
    }
}

} // verus!
