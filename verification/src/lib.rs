//! A poker hand classifier over a dense bit-packed card representation.
//!
//! Fifty-two cards map to the low 52 bits of a 64-bit word, four bits
//! (one per suit) for each of the thirteen ranks.  A `BuildingHand`
//! accumulates cards in such a word; evaluation classifies the best
//! five-card poker hand it contains and packs the result, together with
//! two tie-break ranks and the original card bitmap, into a
//! `RealizedHand`.

pub mod bits;
pub mod card;
pub mod eval;
pub mod hand;
pub mod input;
pub mod laws;
pub mod model;

pub use bits::lsb;
pub use bits::msb;
pub use card::Card;
pub use card::Rank;
pub use card::Suit;
pub use hand::BuildingHand;
pub use hand::Error;
pub use hand::Order;
pub use hand::RealizedHand;
pub use hand::ShowdownHand;
pub use input::normalize_input_cards;
