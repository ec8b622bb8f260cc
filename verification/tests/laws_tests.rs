use poker::BuildingHand;
use poker::Card;
use poker::Order;
use poker::Rank;
use poker::Suit;

#[test]
fn empty_hand_has_nothing_and_zero_ranks() {
    let hand = BuildingHand::new();
    let realized = hand.to_realized_hand();
    assert_eq!(Order::Nothing.code(), realized.category_code());
    assert_eq!(0, realized.rank1());
    assert_eq!(0, realized.rank2());
}

#[test]
fn five_suited_consecutive_cards_make_a_straight_flush() {
    let mut hand = BuildingHand::new();
    hand.add_card(&Card::_9h, true);
    hand.add_card(&Card::_8h, true);
    hand.add_card(&Card::_7h, true);
    hand.add_card(&Card::_6h, true);
    hand.add_card(&Card::_5h, true);
    let realized = hand.to_realized_hand();
    assert_eq!(Order::Stfl.code(), realized.category_code());
    assert_eq!(Rank::_9.value(), realized.rank1());
    assert_eq!(Rank::_8.value(), realized.rank2());
}

#[test]
fn wheel_straight_flush_tops_at_five() {
    let mut hand = BuildingHand::new();
    hand.add_card(&Card::_Ah, true);
    hand.add_card(&Card::_2h, true);
    hand.add_card(&Card::_3h, true);
    hand.add_card(&Card::_4h, true);
    hand.add_card(&Card::_5h, true);
    let realized = hand.to_realized_hand();
    assert_eq!(Order::Stfl.code(), realized.category_code());
    assert_eq!(Rank::_5.value(), realized.rank1());
    assert_eq!(Rank::_4.value(), realized.rank2());
}

#[test]
fn duplicate_card_is_rejected_and_hand_unchanged() {
    let mut hand = BuildingHand::new();
    assert!(hand.add_card(&Card::_As, true).is_none());
    let before = hand.clone();
    let err = hand.add_card(&Card::_As, true);
    assert!(err.is_some());
    assert_eq!("Duplicate card: As", err.unwrap().msg);
    assert_eq!(before, hand);
}

#[test]
fn duplicate_card_is_absorbed_without_rejection() {
    let mut hand = BuildingHand::new();
    assert!(hand.add_card(&Card::_As, true).is_none());
    let before = hand.clone();
    assert!(hand.add_card(&Card::_As, false).is_none());
    assert_eq!(before, hand);
}

#[test]
fn quads_beat_boat_material() {
    let mut hand = BuildingHand::new();
    hand.add_card(&Card::_8d, true);
    hand.add_card(&Card::_8c, true);
    hand.add_card(&Card::_8h, true);
    hand.add_card(&Card::_8s, true);
    hand.add_card(&Card::_9d, true);
    hand.add_card(&Card::_9c, true);
    hand.add_card(&Card::_9h, true);
    let realized = hand.to_realized_hand();
    assert_eq!(Order::Quad.code(), realized.category_code());
    assert_eq!(Rank::_8.value(), realized.rank1());
    assert_eq!(Rank::_9.value(), realized.rank2());
}

#[test]
fn flush_beats_straight_material() {
    // Clubs six high; the hand also holds the wheel straight.
    let mut hand = BuildingHand::new();
    hand.add_card(&Card::_Ac, true);
    hand.add_card(&Card::_2c, true);
    hand.add_card(&Card::_3c, true);
    hand.add_card(&Card::_4c, true);
    hand.add_card(&Card::_5h, true);
    hand.add_card(&Card::_6c, true);
    let realized = hand.to_realized_hand();
    assert_eq!(Order::Flsh.code(), realized.category_code());
    assert_eq!(Rank::_A.value(), realized.rank1());
    assert_eq!(Rank::_6.value(), realized.rank2());
}

#[test]
fn realized_hand_round_trips_to_building_hand() {
    let mut hand = BuildingHand::new();
    hand.add_card(&Card::_Kd, true);
    hand.add_card(&Card::_8c, true);
    hand.add_card(&Card::_9h, true);
    hand.add_card(&Card::_8s, true);
    hand.add_card(&Card::_Qd, true);
    hand.add_card(&Card::_8d, true);
    hand.add_card(&Card::_Qh, true);
    assert_eq!(hand, hand.to_realized_hand().to_building_hand());

    let empty = BuildingHand::new();
    assert_eq!(empty, empty.to_realized_hand().to_building_hand());
}

#[test]
fn quads_scenario_decodes_through_accessors() {
    let mut hand = BuildingHand::new();
    hand.add_card(&Card::_Qd, true);
    hand.add_card(&Card::_Qc, true);
    hand.add_card(&Card::_3h, true);
    hand.add_card(&Card::_Qh, true);
    hand.add_card(&Card::_Qs, true);
    let realized = hand.to_realized_hand();
    assert_eq!(Order::Quad.code(), realized.category_code());
    assert_eq!(Rank::_Q.value(), realized.rank1());
    assert_eq!(Rank::_3.value(), realized.rank2());
}

#[test]
fn card_catalog_decodes_rank_suit_and_text() {
    assert_eq!(Rank::_Q, Card::_Qh.rank());
    assert_eq!(Suit::_H, Card::_Qh.suit());
    assert_eq!("Qh", Card::_Qh.text());
    assert_eq!(Rank::_2, Card::_2d.rank());
    assert_eq!(Suit::_D, Card::_2d.suit());
    assert_eq!(Rank::_A, Card::_As.rank());
    assert_eq!(Suit::_S, Card::_As.suit());
    assert_eq!(Card::_Qh, Card::from(Rank::_Q, Suit::_H));
    assert_eq!(Card::_2d, Card::from(Rank::_2, Suit::_D));
    assert_eq!(Card::_As, Card::from(Rank::_A, Suit::_S));
}

#[test]
fn rank_values_are_one_based() {
    assert_eq!(1, Rank::_2.value());
    assert_eq!(4, Rank::_5.value());
    assert_eq!(13, Rank::_A.value());
    assert_eq!(0, Suit::_D.value());
    assert_eq!(3, Suit::_S.value());
}
