use poker::BuildingHand;
use poker::Card;
use poker::Order;
use poker::Rank;

#[test]
fn building_hand_to_realized_hand_with_straight_flush() {
    let mut hand = BuildingHand::new();
    hand.add_card(&Card::_As, true);
    hand.add_card(&Card::_Ts, true);
    hand.add_card(&Card::_Qs, true);
    hand.add_card(&Card::_Js, true);
    hand.add_card(&Card::_Ks, true);
    assert_eq!(
        hand.new_realized_hand(Order::Stfl, Rank::_A.value(), Rank::_K.value()),
        hand.to_realized_hand()
    );

    let mut hand = BuildingHand::new();
    hand.add_card(&Card::_8c, true);
    hand.add_card(&Card::_5d, true);
    hand.add_card(&Card::_2d, true);
    hand.add_card(&Card::_Ad, true);
    hand.add_card(&Card::_Jh, true);
    hand.add_card(&Card::_4d, true);
    hand.add_card(&Card::_3d, true);
    assert_eq!(
        hand.new_realized_hand(Order::Stfl, Rank::_5.value(), Rank::_4.value()),
        hand.to_realized_hand()
    );
}

#[test]
fn building_hand_to_realized_hand_with_quads() {
    let mut hand = BuildingHand::new();
    hand.add_card(&Card::_Qd, true);
    hand.add_card(&Card::_Qc, true);
    hand.add_card(&Card::_3h, true);
    hand.add_card(&Card::_Qh, true);
    hand.add_card(&Card::_Qs, true);
    assert_eq!(
        hand.new_realized_hand(Order::Quad, Rank::_Q.value(), Rank::_3.value()),
        hand.to_realized_hand()
    );

    let mut hand = BuildingHand::new();
    hand.add_card(&Card::_7d, true);
    hand.add_card(&Card::_7c, true);
    hand.add_card(&Card::_Jd, true);
    hand.add_card(&Card::_Jc, true);
    hand.add_card(&Card::_7h, true);
    hand.add_card(&Card::_7s, true);
    hand.add_card(&Card::_Jh, true);
    hand.add_card(&Card::_Js, true);
    hand.add_card(&Card::_9s, true);
    assert_eq!(
        hand.new_realized_hand(Order::Quad, Rank::_J.value(), Rank::_9.value()),
        hand.to_realized_hand()
    );
}

#[test]
fn building_hand_to_realized_hand_with_full_house() {
    let mut hand = BuildingHand::new();
    hand.add_card(&Card::_Kd, true);
    hand.add_card(&Card::_8c, true);
    hand.add_card(&Card::_9h, true);
    hand.add_card(&Card::_8s, true);
    hand.add_card(&Card::_Qd, true);
    hand.add_card(&Card::_8d, true);
    hand.add_card(&Card::_Qh, true);
    assert_eq!(
        hand.new_realized_hand(Order::Boat, Rank::_8.value(), Rank::_Q.value()),
        hand.to_realized_hand()
    );
}

#[test]
fn building_hand_to_realized_hand_with_flush() {
    let mut hand = BuildingHand::new();
    hand.add_card(&Card::_6c, true);
    hand.add_card(&Card::_Td, true);
    hand.add_card(&Card::_3c, true);
    hand.add_card(&Card::_4s, true);
    hand.add_card(&Card::_Ac, true);
    hand.add_card(&Card::_2c, true);
    hand.add_card(&Card::_5c, true);
    assert_eq!(
        hand.new_realized_hand(Order::Flsh, Rank::_A.value(), Rank::_6.value()),
        hand.to_realized_hand()
    );

    let mut hand = BuildingHand::new();
    hand.add_card(&Card::_Td, true);
    hand.add_card(&Card::_Kc, true);
    hand.add_card(&Card::_3c, true);
    hand.add_card(&Card::_5d, true);
    hand.add_card(&Card::_9c, true);
    hand.add_card(&Card::_Kd, true);
    hand.add_card(&Card::_Jc, true);
    hand.add_card(&Card::_3d, true);
    hand.add_card(&Card::_9d, true);
    hand.add_card(&Card::_5c, true);
    assert_eq!(
        hand.new_realized_hand(Order::Flsh, Rank::_K.value(), Rank::_J.value()),
        hand.to_realized_hand()
    );

    let mut hand = BuildingHand::new();
    hand.add_card(&Card::_Tc, true);
    hand.add_card(&Card::_Kd, true);
    hand.add_card(&Card::_3d, true);
    hand.add_card(&Card::_5c, true);
    hand.add_card(&Card::_9d, true);
    hand.add_card(&Card::_Kc, true);
    hand.add_card(&Card::_Jd, true);
    hand.add_card(&Card::_3c, true);
    hand.add_card(&Card::_9c, true);
    hand.add_card(&Card::_5d, true);
    assert_eq!(
        hand.new_realized_hand(Order::Flsh, Rank::_K.value(), Rank::_J.value()),
        hand.to_realized_hand()
    );
}

#[test]
fn building_hand_to_realized_hand_with_straight() {
    let mut hand = BuildingHand::new();
    hand.add_card(&Card::_8h, true);
    hand.add_card(&Card::_Td, true);
    hand.add_card(&Card::_9h, true);
    hand.add_card(&Card::_8s, true);
    hand.add_card(&Card::_Ad, true);
    hand.add_card(&Card::_Jh, true);
    hand.add_card(&Card::_Qh, true);
    assert_eq!(
        hand.new_realized_hand(Order::Strt, Rank::_Q.value(), Rank::_J.value()),
        hand.to_realized_hand()
    );

    let mut hand = BuildingHand::new();
    hand.add_card(&Card::_8h, true);
    hand.add_card(&Card::_Td, true);
    hand.add_card(&Card::_9h, true);
    hand.add_card(&Card::_6s, true);
    hand.add_card(&Card::_7d, true);
    hand.add_card(&Card::_Jh, true);
    hand.add_card(&Card::_Qh, true);
    assert_eq!(
        hand.new_realized_hand(Order::Strt, Rank::_Q.value(), Rank::_J.value()),
        hand.to_realized_hand()
    );

    let mut hand = BuildingHand::new();
    hand.add_card(&Card::_Ac, true);
    hand.add_card(&Card::_Td, true);
    hand.add_card(&Card::_3c, true);
    hand.add_card(&Card::_4s, true);
    hand.add_card(&Card::_Ad, true);
    hand.add_card(&Card::_2c, true);
    hand.add_card(&Card::_5c, true);
    assert_eq!(
        hand.new_realized_hand(Order::Strt, Rank::_5.value(), Rank::_4.value()),
        hand.to_realized_hand()
    );

    let mut hand = BuildingHand::new();
    hand.add_card(&Card::_6c, true);
    hand.add_card(&Card::_Td, true);
    hand.add_card(&Card::_3c, true);
    hand.add_card(&Card::_4s, true);
    hand.add_card(&Card::_Ad, true);
    hand.add_card(&Card::_2c, true);
    hand.add_card(&Card::_5c, true);
    assert_eq!(
        hand.new_realized_hand(Order::Strt, Rank::_6.value(), Rank::_5.value()),
        hand.to_realized_hand()
    );

    let mut hand = BuildingHand::new();
    hand.add_card(&Card::_Jh, true);
    hand.add_card(&Card::_Th, true);
    hand.add_card(&Card::_9d, true);
    hand.add_card(&Card::_8d, true);
    hand.add_card(&Card::_7h, true);
    hand.add_card(&Card::_5d, true);
    hand.add_card(&Card::_2d, true);
    assert_eq!(
        hand.new_realized_hand(Order::Strt, Rank::_J.value(), Rank::_T.value()),
        hand.to_realized_hand()
    );
}

#[test]
fn building_hand_to_realized_hand_with_trips() {
    let mut hand = BuildingHand::new();
    hand.add_card(&Card::_Kd, true);
    hand.add_card(&Card::_8c, true);
    hand.add_card(&Card::_9h, true);
    hand.add_card(&Card::_8s, true);
    hand.add_card(&Card::_Ad, true);
    hand.add_card(&Card::_8d, true);
    hand.add_card(&Card::_Qh, true);
    assert_eq!(
        hand.new_realized_hand(Order::Trip, Rank::_8.value(), Rank::_A.value()),
        hand.to_realized_hand()
    );
}

#[test]
fn building_hand_to_realized_hand_with_two_pair() {
    let mut hand = BuildingHand::new();
    hand.add_card(&Card::_Kd, true);
    hand.add_card(&Card::_8c, true);
    hand.add_card(&Card::_9h, true);
    hand.add_card(&Card::_Js, true);
    hand.add_card(&Card::_Qd, true);
    hand.add_card(&Card::_8d, true);
    hand.add_card(&Card::_Qh, true);
    assert_eq!(
        hand.new_realized_hand(Order::Twop, Rank::_Q.value(), Rank::_8.value()),
        hand.to_realized_hand()
    );

    let mut hand = BuildingHand::new();
    hand.add_card(&Card::_As, true);
    hand.add_card(&Card::_Ac, true);
    hand.add_card(&Card::_6c, true);
    hand.add_card(&Card::_5c, true);
    hand.add_card(&Card::_6d, true);
    hand.add_card(&Card::_Jh, true);
    hand.add_card(&Card::_Jc, true);
    assert_eq!(
        hand.new_realized_hand(Order::Twop, Rank::_A.value(), Rank::_J.value()),
        hand.to_realized_hand()
    );
}

#[test]
fn building_hand_to_realized_hand_with_one_pair() {
    let mut hand = BuildingHand::new();
    hand.add_card(&Card::_Kd, true);
    hand.add_card(&Card::_8c, true);
    hand.add_card(&Card::_9h, true);
    hand.add_card(&Card::_Js, true);
    hand.add_card(&Card::_Ad, true);
    hand.add_card(&Card::_8d, true);
    hand.add_card(&Card::_Qh, true);
    assert_eq!(
        hand.new_realized_hand(Order::Pair, Rank::_8.value(), Rank::_A.value()),
        hand.to_realized_hand()
    );

    let mut hand = BuildingHand::new();
    hand.add_card(&Card::_9h, true);
    hand.add_card(&Card::_6c, true);
    hand.add_card(&Card::_4s, true);
    hand.add_card(&Card::_Jd, true);
    hand.add_card(&Card::_3d, true);
    hand.add_card(&Card::_2c, true);
    hand.add_card(&Card::_2d, true);
    assert_eq!(
        hand.new_realized_hand(Order::Pair, Rank::_2.value(), Rank::_J.value()),
        hand.to_realized_hand()
    );
}

#[test]
fn building_hand_to_realized_hand_with_nothing() {
    let hand = BuildingHand::new();
    assert_eq!(
        hand.new_realized_hand(Order::Nothing, 0, 0),
        hand.to_realized_hand()
    );

    let mut hand = BuildingHand::new();
    hand.add_card(&Card::_Kd, true);
    hand.add_card(&Card::_8c, true);
    hand.add_card(&Card::_9h, true);
    hand.add_card(&Card::_Js, true);
    hand.add_card(&Card::_Ad, true);
    hand.add_card(&Card::_7d, true);
    hand.add_card(&Card::_Qh, true);
    assert_eq!(
        hand.new_realized_hand(Order::High, Rank::_A.value(), Rank::_K.value()),
        hand.to_realized_hand()
    );
}
