//! The card model: rank order and equality, the compact rank, suit and
//! card codes, and card-string parsing.

use std::str::FromStr;

use poker_hands::card::Card;
use poker_hands::card::Rank;
use poker_hands::card::Suit;
use poker_hands::card::Suite;
use poker_hands::card::parse_cards;

#[test]
fn test_parse_cards() {
    let expected: Vec<Card> = vec![];
    assert_eq!(expected, parse_cards("").unwrap());

    let expected: Vec<Card> = vec![Card(Rank::Ace, Suit::Diamonds)];
    assert_eq!(expected, parse_cards("Ad").unwrap());

    let expected: Vec<Card> = vec![
        Card(Rank::Ace, Suit::Diamonds),
        Card(Rank::Ten, Suit::Spades),
    ];
    assert_eq!(expected, parse_cards("AdTs").unwrap());

    let parsed = parse_cards("Ad".repeat(100).as_str()).unwrap();
    assert_eq!(parsed.len(), 100);
    assert!(parsed
        .into_iter()
        .all(|card| card == Card(Rank::Ace, Suit::Diamonds)));
}

#[test]
fn mod_test_to_string() {
    assert_eq!(
        Card(Rank::Ace, Suit::Diamonds).to_string(),
        "Ad".to_string()
    );
}

#[test]
fn test_ordering_two() {
    let lhs = Rank::Two;

    assert_eq!(lhs, Rank::Two);
    assert!(lhs < Rank::Three);
    assert!(lhs < Rank::Four);
    assert!(lhs < Rank::Five);
    assert!(lhs < Rank::Six);
    assert!(lhs < Rank::Seven);
    assert!(lhs < Rank::Eight);
    assert!(lhs < Rank::Nine);
    assert!(lhs < Rank::Ten);
    assert!(lhs < Rank::Jack);
    assert!(lhs < Rank::Queen);
    assert!(lhs < Rank::King);
    assert!(lhs < Rank::Ace);
}

#[test]
fn test_ordering_three() {
    let lhs = Rank::Three;

    assert!(lhs > Rank::Two);
    assert_eq!(lhs, Rank::Three);
    assert!(lhs < Rank::Four);
    assert!(lhs < Rank::Five);
    assert!(lhs < Rank::Six);
    assert!(lhs < Rank::Seven);
    assert!(lhs < Rank::Eight);
    assert!(lhs < Rank::Nine);
    assert!(lhs < Rank::Ten);
    assert!(lhs < Rank::Jack);
    assert!(lhs < Rank::Queen);
    assert!(lhs < Rank::King);
    assert!(lhs < Rank::Ace);
}

#[test]
fn test_ordering_four() {
    let lhs = Rank::Four;

    assert!(lhs > Rank::Two);
    assert!(lhs > Rank::Three);
    assert_eq!(lhs, Rank::Four);
    assert!(lhs < Rank::Five);
    assert!(lhs < Rank::Six);
    assert!(lhs < Rank::Seven);
    assert!(lhs < Rank::Eight);
    assert!(lhs < Rank::Nine);
    assert!(lhs < Rank::Ten);
    assert!(lhs < Rank::Jack);
    assert!(lhs < Rank::Queen);
    assert!(lhs < Rank::King);
    assert!(lhs < Rank::Ace);
}

#[test]
fn test_ordering_five() {
    let lhs = Rank::Five;

    assert!(lhs > Rank::Two);
    assert!(lhs > Rank::Three);
    assert!(lhs > Rank::Four);
    assert_eq!(lhs, Rank::Five);
    assert!(lhs < Rank::Six);
    assert!(lhs < Rank::Seven);
    assert!(lhs < Rank::Eight);
    assert!(lhs < Rank::Nine);
    assert!(lhs < Rank::Ten);
    assert!(lhs < Rank::Jack);
    assert!(lhs < Rank::Queen);
    assert!(lhs < Rank::King);
    assert!(lhs < Rank::Ace);
}

#[test]
fn test_ordering_six() {
    let lhs = Rank::Six;

    assert!(lhs > Rank::Two);
    assert!(lhs > Rank::Three);
    assert!(lhs > Rank::Four);
    assert!(lhs > Rank::Five);
    assert_eq!(lhs, Rank::Six);
    assert!(lhs < Rank::Seven);
    assert!(lhs < Rank::Eight);
    assert!(lhs < Rank::Nine);
    assert!(lhs < Rank::Ten);
    assert!(lhs < Rank::Jack);
    assert!(lhs < Rank::Queen);
    assert!(lhs < Rank::King);
    assert!(lhs < Rank::Ace);
}

#[test]
fn test_ordering_seven() {
    let lhs = Rank::Seven;

    assert!(lhs > Rank::Two);
    assert!(lhs > Rank::Three);
    assert!(lhs > Rank::Four);
    assert!(lhs > Rank::Five);
    assert!(lhs > Rank::Six);
    assert_eq!(lhs, Rank::Seven);
    assert!(lhs < Rank::Eight);
    assert!(lhs < Rank::Nine);
    assert!(lhs < Rank::Ten);
    assert!(lhs < Rank::Jack);
    assert!(lhs < Rank::Queen);
    assert!(lhs < Rank::King);
    assert!(lhs < Rank::Ace);
}

#[test]
fn test_ordering_eight() {
    let lhs = Rank::Eight;

    assert!(lhs > Rank::Two);
    assert!(lhs > Rank::Three);
    assert!(lhs > Rank::Four);
    assert!(lhs > Rank::Five);
    assert!(lhs > Rank::Six);
    assert!(lhs > Rank::Seven);
    assert_eq!(lhs, Rank::Eight);
    assert!(lhs < Rank::Nine);
    assert!(lhs < Rank::Ten);
    assert!(lhs < Rank::Jack);
    assert!(lhs < Rank::Queen);
    assert!(lhs < Rank::King);
    assert!(lhs < Rank::Ace);
}

#[test]
fn test_ordering_nine() {
    let lhs = Rank::Nine;

    assert!(lhs > Rank::Two);
    assert!(lhs > Rank::Three);
    assert!(lhs > Rank::Four);
    assert!(lhs > Rank::Five);
    assert!(lhs > Rank::Six);
    assert!(lhs > Rank::Seven);
    assert!(lhs > Rank::Eight);
    assert_eq!(lhs, Rank::Nine);
    assert!(lhs < Rank::Ten);
    assert!(lhs < Rank::Jack);
    assert!(lhs < Rank::Queen);
    assert!(lhs < Rank::King);
    assert!(lhs < Rank::Ace);
}

#[test]
fn test_ordering_ten() {
    let lhs = Rank::Ten;

    assert!(lhs > Rank::Two);
    assert!(lhs > Rank::Three);
    assert!(lhs > Rank::Four);
    assert!(lhs > Rank::Five);
    assert!(lhs > Rank::Six);
    assert!(lhs > Rank::Seven);
    assert!(lhs > Rank::Eight);
    assert!(lhs > Rank::Nine);
    assert_eq!(lhs, Rank::Ten);
    assert!(lhs < Rank::Jack);
    assert!(lhs < Rank::Queen);
    assert!(lhs < Rank::King);
    assert!(lhs < Rank::Ace);
}

#[test]
fn test_ordering_jack() {
    let lhs = Rank::Jack;

    assert!(lhs > Rank::Two);
    assert!(lhs > Rank::Three);
    assert!(lhs > Rank::Four);
    assert!(lhs > Rank::Five);
    assert!(lhs > Rank::Six);
    assert!(lhs > Rank::Seven);
    assert!(lhs > Rank::Eight);
    assert!(lhs > Rank::Nine);
    assert!(lhs > Rank::Ten);
    assert_eq!(lhs, Rank::Jack);
    assert!(lhs < Rank::Queen);
    assert!(lhs < Rank::King);
    assert!(lhs < Rank::Ace);
}

#[test]
fn test_ordering_queen() {
    let lhs = Rank::Queen;

    assert!(lhs > Rank::Two);
    assert!(lhs > Rank::Three);
    assert!(lhs > Rank::Four);
    assert!(lhs > Rank::Five);
    assert!(lhs > Rank::Six);
    assert!(lhs > Rank::Seven);
    assert!(lhs > Rank::Eight);
    assert!(lhs > Rank::Nine);
    assert!(lhs > Rank::Ten);
    assert!(lhs > Rank::Jack);
    assert_eq!(lhs, Rank::Queen);
    assert!(lhs < Rank::King);
    assert!(lhs < Rank::Ace);
}

#[test]
fn test_ordering_king() {
    let lhs = Rank::King;

    assert!(lhs > Rank::Two);
    assert!(lhs > Rank::Three);
    assert!(lhs > Rank::Four);
    assert!(lhs > Rank::Five);
    assert!(lhs > Rank::Six);
    assert!(lhs > Rank::Seven);
    assert!(lhs > Rank::Eight);
    assert!(lhs > Rank::Nine);
    assert!(lhs > Rank::Ten);
    assert!(lhs > Rank::Jack);
    assert!(lhs > Rank::Queen);
    assert_eq!(lhs, Rank::King);
    assert!(lhs < Rank::Ace);
}

#[test]
fn test_ordering_ace() {
    let lhs = Rank::Ace;

    assert!(lhs > Rank::Two);
    assert!(lhs > Rank::Three);
    assert!(lhs > Rank::Four);
    assert!(lhs > Rank::Five);
    assert!(lhs > Rank::Six);
    assert!(lhs > Rank::Seven);
    assert!(lhs > Rank::Eight);
    assert!(lhs > Rank::Nine);
    assert!(lhs > Rank::Ten);
    assert!(lhs > Rank::Jack);
    assert!(lhs > Rank::Queen);
    assert!(lhs > Rank::King);
    assert_eq!(lhs, Rank::Ace);
}

#[test]
fn rank_test_from_str() {
    assert_eq!(Rank::from_str("2").unwrap(), Rank::Two);
    assert_eq!(Rank::from_str("3").unwrap(), Rank::Three);
    assert_eq!(Rank::from_str("4").unwrap(), Rank::Four);
    assert_eq!(Rank::from_str("5").unwrap(), Rank::Five);
    assert_eq!(Rank::from_str("6").unwrap(), Rank::Six);
    assert_eq!(Rank::from_str("7").unwrap(), Rank::Seven);
    assert_eq!(Rank::from_str("8").unwrap(), Rank::Eight);
    assert_eq!(Rank::from_str("9").unwrap(), Rank::Nine);
    assert_eq!(Rank::from_str("T").unwrap(), Rank::Ten);
    assert_eq!(Rank::from_str("J").unwrap(), Rank::Jack);
    assert_eq!(Rank::from_str("Q").unwrap(), Rank::Queen);
    assert_eq!(Rank::from_str("K").unwrap(), Rank::King);
    assert_eq!(Rank::from_str("A").unwrap(), Rank::Ace);
}

#[test]
fn rank_test_to_string() {
    assert_eq!(Rank::Two.to_string(), "2".to_string());
    assert_eq!(Rank::Three.to_string(), "3".to_string());
    assert_eq!(Rank::Four.to_string(), "4".to_string());
    assert_eq!(Rank::Five.to_string(), "5".to_string());
    assert_eq!(Rank::Six.to_string(), "6".to_string());
    assert_eq!(Rank::Seven.to_string(), "7".to_string());
    assert_eq!(Rank::Eight.to_string(), "8".to_string());
    assert_eq!(Rank::Nine.to_string(), "9".to_string());
    assert_eq!(Rank::Ten.to_string(), "T".to_string());
    assert_eq!(Rank::Jack.to_string(), "J".to_string());
    assert_eq!(Rank::Queen.to_string(), "Q".to_string());
    assert_eq!(Rank::King.to_string(), "K".to_string());
    assert_eq!(Rank::Ace.to_string(), "A".to_string());
}

#[test]
fn suit_test_equality() {
    assert_eq!(Suit::Diamonds, Suit::Diamonds);
    assert_eq!(Suit::Clubs, Suit::Clubs);
    assert_eq!(Suit::Hearts, Suit::Hearts);
    assert_eq!(Suit::Spades, Suit::Spades);
}

#[test]
fn suit_test_from_str() {
    assert_eq!(Suit::from_str("c").unwrap(), Suit::Clubs);
    assert_eq!(Suit::from_str("d").unwrap(), Suit::Diamonds);
    assert_eq!(Suit::from_str("h").unwrap(), Suit::Hearts);
    assert_eq!(Suit::from_str("s").unwrap(), Suit::Spades);
}

#[test]
fn suit_test_to_string() {
    assert_eq!(Suit::Clubs.to_string(), "c".to_string());
    assert_eq!(Suit::Diamonds.to_string(), "d".to_string());
    assert_eq!(Suit::Hearts.to_string(), "h".to_string());
    assert_eq!(Suit::Spades.to_string(), "s".to_string());
}

#[test]
fn suite_test_equality() {
    assert!(Suite::Diamonds == Suite::Diamonds);
    assert!(Suite::Clubs == Suite::Clubs);
    assert!(Suite::Hearts == Suite::Hearts);
    assert!(Suite::Spades == Suite::Spades);
}
