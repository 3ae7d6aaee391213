use poker_eden_core::Rank::{
    Ace, Eight, Five, Four, Jack, King, Nine, Queen, Seven, Six, Ten, Three, Two,
};
use poker_eden_core::Suit::{Club, Diamond, Heart, Spade};
use poker_eden_core::{evaluate_5_card_hand, find_best_hand, Card, HandRank, Rank, Suit};

fn card(rank: Rank, suit: Suit) -> Card {
    Card { rank, suit }
}

#[test]
fn test_royal_flush() {
    let hand = [card(Ten, Spade), card(Ace, Spade), card(Queen, Spade), card(King, Spade), card(Jack, Spade)];
    assert_eq!(evaluate_5_card_hand(&hand), HandRank::RoyalFlush);
}

#[test]
fn test_straight_flush() {
    let hand = [card(Nine, Heart), card(Ten, Heart), card(Eight, Heart), card(Jack, Heart), card(Seven, Heart)];
    assert_eq!(evaluate_5_card_hand(&hand), HandRank::StraightFlush(Jack));
}

#[test]
fn test_ace_low_straight_flush() {
    let hand = [card(Ace, Club), card(Two, Club), card(Three, Club), card(Four, Club), card(Five, Club)];
    assert_eq!(evaluate_5_card_hand(&hand), HandRank::StraightFlush(Five));
}

#[test]
fn test_four_of_a_kind() {
    let hand = [card(Ace, Spade), card(Ace, Heart), card(Ace, Diamond), card(Ace, Club), card(King, Spade)];
    assert_eq!(evaluate_5_card_hand(&hand), HandRank::FourOfAKind(Ace, King));
}

#[test]
fn test_full_house() {
    let hand = [card(King, Spade), card(King, Heart), card(King, Diamond), card(Queen, Club), card(Queen, Spade)];
    assert_eq!(evaluate_5_card_hand(&hand), HandRank::FullHouse(King, Queen));
}

#[test]
fn test_flush() {
    let hand = [card(Two, Diamond), card(Five, Diamond), card(Eight, Diamond), card(Jack, Diamond), card(Ace, Diamond)];
    assert_eq!(evaluate_5_card_hand(&hand), HandRank::Flush(Ace, Jack, Eight, Five, Two));
}

#[test]
fn test_straight() {
    let hand = [card(Ten, Spade), card(Nine, Heart), card(Eight, Diamond), card(Seven, Club), card(Six, Spade)];
    assert_eq!(evaluate_5_card_hand(&hand), HandRank::Straight(Ten));
}

#[test]
fn test_ace_low_straight() {
    let hand = [card(Ace, Spade), card(Two, Heart), card(Three, Diamond), card(Four, Club), card(Five, Spade)];
    assert_eq!(evaluate_5_card_hand(&hand), HandRank::Straight(Five));
}

#[test]
fn test_three_of_a_kind() {
    let hand = [card(Ten, Spade), card(Ten, Heart), card(Ten, Diamond), card(Jack, Club), card(Two, Spade)];
    assert_eq!(evaluate_5_card_hand(&hand), HandRank::ThreeOfAKind(Ten, Jack, Two));
}

#[test]
fn test_two_pair() {
    let hand = [card(Jack, Spade), card(Jack, Heart), card(Nine, Diamond), card(Nine, Club), card(Ten, Spade)];
    assert_eq!(evaluate_5_card_hand(&hand), HandRank::TwoPair(Jack, Nine, Ten));
}

#[test]
fn test_one_pair() {
    let hand = [card(Ace, Spade), card(Ace, Heart), card(King, Diamond), card(Queen, Club), card(Jack, Spade)];
    assert_eq!(evaluate_5_card_hand(&hand), HandRank::OnePair(Ace, King, Queen, Jack));
}

#[test]
fn test_high_card() {
    let hand = [card(King, Spade), card(Queen, Heart), card(Jack, Diamond), card(Nine, Club), card(Seven, Spade)];
    assert_eq!(evaluate_5_card_hand(&hand), HandRank::HighCard(King, Queen, Jack, Nine, Seven));
}

#[test]
fn test_best_hand_from_seven_is_flush() {
    let cards = [
        card(Ace, Heart), card(King, Heart),
        card(Ten, Heart), card(Two, Heart), card(Five, Heart),
        card(Ace, Spade), card(Ten, Club),
    ];
    assert_eq!(find_best_hand(&cards), Ok(HandRank::Flush(Ace, King, Ten, Five, Two)));
}

#[test]
fn test_best_hand_from_seven_is_full_house() {
    let cards = [
        card(Ten, Spade), card(Ten, Heart),
        card(Jack, Club), card(Jack, Diamond), card(Ten, Diamond),
        card(Two, Club), card(Three, Spade),
    ];
    assert_eq!(find_best_hand(&cards), Ok(HandRank::FullHouse(Ten, Jack)));
}

#[test]
fn test_best_hand_from_seven_plays_the_board() {
    let cards = [
        card(Two, Spade), card(Two, Heart),
        card(Ten, Club), card(Jack, Diamond), card(Queen, Heart),
        card(King, Spade), card(Ace, Club),
    ];
    assert_eq!(find_best_hand(&cards), Ok(HandRank::Straight(Ace)));
}

#[test]
fn test_best_hand_from_six() {
    let cards = [
        card(Ace, Spade), card(Ace, Heart), card(King, Spade),
        card(King, Heart), card(Queen, Spade), card(Jack, Spade),
    ];
    assert_eq!(find_best_hand(&cards), Ok(HandRank::TwoPair(Ace, King, Queen)));
}

#[test]
fn test_rank_comparison() {
    let full_house_kings = HandRank::FullHouse(King, Two);
    let full_house_queens = HandRank::FullHouse(Queen, Ace);
    let flush_king_high = HandRank::Flush(King, Jack, Ten, Five, Two);
    let flush_queen_high = HandRank::Flush(Queen, Jack, Ten, Five, Two);

    assert!(HandRank::RoyalFlush > HandRank::StraightFlush(King));
    assert!(HandRank::StraightFlush(King) > HandRank::FourOfAKind(Ace, King));
    assert!(full_house_kings > full_house_queens);
    assert!(flush_king_high > flush_queen_high);
}
