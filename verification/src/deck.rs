//! The deck: a fresh one, a shuffled one, and the cards drawn for a hand.

use crate::card::{Card, Rank, Suit};
use vstd::prelude::*;

verus! {

/// Number of cards in a deck.
pub const DECK_SIZE: usize = 52;

/// The most players a hand is dealt to.
pub const MAX_HAND_PLAYERS: usize = 10;

/// The card at a position of a fresh deck: suits in order, ranks ascending
/// within each suit.
pub open spec fn fresh_card(i: int) -> Card {
    Card { rank: Rank::from_value(i % 13), suit: Suit::from_value(i / 13) }
}

/// A fresh deck: each of the 52 cards once.
pub open spec fn fresh_deck() -> Seq<Card> {
    Seq::new(52, |i: int| fresh_card(i))
}

/// `deck` holds each of the 52 cards once, in any order.
pub open spec fn is_full_deck(deck: Seq<Card>) -> bool {
    deck.to_multiset() == fresh_deck().to_multiset()
}

/// How many cards were taken off the top of the deck before the card at
/// position `x` of a hand for `k` players. The hole cards are dealt one to
/// each player in turn, twice; a card is burnt before the flop, before the
/// turn and before the river.
pub open spec fn draw_number(x: int, k: int) -> int {
    if x < 2 * k {
        (x % 2) * k + x / 2
    } else if x < 2 * k + 3 {
        x + 1
    } else if x == 2 * k + 3 {
        2 * k + 5
    } else {
        2 * k + 7
    }
}

/// The cards of a hand for `k` players drawn from `deck`, whose top is its
/// last card: positions `2j` and `2j + 1` are player `j`'s hole cards, the
/// last five are the board.
pub open spec fn dealt_hand(deck: Seq<Card>, k: int) -> Seq<Card> {
    Seq::new((2 * k + 5) as nat, |x: int| deck[51 - draw_number(x, k)])
}

/// The cards of a fresh deck are pairwise different.
pub proof fn lemma_fresh_deck_distinct()
    ensures
        fresh_deck().len() == 52,
        fresh_deck().no_duplicates(),
{
}

/// A full deck has 52 cards, pairwise different.
pub proof fn lemma_full_deck_distinct(deck: Seq<Card>)
    requires
        is_full_deck(deck),
    ensures
        deck.len() == 52,
        deck.no_duplicates(),
{
    broadcast use vstd::seq_lib::to_multiset_len;

    lemma_fresh_deck_distinct();
    fresh_deck().lemma_multiset_has_no_duplicates();
    deck.lemma_multiset_has_no_duplicates_conv();
    assert(deck.len() == deck.to_multiset().len());
}

/// The draw of a hole card: the first round of dealing takes draws 0..k,
/// the second takes draws k..2k.
proof fn lemma_hole_draw(x: int, k: int)
    requires
        2 <= k,
        0 <= x < 2 * k,
    ensures
        x % 2 == 0 ==> draw_number(x, k) == x / 2,
        x % 2 != 0 ==> draw_number(x, k) == k + x / 2,
        0 <= x / 2 < k,
        x == 2 * (x / 2) + x % 2,
{
    if x % 2 == 0 {
        assert((x % 2) * k == 0) by (nonlinear_arith)
            requires
                x % 2 == 0,
        ;
    } else {
        assert((x % 2) * k == k) by (nonlinear_arith)
            requires
                x % 2 == 1,
        ;
    }
}

/// The draws of one hand are different cards of the deck.
pub proof fn lemma_draw_numbers_distinct(x: int, y: int, k: int)
    requires
        2 <= k <= 10,
        0 <= x < 2 * k + 5,
        0 <= y < 2 * k + 5,
        x != y,
    ensures
        0 <= draw_number(x, k) < 2 * k + 8,
        draw_number(x, k) != draw_number(y, k),
{
    if x < 2 * k {
        lemma_hole_draw(x, k);
    }
    if y < 2 * k {
        lemma_hole_draw(y, k);
    }
}

/// A hand dealt from a full deck holds no card twice.
pub proof fn lemma_dealt_hand_distinct(deck: Seq<Card>, k: int)
    requires
        is_full_deck(deck),
        2 <= k <= 10,
    ensures
        dealt_hand(deck, k).len() == 2 * k + 5,
        dealt_hand(deck, k).no_duplicates(),
{
    lemma_full_deck_distinct(deck);
    let hand = dealt_hand(deck, k);
    assert forall|x: int, y: int|
        0 <= x < hand.len() && 0 <= y < hand.len() && x != y implies hand[x] != hand[y] by {
        lemma_draw_numbers_distinct(x, y, k);
        lemma_draw_numbers_distinct(y, x, k);
    }
}

/// Builds a fresh deck.
pub fn create_deck() -> (deck: Vec<Card>)
    ensures
        deck@ == fresh_deck(),
{
    let mut deck: Vec<Card> = Vec::with_capacity(52);
    let mut s: u8 = 0;
    while s < 4
        invariant
            s <= 4,
            deck@.len() == s * 13,
            forall|i: int| 0 <= i < deck@.len() ==> deck@[i] == fresh_card(i),
        decreases 4 - s,
    {
        let suit = Suit::from_index(s);
        let mut r: u8 = 0;
        while r < 13
            invariant
                s < 4,
                r <= 13,
                suit == Suit::from_value(s as int),
                deck@.len() == s * 13 + r,
                forall|i: int| 0 <= i < deck@.len() ==> deck@[i] == fresh_card(i),
            decreases 13 - r,
        {
            let rank = Rank::from_index(r);
            deck.push(Card { rank, suit });
            r += 1;
        }
        s += 1;
    }
    deck
}

/// Shuffles the deck in place with `shuffle` of rand's `SliceRandom`, driven
/// by the thread-local generator that `rand::rng` hands out. The claim is
/// what every outcome has in common: the deck holds the same cards as
/// before, each as often as before.
#[verifier::external_body]
fn shuffle_cards(deck: &mut Vec<Card>)
    ensures
        final(deck)@.to_multiset() == old(deck)@.to_multiset(),
{
    rand::seq::SliceRandom::shuffle(deck.as_mut_slice(), &mut rand::rng());
}

/// Which position of the deck the card at position `x` of a hand comes from.
fn draw_index(x: usize, k: usize) -> (p: usize)
    requires
        2 <= k <= 10,
        x < 2 * k + 5,
    ensures
        p == 51 - draw_number(x as int, k as int),
        p < 52,
{
    proof {
        if x != 0 {
            lemma_draw_numbers_distinct(x as int, 0, k as int);
        } else {
            lemma_draw_numbers_distinct(x as int, 1, k as int);
        }
    }
    let n: usize = if x < 2 * k {
        proof {
            lemma_hole_draw(x as int, k as int);
        }
        if x % 2 == 0 {
            x / 2
        } else {
            k + x / 2
        }
    } else if x < 2 * k + 3 {
        x + 1
    } else if x == 2 * k + 3 {
        2 * k + 5
    } else {
        2 * k + 7
    };
    51 - n
}

/// Draws the cards of a hand for `k_players` players from `deck`, whose top
/// is its last card.
pub fn deal_from_deck(deck: &Vec<Card>, k_players: usize) -> (cards: Vec<Card>)
    requires
        deck@.len() == 52,
        2 <= k_players <= 10,
    ensures
        cards@ == dealt_hand(deck@, k_players as int),
{
    let total = 2 * k_players + 5;
    let mut cards: Vec<Card> = Vec::with_capacity(total);
    let mut x: usize = 0;
    while x < total
        invariant
            deck@.len() == 52,
            2 <= k_players <= 10,
            total == 2 * k_players + 5,
            x <= total,
            cards@.len() == x,
            forall|i: int|
                0 <= i < x ==> cards@[i] == deck@[51 - draw_number(i, k_players as int)],
        decreases total - x,
    {
        let p = draw_index(x, k_players);
        cards.push(deck[p]);
        x += 1;
    }
    cards
}

/// Shuffles a fresh deck and draws from it the cards of one hand: two hole
/// cards for each of `k_players` players and five board cards.
pub fn generate_random_hand(k_players: usize) -> (cards: Vec<Card>)
    requires
        2 <= k_players <= 10,
    ensures
        cards@.len() == 2 * k_players + 5,
        cards@.no_duplicates(),
        exists|deck: Seq<Card>|
            is_full_deck(deck) && cards@ == #[trigger] dealt_hand(deck, k_players as int),
{
    let mut deck = create_deck();
    shuffle_cards(&mut deck);
    proof {
        lemma_full_deck_distinct(deck@);
        lemma_dealt_hand_distinct(deck@, k_players as int);
    }
    deal_from_deck(&deck, k_players)
}

} // verus!
