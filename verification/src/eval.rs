//! Evaluation of a hand: five cards directly, six or seven by the best five.

use crate::card::{Card, HandRank, Rank};
use crate::combos::{combinations, contents, get_combinations, lemma_combinations_len};
use vstd::prelude::*;

verus! {

/// The ranks of the cards, in the order of the cards.
pub open spec fn ranks_of(cards: Seq<Card>) -> Seq<Rank> {
    cards.map_values(|c: Card| c.rank)
}

/// `r` put into a descending sequence, before the first entry that is not
/// higher than it.
pub open spec fn insert_desc(s: Seq<Rank>, r: Rank) -> Seq<Rank>
    decreases s.len(),
{
    if s.len() == 0 || r.value() >= s[0].value() {
        seq![r] + s
    } else {
        seq![s[0]] + insert_desc(s.drop_first(), r)
    }
}

/// The ranks arranged from highest to lowest.
pub open spec fn sort_desc(s: Seq<Rank>) -> Seq<Rank>
    decreases s.len(),
{
    if s.len() == 0 {
        Seq::empty()
    } else {
        insert_desc(sort_desc(s.drop_last()), s.last())
    }
}

/// No entry is lower than the one after it.
pub open spec fn is_descending(s: Seq<Rank>) -> bool {
    forall|i: int, j: int| 0 <= i < j < s.len() ==> s[i].value() >= s[j].value()
}

/// All cards share one suit.
pub open spec fn is_flush(cards: Seq<Card>) -> bool {
    forall|i: int| 0 <= i < cards.len() ==> (#[trigger] cards[i]).suit == cards[0].suit
}

/// The descending ranks A-5-4-3-2.
pub open spec fn is_wheel(r: Seq<Rank>) -> bool {
    &&& r.len() == 5
    &&& r[0] == Rank::Ace
    &&& r[1] == Rank::Five
    &&& r[2] == Rank::Four
    &&& r[3] == Rank::Three
    &&& r[4] == Rank::Two
}

/// Five descending ranks form a run: each is one above the next, or they are
/// the wheel.
pub open spec fn is_straight(r: Seq<Rank>) -> bool {
    ||| {
        &&& r.len() == 5
        &&& r[0].value() == r[1].value() + 1
        &&& r[1].value() == r[2].value() + 1
        &&& r[2].value() == r[3].value() + 1
        &&& r[3].value() == r[4].value() + 1
    }
    ||| is_wheel(r)
}

/// The top card of a run: Five for the wheel, else the highest rank.
pub open spec fn straight_high(r: Seq<Rank>) -> Rank {
    if is_wheel(r) {
        Rank::Five
    } else {
        r[0]
    }
}

/// The hand rank of five ranks given from highest to lowest, with `flush`
/// telling whether the five cards share a suit.
///
/// Groups of equal ranks are adjacent in `r`. They are listed larger group
/// first and, among groups of one size, higher rank first.
pub open spec fn classify(r: Seq<Rank>, flush: bool) -> HandRank {
    let (a, b, c, d, e) = (r[0], r[1], r[2], r[3], r[4]);
    if is_straight(r) && flush {
        if straight_high(r) == Rank::Ace {
            HandRank::RoyalFlush
        } else {
            HandRank::StraightFlush(straight_high(r))
        }
    } else if a == e {
        ungrouped(r, flush)
    } else if a == d {
        HandRank::FourOfAKind(a, e)
    } else if b == e {
        HandRank::FourOfAKind(b, a)
    } else if a == c && d == e {
        HandRank::FullHouse(a, d)
    } else if a == b && c == e {
        HandRank::FullHouse(c, a)
    } else if a == c {
        HandRank::ThreeOfAKind(a, d, e)
    } else if b == d {
        HandRank::ThreeOfAKind(b, a, e)
    } else if c == e {
        HandRank::ThreeOfAKind(c, a, b)
    } else if a == b && c == d {
        HandRank::TwoPair(a, c, e)
    } else if a == b && d == e {
        HandRank::TwoPair(a, d, c)
    } else if b == c && d == e {
        HandRank::TwoPair(b, d, a)
    } else if a == b {
        HandRank::OnePair(a, c, d, e)
    } else if b == c {
        HandRank::OnePair(b, a, d, e)
    } else if c == d {
        HandRank::OnePair(c, a, b, e)
    } else if d == e {
        HandRank::OnePair(d, a, b, c)
    } else {
        ungrouped(r, flush)
    }
}

/// The hand rank where no group of two, three or four equal ranks decides.
pub open spec fn ungrouped(r: Seq<Rank>, flush: bool) -> HandRank {
    if flush {
        HandRank::Flush(r[0], r[1], r[2], r[3], r[4])
    } else if is_straight(r) {
        HandRank::Straight(straight_high(r))
    } else {
        HandRank::HighCard(r[0], r[1], r[2], r[3], r[4])
    }
}

/// The hand rank of five cards.
pub open spec fn five_card_rank(cards: Seq<Card>) -> HandRank {
    classify(sort_desc(ranks_of(cards)), is_flush(cards))
}

/// Inserting at the first position whose entry is not higher gives `insert_desc`.
proof fn lemma_insert_desc_at(s: Seq<Rank>, r: Rank, pos: int)
    requires
        0 <= pos <= s.len(),
        forall|j: int| 0 <= j < pos ==> s[j].value() > r.value(),
        pos < s.len() ==> r.value() >= s[pos].value(),
    ensures
        insert_desc(s, r) == s.insert(pos, r),
    decreases pos,
{
    if pos != 0 {
        lemma_insert_desc_at(s.drop_first(), r, pos - 1);
    }
}

/// Puts `r` into a descending vector, keeping it descending.
fn insert_rank(out: &mut Vec<Rank>, r: Rank)
    ensures
        final(out)@ == insert_desc(old(out)@, r),
{
    let mut pos: usize = 0;
    while pos < out.len() && out[pos].index() > r.index()
        invariant
            pos <= out.len(),
            out@ == old(out)@,
            forall|j: int| 0 <= j < pos ==> out@[j].value() > r.value(),
        decreases out.len() - pos,
    {
        pos += 1;
    }
    proof {
        lemma_insert_desc_at(out@, r, pos as int);
    }
    out.insert(pos, r);
}

/// The ranks of five cards from highest to lowest.
fn sorted_ranks(hand: &[Card]) -> (out: Vec<Rank>)
    ensures
        out@ == sort_desc(ranks_of(hand@)),
{
    let mut out: Vec<Rank> = Vec::new();
    let mut k: usize = 0;
    while k < hand.len()
        invariant
            k <= hand.len(),
            out@ == sort_desc(ranks_of(hand@).take(k as int)),
        decreases hand.len() - k,
    {
        let r = hand[k].rank;
        proof {
            let next = ranks_of(hand@).take(k as int + 1);
            assert(next.drop_last() =~= ranks_of(hand@).take(k as int));
        }
        insert_rank(&mut out, r);
        k += 1;
    }
    proof {
        assert(ranks_of(hand@).take(hand.len() as int) =~= ranks_of(hand@));
    }
    out
}

/// Whether all cards share one suit.
fn all_one_suit(hand: &[Card]) -> (flush: bool)
    ensures
        flush == is_flush(hand@),
{
    let mut k: usize = 0;
    while k < hand.len()
        invariant
            k <= hand.len(),
            forall|i: int| 0 <= i < k ==> (#[trigger] hand@[i]).suit == hand@[0].suit,
        decreases hand.len() - k,
    {
        if hand[k].suit != hand[0].suit {
            return false;
        }
        k += 1;
    }
    true
}

/// Evaluates exactly five cards.
pub fn evaluate_5_card_hand(hand: &[Card]) -> (rank: HandRank)
    requires
        hand@.len() == 5,
    ensures
        rank == five_card_rank(hand@),
{
    let r = sorted_ranks(hand);
    let flush = all_one_suit(hand);
    proof {
        lemma_sort_desc_len(ranks_of(hand@));
    }
    let (a, b, c, d, e) = (r[0], r[1], r[2], r[3], r[4]);
    let wheel = a == Rank::Ace && b == Rank::Five && c == Rank::Four && d == Rank::Three && e
        == Rank::Two;
    let run = a.index() == b.index() + 1 && b.index() == c.index() + 1 && c.index() == d.index()
        + 1 && d.index() == e.index() + 1;
    let straight = run || wheel;
    let high = if wheel {
        Rank::Five
    } else {
        a
    };
    if straight && flush {
        return if high == Rank::Ace {
            HandRank::RoyalFlush
        } else {
            HandRank::StraightFlush(high)
        };
    }
    let grouped = if a == e {
        None
    } else if a == d {
        Some(HandRank::FourOfAKind(a, e))
    } else if b == e {
        Some(HandRank::FourOfAKind(b, a))
    } else if a == c && d == e {
        Some(HandRank::FullHouse(a, d))
    } else if a == b && c == e {
        Some(HandRank::FullHouse(c, a))
    } else if a == c {
        Some(HandRank::ThreeOfAKind(a, d, e))
    } else if b == d {
        Some(HandRank::ThreeOfAKind(b, a, e))
    } else if c == e {
        Some(HandRank::ThreeOfAKind(c, a, b))
    } else if a == b && c == d {
        Some(HandRank::TwoPair(a, c, e))
    } else if a == b && d == e {
        Some(HandRank::TwoPair(a, d, c))
    } else if b == c && d == e {
        Some(HandRank::TwoPair(b, d, a))
    } else if a == b {
        Some(HandRank::OnePair(a, c, d, e))
    } else if b == c {
        Some(HandRank::OnePair(b, a, d, e))
    } else if c == d {
        Some(HandRank::OnePair(c, a, b, e))
    } else if d == e {
        Some(HandRank::OnePair(d, a, b, c))
    } else {
        None
    };
    match grouped {
        Some(rank) => rank,
        None => {
            if flush {
                HandRank::Flush(a, b, c, d, e)
            } else if straight {
                HandRank::Straight(high)
            } else {
                HandRank::HighCard(a, b, c, d, e)
            }
        },
    }
}

/// Why a set of cards cannot be evaluated.
#[derive(Debug, PartialEq, Eq, Structural, Clone, Copy)]
pub enum HandError {
    /// Fewer than five cards, more than seven, or one card twice.
    InvalidInput,
}

/// Five to seven cards, no card twice.
pub open spec fn valid_hand_input(cards: Seq<Card>) -> bool {
    5 <= cards.len() <= 7 && cards.no_duplicates()
}

/// The strongest of the given hand ranks.
pub open spec fn strongest(ranks: Seq<HandRank>) -> HandRank
    decreases ranks.len(),
{
    if ranks.len() <= 1 {
        ranks[0]
    } else {
        let rest = strongest(ranks.drop_last());
        if ranks.last().score() > rest.score() {
            ranks.last()
        } else {
            rest
        }
    }
}

/// The hand rank of each of the given five-card hands.
pub open spec fn ranks_of_hands(hands: Seq<Seq<Card>>) -> Seq<HandRank> {
    hands.map_values(|h: Seq<Card>| five_card_rank(h))
}

/// The strongest hand rank that five of the cards make.
pub open spec fn best_hand(cards: Seq<Card>) -> HandRank {
    strongest(ranks_of_hands(combinations(cards, 5)))
}

/// `strongest` is one of the ranks, and none of them is stronger.
pub proof fn lemma_strongest_is_maximum(ranks: Seq<HandRank>)
    requires
        ranks.len() > 0,
    ensures
        ranks.contains(strongest(ranks)),
        forall|i: int| 0 <= i < ranks.len() ==> (#[trigger] ranks[i]).at_most(strongest(ranks)),
    decreases ranks.len(),
{
    if ranks.len() > 1 {
        let front = ranks.drop_last();
        lemma_strongest_is_maximum(front);
        assert forall|i: int| 0 <= i < ranks.len() implies (#[trigger] ranks[i]).at_most(
            strongest(ranks),
        ) by {
            if i < front.len() {
                assert(front[i] == ranks[i]);
            }
        }
    }
}

/// Whether some card occurs twice.
fn has_duplicate(cards: &[Card]) -> (dup: bool)
    ensures
        dup == !cards@.no_duplicates(),
{
    let mut i: usize = 0;
    while i < cards.len()
        invariant
            i <= cards.len(),
            forall|a: int, b: int| 0 <= a < i && 0 <= b < cards.len() && a != b ==> cards@[a] != cards@[b],
        decreases cards.len() - i,
    {
        let mut j: usize = i + 1;
        while j < cards.len()
            invariant
                i < cards.len(),
                i < j <= cards.len(),
                forall|b: int| i < b < j ==> cards@[i as int] != cards@[b],
            decreases cards.len() - j,
        {
            if cards[i] == cards[j] {
                return true;
            }
            j += 1;
        }
        i += 1;
    }
    false
}

/// Finds the strongest five-card hand among five to seven cards, by trying
/// every choice of five.
pub fn find_best_hand(all_cards: &[Card]) -> (result: Result<HandRank, HandError>)
    ensures
        valid_hand_input(all_cards@) ==> result == Ok::<HandRank, HandError>(
            best_hand(all_cards@),
        ),
        !valid_hand_input(all_cards@) ==> result == Err::<HandRank, HandError>(
            HandError::InvalidInput,
        ),
{
    let count = all_cards.len();
    if count < 5 || count > 7 || has_duplicate(all_cards) {
        return Err(HandError::InvalidInput);
    }
    let hands = get_combinations(all_cards, 5);
    let ghost all = ranks_of_hands(combinations(all_cards@, 5));
    proof {
        lemma_combinations_len(all_cards@, 5);
        crate::combos::lemma_combinations_nonempty(all_cards@, 5);
    }
    let mut best = evaluate_5_card_hand(hands[0].as_slice());
    let mut i: usize = 1;
    while i < hands.len()
        invariant
            1 <= i <= hands.len(),
            contents(hands@) == combinations(all_cards@, 5),
            all == ranks_of_hands(combinations(all_cards@, 5)),
            all.len() == hands.len(),
            forall|j: int|
                0 <= j < hands.len() ==> (#[trigger] combinations(all_cards@, 5)[j]).len() == 5,
            best == strongest(all.take(i as int)),
        decreases hands.len() - i,
    {
        proof {
            assert(contents(hands@)[i as int] == hands@[i as int]@);
        }
        let rank = evaluate_5_card_hand(hands[i].as_slice());
        proof {
            let next = all.take(i as int + 1);
            assert(next.drop_last() =~= all.take(i as int));
        }
        if rank.beats(&best) {
            best = rank;
        }
        i += 1;
    }
    proof {
        assert(all.take(hands.len() as int) =~= all);
    }
    Ok(best)
}

/// A rank put into a descending sequence leaves it descending, and adds
/// just that rank.
pub proof fn lemma_insert_desc_sorted(s: Seq<Rank>, r: Rank)
    requires
        is_descending(s),
    ensures
        is_descending(insert_desc(s, r)),
        insert_desc(s, r).to_multiset() == s.to_multiset().insert(r),
    decreases s.len(),
{
    broadcast use vstd::seq_lib::group_to_multiset_ensures;

    let out = insert_desc(s, r);
    if s.len() == 0 || r.value() >= s[0].value() {
        assert(out =~= s.insert(0, r));
    } else {
        let rest = s.drop_first();
        lemma_insert_desc_sorted(rest, r);
        lemma_insert_desc_len(rest, r);
        let tail = insert_desc(rest, r);
        assert forall|x: Rank| tail.contains(x) implies s[0].value() >= x.value() by {
            assert(tail.to_multiset().count(x) > 0);
        }
        assert forall|i: int, j: int| 0 <= i < j < out.len() implies out[i].value()
            >= out[j].value() by {
            assert(tail.contains(tail[j - 1]));
        }
        assert(out =~= tail.insert(0, s[0]));
        assert(s =~= rest.insert(0, s[0]));
    }
}

/// The sorted ranks are the given ranks, each as often as given, and none
/// of them is lower than one after it.
pub proof fn lemma_sort_desc_sorted(s: Seq<Rank>)
    ensures
        is_descending(sort_desc(s)),
        sort_desc(s).to_multiset() == s.to_multiset(),
    decreases s.len(),
{
    broadcast use vstd::seq_lib::group_to_multiset_ensures;

    if s.len() > 0 {
        lemma_sort_desc_sorted(s.drop_last());
        lemma_insert_desc_sorted(sort_desc(s.drop_last()), s.last());
        assert(s =~= s.drop_last().push(s.last()));
    }
}

/// Sorting keeps the number of ranks.
pub proof fn lemma_sort_desc_len(s: Seq<Rank>)
    ensures
        sort_desc(s).len() == s.len(),
    decreases s.len(),
{
    if s.len() > 0 {
        lemma_sort_desc_len(s.drop_last());
        lemma_insert_desc_len(sort_desc(s.drop_last()), s.last());
    }
}

/// Inserting adds one rank.
pub proof fn lemma_insert_desc_len(s: Seq<Rank>, r: Rank)
    ensures
        insert_desc(s, r).len() == s.len() + 1,
    decreases s.len(),
{
    if !(s.len() == 0 || r.value() >= s[0].value()) {
        lemma_insert_desc_len(s.drop_first(), r);
    }
}

} // verus!
