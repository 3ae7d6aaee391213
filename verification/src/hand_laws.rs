//! The best hand does not depend on the order in which the cards are given.

use crate::card::{lemma_rank_value_bijective, lemma_score_injective, Card, HandRank, Rank, Suit};
use crate::combos::{combinations, lemma_combinations_len, lemma_combinations_nonempty};
use crate::eval::{
    best_hand, classify, five_card_rank, is_descending, is_flush, is_straight, is_wheel,
    lemma_sort_desc_sorted, lemma_strongest_is_maximum, ranks_of, ranks_of_hands, sort_desc,
    strongest, valid_hand_input,
};
use vstd::multiset::Multiset;
use vstd::prelude::*;
use vstd::relations::{sorted_by, total_ordering};

verus! {

/// How often a rank occurs among cards, in any suit.
pub open spec fn rank_occurrences(cards: Multiset<Card>, r: Rank) -> nat {
    cards.count(Card { rank: r, suit: Suit::Spade }) + cards.count(
        Card { rank: r, suit: Suit::Heart },
    ) + cards.count(Card { rank: r, suit: Suit::Club }) + cards.count(
        Card { rank: r, suit: Suit::Diamond },
    )
}

/// The ranks of cards occur as often as the cards of each rank do.
proof fn lemma_rank_counts(cards: Seq<Card>, r: Rank)
    ensures
        ranks_of(cards).to_multiset().count(r) == rank_occurrences(cards.to_multiset(), r),
    decreases cards.len(),
{
    broadcast use vstd::seq_lib::group_to_multiset_ensures;
    broadcast use vstd::multiset::group_multiset_axioms;

    if cards.len() == 0 {
        assert(ranks_of(cards) =~= Seq::<Rank>::empty());
        assert(cards.to_multiset() =~= Multiset::<Card>::empty());
        assert(ranks_of(cards).to_multiset() =~= Multiset::<Rank>::empty());
    } else {
        let front = cards.drop_last();
        let last = cards.last();
        lemma_rank_counts(front, r);
        assert(cards =~= front.push(last));
        assert(ranks_of(cards) =~= ranks_of(front).push(last.rank));
        assert(cards.to_multiset() =~= front.to_multiset().insert(last));
        assert(ranks_of(cards).to_multiset() =~= ranks_of(front).to_multiset().insert(last.rank));
    }
}

/// The order of ranks from high to low.
pub open spec fn higher_or_same() -> spec_fn(Rank, Rank) -> bool {
    |a: Rank, b: Rank| a.value() >= b.value()
}

/// Cards that are the same but for their order have the same ranks from
/// highest to lowest.
pub proof fn lemma_sorted_ranks_of_same_cards(a: Seq<Card>, b: Seq<Card>)
    requires
        a.to_multiset() == b.to_multiset(),
    ensures
        sort_desc(ranks_of(a)) == sort_desc(ranks_of(b)),
{
    let x = sort_desc(ranks_of(a));
    let y = sort_desc(ranks_of(b));
    lemma_sort_desc_sorted(ranks_of(a));
    lemma_sort_desc_sorted(ranks_of(b));
    assert(ranks_of(a).to_multiset() =~= ranks_of(b).to_multiset()) by {
        assert forall|r: Rank| ranks_of(a).to_multiset().count(r) == ranks_of(b).to_multiset().count(
            r,
        ) by {
            lemma_rank_counts(a, r);
            lemma_rank_counts(b, r);
        }
    }
    let leq = higher_or_same();
    assert(total_ordering(leq)) by {
        assert forall|p: Rank, q: Rank| #[trigger] leq(p, q) && #[trigger] leq(q, p) implies p
            == q by {
            lemma_rank_value_bijective(p);
            lemma_rank_value_bijective(q);
        }
    }
    vstd::seq_lib::lemma_sorted_unique(x, y, leq);
}

/// Cards that are the same but for their order share one suit or do not.
pub proof fn lemma_flush_of_same_cards(a: Seq<Card>, b: Seq<Card>)
    requires
        a.to_multiset() == b.to_multiset(),
    ensures
        is_flush(a) == is_flush(b),
{
    if is_flush(a) {
        lemma_flush_carries_over(a, b);
    }
    if is_flush(b) {
        lemma_flush_carries_over(b, a);
    }
}

proof fn lemma_flush_carries_over(a: Seq<Card>, b: Seq<Card>)
    requires
        a.to_multiset() == b.to_multiset(),
        is_flush(a),
    ensures
        is_flush(b),
{
    broadcast use vstd::seq_lib::group_to_multiset_ensures;

    assert forall|i: int| 0 <= i < b.len() implies (#[trigger] b[i]).suit == b[0].suit by {
        assert(b.contains(b[i]));
        assert(b.contains(b[0]));
        assert(a.to_multiset().count(b[i]) > 0);
        assert(a.to_multiset().count(b[0]) > 0);
        assert(a.contains(b[i]));
        assert(a.contains(b[0]));
        let m = choose|m: int| 0 <= m < a.len() && a[m] == b[i];
        let n = choose|n: int| 0 <= n < a.len() && a[n] == b[0];
        assert(a[m].suit == a[0].suit);
        assert(a[n].suit == a[0].suit);
    }
}

/// Law of the five cards: the rank of a hand does not depend on the order
/// of its cards.
pub proof fn lemma_five_card_rank_of_same_cards(a: Seq<Card>, b: Seq<Card>)
    requires
        a.to_multiset() == b.to_multiset(),
    ensures
        five_card_rank(a) == five_card_rank(b),
{
    lemma_sorted_ranks_of_same_cards(a, b);
    lemma_flush_of_same_cards(a, b);
}

/// The entries of a sequence that are in `keep`, in their order.
pub open spec fn picked<T>(s: Seq<T>, keep: Set<T>) -> Seq<T>
    decreases s.len(),
{
    if s.len() == 0 {
        Seq::empty()
    } else if keep.contains(s[0]) {
        seq![s[0]] + picked(s.drop_first(), keep)
    } else {
        picked(s.drop_first(), keep)
    }
}

/// Picking takes no more entries than there are.
proof fn lemma_picked_len<T>(s: Seq<T>, keep: Set<T>)
    ensures
        picked(s, keep).len() <= s.len(),
    decreases s.len(),
{
    if s.len() > 0 {
        lemma_picked_len(s.drop_first(), keep);
    }
}

/// What is picked from a sequence is one of its combinations.
proof fn lemma_picked_is_combination<T>(s: Seq<T>, keep: Set<T>)
    ensures
        combinations(s, picked(s, keep).len()).contains(picked(s, keep)),
    decreases s.len(),
{
    let p = picked(s, keep);
    let k = p.len();
    if s.len() == 0 {
        assert(combinations(s, 0)[0] == p);
    } else {
        let rest = s.drop_first();
        let q = picked(rest, keep);
        lemma_picked_is_combination(rest, keep);
        lemma_picked_len(rest, keep);
        let i = choose|i: int|
            0 <= i < combinations(rest, q.len()).len() && combinations(rest, q.len())[i] == q;
        if keep.contains(s[0]) {
            let shorter = combinations(rest, (k - 1) as nat);
            let with_first = shorter.map_values(|c: Seq<T>| seq![s[0]] + c);
            assert(with_first[i] == seq![s[0]] + shorter[i]);
            assert(combinations(s, k)[i] == p);
        } else if k == 0 {
            assert(p =~= Seq::<T>::empty());
            assert(combinations(s, 0)[0] == p);
        } else {
            let shorter = combinations(rest, (k - 1) as nat);
            let with_first = shorter.map_values(|c: Seq<T>| seq![s[0]] + c);
            let without = combinations(rest, k);
            assert((with_first + without)[with_first.len() + i] == without[i]);
            assert(combinations(s, k)[with_first.len() + i] == p);
        }
    }
}

/// What is picked from a sequence without duplicates holds just the
/// entries that are in `keep`, each once.
proof fn lemma_picked_counts<T>(s: Seq<T>, keep: Set<T>, x: T)
    requires
        s.no_duplicates(),
    ensures
        picked(s, keep).to_multiset().count(x) == if keep.contains(x) && s.contains(x) {
            1nat
        } else {
            0nat
        },
    decreases s.len(),
{
    broadcast use vstd::seq_lib::group_to_multiset_ensures;
    broadcast use vstd::multiset::group_multiset_axioms;

    if s.len() == 0 {
        assert(picked(s, keep).to_multiset() =~= Multiset::<T>::empty());
    } else {
        let rest = s.drop_first();
        assert forall|i: int, j: int|
            0 <= i < rest.len() && 0 <= j < rest.len() && i != j implies rest[i] != rest[j] by {
            assert(s[i + 1] != s[j + 1]);
        }
        lemma_picked_counts(rest, keep, x);
        assert(rest.contains(x) ==> s.contains(x)) by {
            if rest.contains(x) {
                let j = choose|j: int| 0 <= j < rest.len() && rest[j] == x;
                assert(s[j + 1] == x);
            }
        }
        assert(s.contains(x) ==> (x == s[0] || rest.contains(x))) by {
            if s.contains(x) {
                let j = choose|j: int| 0 <= j < s.len() && s[j] == x;
                if j > 0 {
                    assert(rest[j - 1] == x);
                }
            }
        }
        assert(!rest.contains(s[0])) by {
            if rest.contains(s[0]) {
                let j = choose|j: int| 0 <= j < rest.len() && rest[j] == s[0];
                assert(s[j + 1] == s[0]);
            }
        }
        assert(s.contains(s[0]));
        if keep.contains(s[0]) {
            let tail = picked(rest, keep);
            assert(picked(s, keep) =~= tail.insert(0, s[0]));
            assert(picked(s, keep).to_multiset() =~= tail.to_multiset().insert(s[0]));
        }
    }
}

/// A combination of a sequence holds entries of the sequence, and none
/// twice where the sequence holds none twice.
proof fn lemma_combination_entries<T>(s: Seq<T>, k: nat, i: int)
    requires
        0 <= i < combinations(s, k).len(),
    ensures
        forall|j: int|
            0 <= j < combinations(s, k)[i].len() ==> s.contains(#[trigger] combinations(s, k)[i][j]),
        s.no_duplicates() ==> combinations(s, k)[i].no_duplicates(),
    decreases s.len(),
{
    let c = combinations(s, k)[i];
    if k == 0 {
    } else if s.len() < k {
    } else {
        let rest = s.drop_first();
        let shorter = combinations(rest, (k - 1) as nat);
        let with_first = shorter.map_values(|c: Seq<T>| seq![s[0]] + c);
        let without = combinations(rest, k);
        if i < with_first.len() {
            let d = shorter[i];
            lemma_combination_entries(rest, (k - 1) as nat, i);
            assert(c == seq![s[0]] + d);
            assert forall|j: int| 0 <= j < c.len() implies s.contains(#[trigger] c[j]) by {
                if j == 0 {
                    assert(s[0] == c[0]);
                } else {
                    assert(c[j] == d[j - 1]);
                    assert(rest.contains(d[j - 1]));
                    let m = choose|m: int| 0 <= m < rest.len() && rest[m] == d[j - 1];
                    assert(s[m + 1] == c[j]);
                }
            }
            if s.no_duplicates() {
                assert forall|a: int, b: int|
                    0 <= a < rest.len() && 0 <= b < rest.len() && a != b implies rest[a]
                    != rest[b] by {
                    assert(s[a + 1] != s[b + 1]);
                }
                assert forall|a: int, b: int|
                    0 <= a < c.len() && 0 <= b < c.len() && a != b implies c[a] != c[b] by {
                    if a > 0 && b > 0 {
                        assert(d[a - 1] != d[b - 1]);
                    } else {
                        let other = if a == 0 {
                            b
                        } else {
                            a
                        };
                        assert(c[other] == d[other - 1]);
                        assert(rest.contains(d[other - 1]));
                        let m = choose|m: int| 0 <= m < rest.len() && rest[m] == d[other - 1];
                        assert(s[m + 1] != s[0]);
                    }
                }
            }
        } else {
            let n = i - with_first.len();
            assert(c == without[n]);
            lemma_combination_entries(rest, k, n);
            assert forall|j: int| 0 <= j < c.len() implies s.contains(#[trigger] c[j]) by {
                assert(rest.contains(c[j]));
                let m = choose|m: int| 0 <= m < rest.len() && rest[m] == c[j];
                assert(s[m + 1] == c[j]);
            }
            if s.no_duplicates() {
                assert forall|a: int, b: int|
                    0 <= a < rest.len() && 0 <= b < rest.len() && a != b implies rest[a]
                    != rest[b] by {
                    assert(s[a + 1] != s[b + 1]);
                }
            }
        }
    }
}

/// Every hand of five that can be made of cards can be made of the same
/// cards in another order, but for the order of the hand.
proof fn lemma_combination_of_same_cards(a: Seq<Card>, b: Seq<Card>, i: int)
    requires
        a.no_duplicates(),
        b.no_duplicates(),
        a.to_multiset() == b.to_multiset(),
        0 <= i < combinations(b, 5).len(),
    ensures
        exists|j: int|
            0 <= j < combinations(a, 5).len() && (#[trigger] combinations(a, 5)[j]).to_multiset()
                == combinations(b, 5)[i].to_multiset(),
{
    broadcast use vstd::seq_lib::group_to_multiset_ensures;
    broadcast use vstd::multiset::group_multiset_axioms;

    let c = combinations(b, 5)[i];
    lemma_combinations_len(b, 5);
    lemma_combination_entries(b, 5, i);
    let keep = c.to_set();
    let d = picked(a, keep);
    c.lemma_multiset_has_no_duplicates();
    assert forall|x: Card| d.to_multiset().count(x) == c.to_multiset().count(x) by {
        lemma_picked_counts(a, keep, x);
        if c.contains(x) {
            let j = choose|j: int| 0 <= j < c.len() && c[j] == x;
            assert(b.contains(c[j]));
            assert(b.to_multiset().count(x) > 0);
            assert(a.contains(x));
            assert(c.to_multiset().count(x) > 0);
        } else {
            assert(c.to_multiset().count(x) == 0);
        }
    }
    assert(d.to_multiset() =~= c.to_multiset());
    assert(d.len() == d.to_multiset().len());
    assert(c.len() == c.to_multiset().len());
    lemma_picked_is_combination(a, keep);
    let j = choose|j: int| 0 <= j < combinations(a, 5).len() && combinations(a, 5)[j] == d;
    assert(combinations(a, 5)[j].to_multiset() == c.to_multiset());
}

/// The best hand of cards is no stronger than the best hand of the same
/// cards in another order.
proof fn lemma_best_hand_at_most(a: Seq<Card>, b: Seq<Card>)
    requires
        valid_hand_input(a),
        valid_hand_input(b),
        a.to_multiset() == b.to_multiset(),
    ensures
        best_hand(b).at_most(best_hand(a)),
{
    let hands_a = combinations(a, 5);
    let hands_b = combinations(b, 5);
    let ranks_a = ranks_of_hands(hands_a);
    let ranks_b = ranks_of_hands(hands_b);
    lemma_combinations_nonempty(a, 5);
    lemma_combinations_nonempty(b, 5);
    lemma_strongest_is_maximum(ranks_a);
    lemma_strongest_is_maximum(ranks_b);
    let i = choose|i: int| 0 <= i < ranks_b.len() && ranks_b[i] == strongest(ranks_b);
    assert(ranks_b[i] == five_card_rank(hands_b[i]));
    lemma_combination_of_same_cards(a, b, i);
    let j = choose|j: int|
        0 <= j < hands_a.len() && (#[trigger] hands_a[j]).to_multiset() == hands_b[i].to_multiset();
    lemma_five_card_rank_of_same_cards(hands_a[j], hands_b[i]);
    assert(ranks_a[j] == five_card_rank(hands_a[j]));
    assert(ranks_a[j].at_most(strongest(ranks_a)));
}

/// Law of the best hand: the best hand of five to seven cards does not
/// depend on the order in which the cards are given.
pub proof fn lemma_best_hand_of_same_cards(a: Seq<Card>, b: Seq<Card>)
    requires
        valid_hand_input(a),
        a.to_multiset() == b.to_multiset(),
    ensures
        valid_hand_input(b),
        best_hand(a) == best_hand(b),
{
    broadcast use vstd::seq_lib::group_to_multiset_ensures;

    a.lemma_multiset_has_no_duplicates();
    b.lemma_multiset_has_no_duplicates_conv();
    assert(a.len() == a.to_multiset().len());
    lemma_best_hand_at_most(a, b);
    lemma_best_hand_at_most(b, a);
    lemma_score_injective(best_hand(a), best_hand(b));
}

/// How often a rank occurs among five ranks.
pub open spec fn occurrences(r: Seq<Rank>, x: Rank) -> int {
    (if r[0] == x {
        1int
    } else {
        0int
    }) + (if r[1] == x {
        1int
    } else {
        0int
    }) + (if r[2] == x {
        1int
    } else {
        0int
    }) + (if r[3] == x {
        1int
    } else {
        0int
    }) + (if r[4] == x {
        1int
    } else {
        0int
    })
}

/// What a hand rank says of five ranks, by the rules of poker.
///
/// Four of a kind names the rank that occurs four times and the kicker; a
/// full house the rank of the three and the rank of the pair; three of a
/// kind the rank of the three and the two kickers, higher first; two pair
/// the higher pair, the lower pair and the kicker; one pair the pair and
/// the three kickers from high to low; a straight or a straight flush the
/// top of a run of five, which for the wheel is the five; a royal flush is
/// the run up to the ace in one suit; a flush and a high card name all
/// five ranks from high to low.
pub open spec fn names_hand(rank: HandRank, r: Seq<Rank>, flush: bool) -> bool {
    match rank {
        HandRank::RoyalFlush => flush && is_straight(r) && !is_wheel(r) && r[0] == Rank::Ace,
        HandRank::StraightFlush(top) => flush && is_straight(r) && top != Rank::Ace && if is_wheel(
            r,
        ) {
            top == Rank::Five
        } else {
            top == r[0]
        },
        HandRank::FourOfAKind(four, kicker) => occurrences(r, four) == 4 && occurrences(r, kicker)
            == 1,
        HandRank::FullHouse(three, pair) => occurrences(r, three) == 3 && occurrences(r, pair) == 2,
        HandRank::Flush(a, b, c, d, e) => flush && !is_straight(r) && r == seq![a, b, c, d, e],
        HandRank::Straight(top) => !flush && is_straight(r) && if is_wheel(r) {
            top == Rank::Five
        } else {
            top == r[0]
        },
        HandRank::ThreeOfAKind(three, high, low) => occurrences(r, three) == 3 && occurrences(
            r,
            high,
        ) == 1 && occurrences(r, low) == 1 && high.value() > low.value(),
        HandRank::TwoPair(high, low, kicker) => occurrences(r, high) == 2 && occurrences(r, low)
            == 2 && occurrences(r, kicker) == 1 && high.value() > low.value(),
        HandRank::OnePair(pair, a, b, c) => occurrences(r, pair) == 2 && occurrences(r, a) == 1
            && occurrences(r, b) == 1 && occurrences(r, c) == 1 && a.value() > b.value()
            > c.value(),
        HandRank::HighCard(a, b, c, d, e) => !flush && !is_straight(r) && r == seq![a, b, c, d, e],
    }
}

/// Ranks at one position are the same rank.
proof fn lemma_same_value_same_rank(x: Rank, y: Rank)
    requires
        x.value() == y.value(),
    ensures
        x == y,
{
    lemma_rank_value_bijective(x);
    lemma_rank_value_bijective(y);
}

/// Law of the hand ranks: the rank given to five ranks from high to low
/// says of them what the rules of poker say, as long as no rank occurs
/// five times.
pub proof fn lemma_classify_names_hand(r: Seq<Rank>, flush: bool)
    requires
        r.len() == 5,
        is_descending(r),
        r[0] != r[4],
    ensures
        names_hand(classify(r, flush), r, flush),
{
    let (a, b, c, d, e) = (r[0], r[1], r[2], r[3], r[4]);
    assert(a.value() > e.value()) by {
        if a.value() == e.value() {
            lemma_same_value_same_rank(a, e);
        }
    }
    assert(a == b <==> a.value() == b.value()) by {
        if a.value() == b.value() {
            lemma_same_value_same_rank(a, b);
        }
    }
    assert(b == c <==> b.value() == c.value()) by {
        if b.value() == c.value() {
            lemma_same_value_same_rank(b, c);
        }
    }
    assert(c == d <==> c.value() == d.value()) by {
        if c.value() == d.value() {
            lemma_same_value_same_rank(c, d);
        }
    }
    assert(d == e <==> d.value() == e.value()) by {
        if d.value() == e.value() {
            lemma_same_value_same_rank(d, e);
        }
    }
    assert(a == c ==> a == b && b == c) by {
        if a == c {
            lemma_same_value_same_rank(a, b);
        }
    }
    assert(b == d ==> b == c && c == d) by {
        if b == d {
            lemma_same_value_same_rank(b, c);
        }
    }
    assert(c == e ==> c == d && d == e) by {
        if c == e {
            lemma_same_value_same_rank(c, d);
        }
    }
    assert(a == d ==> a == b && b == c && c == d) by {
        if a == d {
            lemma_same_value_same_rank(a, b);
            lemma_same_value_same_rank(b, c);
        }
    }
    assert(b == e ==> b == c && c == d && d == e) by {
        if b == e {
            lemma_same_value_same_rank(b, c);
            lemma_same_value_same_rank(c, d);
        }
    }
    assert(r =~= seq![a, b, c, d, e]);
}

} // verus!
