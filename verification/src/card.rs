//! The 52-card model and the totally ordered hand ranks.

use vstd::prelude::*;

verus! {

/// One of the four suits. Suits carry no order in the game.
#[derive(Debug, PartialEq, Eq, Structural, PartialOrd, Ord, Hash, Clone, Copy)]
pub enum Suit {
    Spade,
    Heart,
    Club,
    Diamond,
}

/// Card ranks, Two lowest and Ace highest.
#[derive(Debug, PartialEq, Eq, Structural, PartialOrd, Ord, Hash, Clone, Copy)]
pub enum Rank {
    Two,
    Three,
    Four,
    Five,
    Six,
    Seven,
    Eight,
    Nine,
    Ten,
    Jack,
    Queen,
    King,
    Ace,
}

/// A playing card.
#[derive(Debug, PartialEq, Eq, Structural, PartialOrd, Ord, Hash, Clone, Copy)]
pub struct Card {
    pub rank: Rank,
    pub suit: Suit,
}

/// The strength of a five-card hand. Variants are listed from weakest to
/// strongest; the fields are the tiebreakers, most significant first.
#[derive(Debug, PartialEq, Eq, Structural, Clone, Copy)]
pub enum HandRank {
    HighCard(Rank, Rank, Rank, Rank, Rank),
    OnePair(Rank, Rank, Rank, Rank),
    TwoPair(Rank, Rank, Rank),
    ThreeOfAKind(Rank, Rank, Rank),
    /// Carries the top card of the run (Five for A-2-3-4-5).
    Straight(Rank),
    Flush(Rank, Rank, Rank, Rank, Rank),
    /// (rank of the three, rank of the pair)
    FullHouse(Rank, Rank),
    /// (rank of the four, kicker)
    FourOfAKind(Rank, Rank),
    /// Carries the top card of the run.
    StraightFlush(Rank),
    RoyalFlush,
}

impl Rank {
    /// Position of the rank, Two = 0 up to Ace = 12.
    pub open spec fn value(self) -> int {
        match self {
            Rank::Two => 0,
            Rank::Three => 1,
            Rank::Four => 2,
            Rank::Five => 3,
            Rank::Six => 4,
            Rank::Seven => 5,
            Rank::Eight => 6,
            Rank::Nine => 7,
            Rank::Ten => 8,
            Rank::Jack => 9,
            Rank::Queen => 10,
            Rank::King => 11,
            Rank::Ace => 12,
        }
    }

    /// The rank at a position, inverse of `value` on 0..13.
    pub open spec fn from_value(v: int) -> Rank {
        if v == 0 {
            Rank::Two
        } else if v == 1 {
            Rank::Three
        } else if v == 2 {
            Rank::Four
        } else if v == 3 {
            Rank::Five
        } else if v == 4 {
            Rank::Six
        } else if v == 5 {
            Rank::Seven
        } else if v == 6 {
            Rank::Eight
        } else if v == 7 {
            Rank::Nine
        } else if v == 8 {
            Rank::Ten
        } else if v == 9 {
            Rank::Jack
        } else if v == 10 {
            Rank::Queen
        } else if v == 11 {
            Rank::King
        } else {
            Rank::Ace
        }
    }

    pub fn index(self) -> (v: u8)
        ensures
            v == self.value(),
            v < 13,
    {
        match self {
            Rank::Two => 0,
            Rank::Three => 1,
            Rank::Four => 2,
            Rank::Five => 3,
            Rank::Six => 4,
            Rank::Seven => 5,
            Rank::Eight => 6,
            Rank::Nine => 7,
            Rank::Ten => 8,
            Rank::Jack => 9,
            Rank::Queen => 10,
            Rank::King => 11,
            Rank::Ace => 12,
        }
    }

    pub fn from_index(v: u8) -> (r: Rank)
        requires
            v < 13,
        ensures
            r == Rank::from_value(v as int),
            r.value() == v,
    {
        if v == 0 {
            Rank::Two
        } else if v == 1 {
            Rank::Three
        } else if v == 2 {
            Rank::Four
        } else if v == 3 {
            Rank::Five
        } else if v == 4 {
            Rank::Six
        } else if v == 5 {
            Rank::Seven
        } else if v == 6 {
            Rank::Eight
        } else if v == 7 {
            Rank::Nine
        } else if v == 8 {
            Rank::Ten
        } else if v == 9 {
            Rank::Jack
        } else if v == 10 {
            Rank::Queen
        } else if v == 11 {
            Rank::King
        } else {
            Rank::Ace
        }
    }
}

impl Suit {
    /// Position of the suit in declaration order, 0..4.
    pub open spec fn value(self) -> int {
        match self {
            Suit::Spade => 0,
            Suit::Heart => 1,
            Suit::Club => 2,
            Suit::Diamond => 3,
        }
    }

    pub open spec fn from_value(v: int) -> Suit {
        if v == 0 {
            Suit::Spade
        } else if v == 1 {
            Suit::Heart
        } else if v == 2 {
            Suit::Club
        } else {
            Suit::Diamond
        }
    }

    pub fn index(self) -> (v: u8)
        ensures
            v == self.value(),
            v < 4,
    {
        match self {
            Suit::Spade => 0,
            Suit::Heart => 1,
            Suit::Club => 2,
            Suit::Diamond => 3,
        }
    }

    pub fn from_index(v: u8) -> (s: Suit)
        requires
            v < 4,
        ensures
            s == Suit::from_value(v as int),
            s.value() == v,
    {
        if v == 0 {
            Suit::Spade
        } else if v == 1 {
            Suit::Heart
        } else if v == 2 {
            Suit::Club
        } else {
            Suit::Diamond
        }
    }
}

impl Card {
    pub fn new(rank: Rank, suit: Suit) -> (card: Card)
        ensures
            card == (Card { rank, suit }),
    {
        Card { rank, suit }
    }

}

impl HandRank {
    /// The category of the hand, HighCard = 0 up to RoyalFlush = 9.
    pub open spec fn category(self) -> int {
        match self {
            HandRank::HighCard(..) => 0,
            HandRank::OnePair(..) => 1,
            HandRank::TwoPair(..) => 2,
            HandRank::ThreeOfAKind(..) => 3,
            HandRank::Straight(..) => 4,
            HandRank::Flush(..) => 5,
            HandRank::FullHouse(..) => 6,
            HandRank::FourOfAKind(..) => 7,
            HandRank::StraightFlush(..) => 8,
            HandRank::RoyalFlush => 9,
        }
    }

    /// The tiebreaker ranks as five positions, most significant first; a
    /// category with fewer tiebreakers is padded with zeros.
    pub open spec fn tiebreakers(self) -> (int, int, int, int, int) {
        match self {
            HandRank::HighCard(a, b, c, d, e) => (
                a.value(),
                b.value(),
                c.value(),
                d.value(),
                e.value(),
            ),
            HandRank::OnePair(a, b, c, d) => (a.value(), b.value(), c.value(), d.value(), 0),
            HandRank::TwoPair(a, b, c) => (a.value(), b.value(), c.value(), 0, 0),
            HandRank::ThreeOfAKind(a, b, c) => (a.value(), b.value(), c.value(), 0, 0),
            HandRank::Straight(a) => (a.value(), 0, 0, 0, 0),
            HandRank::Flush(a, b, c, d, e) => (a.value(), b.value(), c.value(), d.value(), e.value()),
            HandRank::FullHouse(a, b) => (a.value(), b.value(), 0, 0, 0),
            HandRank::FourOfAKind(a, b) => (a.value(), b.value(), 0, 0, 0),
            HandRank::StraightFlush(a) => (a.value(), 0, 0, 0, 0),
            HandRank::RoyalFlush => (0, 0, 0, 0, 0),
        }
    }

    /// A number that orders hand ranks: the category is the leading digit and
    /// the tiebreakers follow, written in base 13.
    #[verifier::opaque]
    pub open spec fn score(self) -> int {
        let t = self.tiebreakers();
        self.category() * 371293 + t.0 * 28561 + t.1 * 2197 + t.2 * 169 + t.3 * 13 + t.4
    }

    /// `self` is at most as strong as `other`.
    pub open spec fn at_most(self, other: HandRank) -> bool {
        self.score() <= other.score()
    }

    /// Computes `score`.
    pub fn strength(&self) -> (s: u32)
        ensures
            s == self.score(),
    {
        reveal(HandRank::score);
        match *self {
            HandRank::HighCard(a, b, c, d, e) => pack(0, a, b, c, d, e),
            HandRank::OnePair(a, b, c, d) => pack(1, a, b, c, d, Rank::Two),
            HandRank::TwoPair(a, b, c) => pack(2, a, b, c, Rank::Two, Rank::Two),
            HandRank::ThreeOfAKind(a, b, c) => pack(3, a, b, c, Rank::Two, Rank::Two),
            HandRank::Straight(a) => pack(4, a, Rank::Two, Rank::Two, Rank::Two, Rank::Two),
            HandRank::Flush(a, b, c, d, e) => pack(5, a, b, c, d, e),
            HandRank::FullHouse(a, b) => pack(6, a, b, Rank::Two, Rank::Two, Rank::Two),
            HandRank::FourOfAKind(a, b) => pack(7, a, b, Rank::Two, Rank::Two, Rank::Two),
            HandRank::StraightFlush(a) => pack(
                8,
                a,
                Rank::Two,
                Rank::Two,
                Rank::Two,
                Rank::Two,
            ),
            HandRank::RoyalFlush => pack(9, Rank::Two, Rank::Two, Rank::Two, Rank::Two, Rank::Two),
        }
    }

    /// Whether `self` is strictly stronger than `other`.
    pub fn beats(&self, other: &HandRank) -> (b: bool)
        ensures
            b == (self.score() > other.score()),
    {
        self.strength() > other.strength()
    }
}

fn pack(category: u32, a: Rank, b: Rank, c: Rank, d: Rank, e: Rank) -> (s: u32)
    requires
        category < 10,
    ensures
        s == category * 371293 + a.value() * 28561 + b.value() * 2197 + c.value() * 169
            + d.value() * 13 + e.value(),
{
    let va: u32 = a.index() as u32;
    let vb: u32 = b.index() as u32;
    let vc: u32 = c.index() as u32;
    let vd: u32 = d.index() as u32;
    let ve: u32 = e.index() as u32;
    category * 371293 + va * 28561 + vb * 2197 + vc * 169 + vd * 13 + ve
}

/// The five positions are digits in base 13.
pub open spec fn digits_in_range(t: (int, int, int, int, int)) -> bool {
    &&& 0 <= t.0 < 13
    &&& 0 <= t.1 < 13
    &&& 0 <= t.2 < 13
    &&& 0 <= t.3 < 13
    &&& 0 <= t.4 < 13
}

/// The category and every tiebreaker position stay within their digit.
pub proof fn lemma_score_digits(a: HandRank)
    ensures
        0 <= a.category() < 10,
        digits_in_range(a.tiebreakers()),
{
    match a {
        HandRank::HighCard(a0, a1, a2, a3, a4) | HandRank::Flush(a0, a1, a2, a3, a4) => {
            lemma_rank_value_bijective(a0);
            lemma_rank_value_bijective(a1);
            lemma_rank_value_bijective(a2);
            lemma_rank_value_bijective(a3);
            lemma_rank_value_bijective(a4);
        },
        HandRank::OnePair(a0, a1, a2, a3) => {
            lemma_rank_value_bijective(a0);
            lemma_rank_value_bijective(a1);
            lemma_rank_value_bijective(a2);
            lemma_rank_value_bijective(a3);
        },
        HandRank::TwoPair(a0, a1, a2) | HandRank::ThreeOfAKind(a0, a1, a2) => {
            lemma_rank_value_bijective(a0);
            lemma_rank_value_bijective(a1);
            lemma_rank_value_bijective(a2);
        },
        HandRank::FullHouse(a0, a1) | HandRank::FourOfAKind(a0, a1) => {
            lemma_rank_value_bijective(a0);
            lemma_rank_value_bijective(a1);
        },
        HandRank::Straight(a0) | HandRank::StraightFlush(a0) => {
            lemma_rank_value_bijective(a0);
        },
        HandRank::RoyalFlush => {},
    }
}

/// Scores are not negative.
pub proof fn lemma_score_nonnegative(a: HandRank)
    ensures
        a.score() >= 0,
{
    reveal(HandRank::score);
    lemma_score_digits(a);
}

/// Hand ranks with equal scores are equal.
pub proof fn lemma_score_injective(a: HandRank, b: HandRank)
    requires
        a.score() == b.score(),
    ensures
        a == b,
{
    reveal(HandRank::score);
    lemma_score_digits(a);
    lemma_score_digits(b);
    lemma_digits_injective(a.category(), a.tiebreakers(), b.category(), b.tiebreakers());
    lemma_same_digits_same_rank(a, b);
}

/// The value of digits in base 13.
pub open spec fn digits_value(c: int, t: (int, int, int, int, int)) -> int {
    c * 371293 + t.0 * 28561 + t.1 * 2197 + t.2 * 169 + t.3 * 13 + t.4
}

/// A number splits into a leading part and a last digit in one way only,
/// and numbers compare by the leading part first.
proof fn lemma_digit_step(hi1: int, lo1: int, hi2: int, lo2: int, base: int)
    by (nonlinear_arith)
    requires
        base > 0,
        0 <= lo1 < base,
        0 <= lo2 < base,
    ensures
        hi1 * base + lo1 == hi2 * base + lo2 ==> hi1 == hi2 && lo1 == lo2,
        hi1 * base + lo1 < hi2 * base + lo2 <==> hi1 < hi2 || (hi1 == hi2 && lo1 < lo2),
{
}

/// Digits in base 13 with equal values are equal.
proof fn lemma_digits_injective(
    c: int,
    s: (int, int, int, int, int),
    d: int,
    t: (int, int, int, int, int),
)
    requires
        digits_in_range(s),
        digits_in_range(t),
        digits_value(c, s) == digits_value(d, t),
    ensures
        c == d,
        s == t,
{
    let s3 = s.3 * 13 + s.4;
    let t3 = t.3 * 13 + t.4;
    let s2 = s.2 * 169 + s3;
    let t2 = t.2 * 169 + t3;
    let s1 = s.1 * 2197 + s2;
    let t1 = t.1 * 2197 + t2;
    let s0 = s.0 * 28561 + s1;
    let t0 = t.0 * 28561 + t1;
    lemma_digit_step(c, s0, d, t0, 371293);
    lemma_digit_step(s.0, s1, t.0, t1, 28561);
    lemma_digit_step(s.1, s2, t.1, t2, 2197);
    lemma_digit_step(s.2, s3, t.2, t3, 169);
    lemma_digit_step(s.3, s.4, t.3, t.4, 13);
}

/// Digits in base 13 compare by their leading digit, then from the most
/// significant position on.
proof fn lemma_digits_order(
    c: int,
    s: (int, int, int, int, int),
    d: int,
    t: (int, int, int, int, int),
)
    requires
        digits_in_range(s),
        digits_in_range(t),
    ensures
        c < d ==> digits_value(c, s) < digits_value(d, t),
        c == d ==> (digits_value(c, s) < digits_value(d, t) <==> lex_less(s, t)),
{
    let s3 = s.3 * 13 + s.4;
    let t3 = t.3 * 13 + t.4;
    let s2 = s.2 * 169 + s3;
    let t2 = t.2 * 169 + t3;
    let s1 = s.1 * 2197 + s2;
    let t1 = t.1 * 2197 + t2;
    let s0 = s.0 * 28561 + s1;
    let t0 = t.0 * 28561 + t1;
    lemma_digit_step(c, s0, d, t0, 371293);
    lemma_digit_step(s.0, s1, t.0, t1, 28561);
    lemma_digit_step(s.1, s2, t.1, t2, 2197);
    lemma_digit_step(s.2, s3, t.2, t3, 169);
    lemma_digit_step(s.3, s.4, t.3, t.4, 13);
}

/// Ranks at one position are the same rank.
proof fn lemma_rank_value_injective(x: Rank, y: Rank)
    requires
        x.value() == y.value(),
    ensures
        x == y,
{
}

/// Hand ranks of one category with equal tiebreakers are equal.
proof fn lemma_same_digits_same_rank(a: HandRank, b: HandRank)
    requires
        a.category() == b.category(),
        a.tiebreakers() == b.tiebreakers(),
    ensures
        a == b,
{
    match (a, b) {
        (HandRank::HighCard(a0, a1, a2, a3, a4), HandRank::HighCard(b0, b1, b2, b3, b4)) => {
            lemma_rank_value_injective(a0, b0);
            lemma_rank_value_injective(a1, b1);
            lemma_rank_value_injective(a2, b2);
            lemma_rank_value_injective(a3, b3);
            lemma_rank_value_injective(a4, b4);
        },
        (HandRank::Flush(a0, a1, a2, a3, a4), HandRank::Flush(b0, b1, b2, b3, b4)) => {
            lemma_rank_value_injective(a0, b0);
            lemma_rank_value_injective(a1, b1);
            lemma_rank_value_injective(a2, b2);
            lemma_rank_value_injective(a3, b3);
            lemma_rank_value_injective(a4, b4);
        },
        (HandRank::OnePair(a0, a1, a2, a3), HandRank::OnePair(b0, b1, b2, b3)) => {
            lemma_rank_value_injective(a0, b0);
            lemma_rank_value_injective(a1, b1);
            lemma_rank_value_injective(a2, b2);
            lemma_rank_value_injective(a3, b3);
        },
        (HandRank::TwoPair(a0, a1, a2), HandRank::TwoPair(b0, b1, b2)) => {
            lemma_rank_value_injective(a0, b0);
            lemma_rank_value_injective(a1, b1);
            lemma_rank_value_injective(a2, b2);
        },
        (HandRank::ThreeOfAKind(a0, a1, a2), HandRank::ThreeOfAKind(b0, b1, b2)) => {
            lemma_rank_value_injective(a0, b0);
            lemma_rank_value_injective(a1, b1);
            lemma_rank_value_injective(a2, b2);
        },
        (HandRank::FullHouse(a0, a1), HandRank::FullHouse(b0, b1)) => {
            lemma_rank_value_injective(a0, b0);
            lemma_rank_value_injective(a1, b1);
        },
        (HandRank::FourOfAKind(a0, a1), HandRank::FourOfAKind(b0, b1)) => {
            lemma_rank_value_injective(a0, b0);
            lemma_rank_value_injective(a1, b1);
        },
        (HandRank::Straight(a0), HandRank::Straight(b0)) => {
            lemma_rank_value_injective(a0, b0);
        },
        (HandRank::StraightFlush(a0), HandRank::StraightFlush(b0)) => {
            lemma_rank_value_injective(a0, b0);
        },
        _ => {},
    }
}

/// The order on hand ranks is total: reflexive, antisymmetric, transitive,
/// and any two hand ranks compare.
pub proof fn lemma_rank_order_total(a: HandRank, b: HandRank, c: HandRank)
    ensures
        a.at_most(a),
        a.at_most(b) || b.at_most(a),
        a.at_most(b) && b.at_most(a) ==> a == b,
        a.at_most(b) && b.at_most(c) ==> a.at_most(c),
{
    if a.at_most(b) && b.at_most(a) {
        lemma_score_injective(a, b);
    }
}

/// A hand of a higher category beats every hand of a lower one: high card,
/// pair, two pair, three of a kind, straight, flush, full house, four of a
/// kind, straight flush, royal flush.
pub proof fn lemma_category_decides(a: HandRank, b: HandRank)
    requires
        a.category() < b.category(),
    ensures
        a.score() < b.score(),
{
    reveal(HandRank::score);
    lemma_score_digits(a);
    lemma_score_digits(b);
    lemma_digits_order(a.category(), a.tiebreakers(), b.category(), b.tiebreakers());
}

/// `s` comes before `t` at the first position where they differ.
pub open spec fn lex_less(s: (int, int, int, int, int), t: (int, int, int, int, int)) -> bool {
    ||| s.0 < t.0
    ||| s.0 == t.0 && s.1 < t.1
    ||| s.0 == t.0 && s.1 == t.1 && s.2 < t.2
    ||| s.0 == t.0 && s.1 == t.1 && s.2 == t.2 && s.3 < t.3
    ||| s.0 == t.0 && s.1 == t.1 && s.2 == t.2 && s.3 == t.3 && s.4 < t.4
}

/// Within one category the tiebreakers decide, most significant first.
pub proof fn lemma_tiebreakers_decide(a: HandRank, b: HandRank)
    requires
        a.category() == b.category(),
    ensures
        a.score() < b.score() <==> lex_less(a.tiebreakers(), b.tiebreakers()),
{
    reveal(HandRank::score);
    lemma_score_digits(a);
    lemma_score_digits(b);
    lemma_digits_order(a.category(), a.tiebreakers(), b.category(), b.tiebreakers());
}

/// `value` is a bijection between the ranks and 0..13.
pub proof fn lemma_rank_value_bijective(r: Rank)
    ensures
        0 <= r.value() < 13,
        Rank::from_value(r.value()) == r,
{
}

} // verus!
