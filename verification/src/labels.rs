//! How cards, hand ranks, phases and player states are written for people.

use crate::card::{Card, HandRank, Rank, Suit};
use crate::state::{GamePhase, PlayerState};
use vstd::prelude::*;
use vstd::string::StringExecFns;

verus! {

impl Suit {
    /// The sign of the suit.
    pub open spec fn label_text(self) -> Seq<char> {
        match self {
            Suit::Spade => "♠️"@,
            Suit::Heart => "♥️"@,
            Suit::Club => "♣️"@,
            Suit::Diamond => "♦️"@,
        }
    }

    /// The sign of the suit.
    pub fn label(self) -> (s: &'static str)
        ensures
            s@ == self.label_text(),
    {
        match self {
            Suit::Spade => "♠️",
            Suit::Heart => "♥️",
            Suit::Club => "♣️",
            Suit::Diamond => "♦️",
        }
    }
}

impl Rank {
    /// The sign of the rank: the number, or T, J, Q, K, A.
    pub open spec fn label_text(self) -> Seq<char> {
        match self {
            Rank::Two => "2"@,
            Rank::Three => "3"@,
            Rank::Four => "4"@,
            Rank::Five => "5"@,
            Rank::Six => "6"@,
            Rank::Seven => "7"@,
            Rank::Eight => "8"@,
            Rank::Nine => "9"@,
            Rank::Ten => "T"@,
            Rank::Jack => "J"@,
            Rank::Queen => "Q"@,
            Rank::King => "K"@,
            Rank::Ace => "A"@,
        }
    }

    /// The sign of the rank.
    pub fn label(self) -> (s: &'static str)
        ensures
            s@ == self.label_text(),
    {
        match self {
            Rank::Two => "2",
            Rank::Three => "3",
            Rank::Four => "4",
            Rank::Five => "5",
            Rank::Six => "6",
            Rank::Seven => "7",
            Rank::Eight => "8",
            Rank::Nine => "9",
            Rank::Ten => "T",
            Rank::Jack => "J",
            Rank::Queen => "Q",
            Rank::King => "K",
            Rank::Ace => "A",
        }
    }
}

impl Card {
    /// The card written as the sign of its suit and the sign of its rank.
    pub open spec fn label_text(self) -> Seq<char> {
        self.suit.label_text() + self.rank.label_text()
    }

    /// Writes the card as the sign of its suit and the sign of its rank.
    pub fn label(&self) -> (s: String)
        ensures
            s@ == self.label_text(),
    {
        let mut s = String::from_str(self.suit.label());
        s.append(self.rank.label());
        s
    }
}

impl HandRank {
    /// The name of the hand; pairs, two pairs and three of a kind name
    /// their ranks.
    pub open spec fn label_text(self) -> Seq<char> {
        match self {
            HandRank::HighCard(..) => "高牌"@,
            HandRank::OnePair(r1, ..) => "一对("@ + r1.label_text() + ")"@,
            HandRank::TwoPair(r1, r2, ..) => "两对("@ + r1.label_text() + ","@ + r2.label_text()
                + ")"@,
            HandRank::ThreeOfAKind(r1, ..) => "三条("@ + r1.label_text() + ")"@,
            HandRank::Straight(..) => "顺子"@,
            HandRank::Flush(..) => "同花"@,
            HandRank::FullHouse(..) => "葫芦"@,
            HandRank::FourOfAKind(..) => "四条"@,
            HandRank::StraightFlush(..) => "同花顺"@,
            HandRank::RoyalFlush => "皇家同花顺"@,
        }
    }

    /// Writes the name of the hand.
    pub fn label(&self) -> (s: String)
        ensures
            s@ == self.label_text(),
    {
        match *self {
            HandRank::HighCard(..) => String::from_str("高牌"),
            HandRank::OnePair(r1, ..) => {
                let mut s = String::from_str("一对(");
                s.append(r1.label());
                s.append(")");
                s
            },
            HandRank::TwoPair(r1, r2, ..) => {
                let mut s = String::from_str("两对(");
                s.append(r1.label());
                s.append(",");
                s.append(r2.label());
                s.append(")");
                s
            },
            HandRank::ThreeOfAKind(r1, ..) => {
                let mut s = String::from_str("三条(");
                s.append(r1.label());
                s.append(")");
                s
            },
            HandRank::Straight(..) => String::from_str("顺子"),
            HandRank::Flush(..) => String::from_str("同花"),
            HandRank::FullHouse(..) => String::from_str("葫芦"),
            HandRank::FourOfAKind(..) => String::from_str("四条"),
            HandRank::StraightFlush(..) => String::from_str("同花顺"),
            HandRank::RoyalFlush => String::from_str("皇家同花顺"),
        }
    }
}

impl GamePhase {
    /// The name of the phase.
    pub open spec fn label_text(self) -> Seq<char> {
        match self {
            GamePhase::WaitingForPlayers => "等待玩家"@,
            GamePhase::PreFlop => "预发牌"@,
            GamePhase::Flop => "发牌"@,
            GamePhase::Turn => "转牌"@,
            GamePhase::River => "河牌"@,
            GamePhase::Showdown => "摊牌"@,
        }
    }

    /// The name of the phase.
    pub fn label(self) -> (s: &'static str)
        ensures
            s@ == self.label_text(),
    {
        match self {
            GamePhase::WaitingForPlayers => "等待玩家",
            GamePhase::PreFlop => "预发牌",
            GamePhase::Flop => "发牌",
            GamePhase::Turn => "转牌",
            GamePhase::River => "河牌",
            GamePhase::Showdown => "摊牌",
        }
    }
}

impl PlayerState {
    /// The name of the state.
    pub open spec fn label_text(self) -> Seq<char> {
        match self {
            PlayerState::Waiting => "等待"@,
            PlayerState::Playing => "游戏中"@,
            PlayerState::AllIn => "已全下"@,
            PlayerState::Folded => "已弃牌"@,
            PlayerState::SittingOut => "离席"@,
            PlayerState::Offline => "掉线"@,
        }
    }

    /// The name of the state.
    pub fn label(self) -> (s: &'static str)
        ensures
            s@ == self.label_text(),
    {
        match self {
            PlayerState::Waiting => "等待",
            PlayerState::Playing => "游戏中",
            PlayerState::AllIn => "已全下",
            PlayerState::Folded => "已弃牌",
            PlayerState::SittingOut => "离席",
            PlayerState::Offline => "掉线",
        }
    }
}

} // verus!
