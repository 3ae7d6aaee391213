//! From one betting round to the next: the board cards of each street, and
//! who opens the betting after them.

use crate::card::Card;
use crate::message::{emit, emit_all, events, no_messages, Event, PlayerActionType, ServerMessage};
use crate::state::{GamePhase, GameState, GameView, PlayerState};
use vstd::prelude::*;

verus! {

/// How many board cards are still to come in a phase.
pub open spec fn cards_to_come(phase: GamePhase) -> int {
    match phase {
        GamePhase::PreFlop => 5,
        GamePhase::Flop => 2,
        GamePhase::Turn => 1,
        _ => 0,
    }
}

/// How many streets are still to be dealt in a phase.
pub open spec fn streets_to_come(phase: GamePhase) -> int {
    match phase {
        GamePhase::PreFlop => 3,
        GamePhase::Flop => 2,
        GamePhase::Turn => 1,
        _ => 0,
    }
}

/// A betting round is running in this phase.
pub open spec fn is_betting_phase(phase: GamePhase) -> bool {
    phase == GamePhase::PreFlop || phase == GamePhase::Flop || phase == GamePhase::Turn || phase
        == GamePhase::River
}

impl GameView {
    /// The most a bet or a raise step can reach: the chips in play and the
    /// big blind.
    pub open spec fn limit(self) -> int {
        self.chips() + self.big_blind
    }

    /// What the betting rounds of a hand rely on, beyond what the settling
    /// relies on: at least two players, a flag and a board of five slots, a
    /// player to act, a deck that holds the board cards still to come, no
    /// commitment above the highest, a raise step of at least the big blind,
    /// and amounts small enough that the smallest raise fits the chip type.
    pub open spec fn betting_ready(self) -> bool {
        &&& self.showdown_ready()
        &&& is_betting_phase(self.phase)
        &&& self.n() >= 2
        &&& self.player_has_acted.len() == self.n()
        &&& self.community_cards.len() == 5
        &&& self.cur_player_idx < self.n()
        &&& self.deck.len() >= cards_to_come(self.phase)
        &&& forall|i: int| 0 <= i < self.n() ==> #[trigger] self.bets[i] <= self.max_bet
        &&& self.big_blind <= self.last_raise_amount
        &&& self.max_bet <= self.limit()
        &&& self.last_raise_amount <= self.limit()
        &&& 2 * self.limit() <= u32::MAX
    }

    /// The state at the start of a betting round: nobody has acted, and the
    /// raise step is the big blind.
    pub open spec fn round_reset(self) -> GameView {
        GameView {
            player_has_acted: Seq::new(self.player_has_acted.len(), |i: int| false),
            last_raise_amount: self.big_blind,
            ..self
        }
    }

    /// The state and the event after the next street was dealt off the top
    /// of the deck: three cards into slots 0 to 2 before the flop, one into
    /// slot 3 on the flop, one into slot 4 on the turn.
    pub open spec fn street_dealt(self) -> (GameView, Seq<Event>) {
        let top = self.deck.len() - 1;
        match self.phase {
            GamePhase::PreFlop => {
                let (c1, c2, c3) = (self.deck[top], self.deck[top - 1], self.deck[top - 2]);
                (
                    GameView {
                        phase: GamePhase::Flop,
                        deck: self.deck.take(top - 2),
                        community_cards: self.community_cards.update(0, Some(c1)).update(
                            1,
                            Some(c2),
                        ).update(2, Some(c3)),
                        ..self
                    },
                    seq![Event::CommunityCardsDealt { phase: GamePhase::Flop, cards: seq![c1, c2, c3] }],
                )
            },
            GamePhase::Flop => {
                let c = self.deck[top];
                (
                    GameView {
                        phase: GamePhase::Turn,
                        deck: self.deck.take(top),
                        community_cards: self.community_cards.update(3, Some(c)),
                        ..self
                    },
                    seq![Event::CommunityCardsDealt { phase: GamePhase::Turn, cards: seq![c] }],
                )
            },
            GamePhase::Turn => {
                let c = self.deck[top];
                (
                    GameView {
                        phase: GamePhase::River,
                        deck: self.deck.take(top),
                        community_cards: self.community_cards.update(4, Some(c)),
                        ..self
                    },
                    seq![Event::CommunityCardsDealt { phase: GamePhase::River, cards: seq![c] }],
                )
            },
            _ => (self, Seq::empty()),
        }
    }

    /// The state and the events after every street still to come was dealt.
    pub open spec fn run_out(self) -> (GameView, Seq<Event>)
        decreases streets_to_come(self.phase),
    {
        if streets_to_come(self.phase) > 0 {
            let (dealt, first) = self.street_dealt();
            let (done, rest) = dealt.run_out();
            (done, first + rest)
        } else {
            (self, Seq::empty())
        }
    }

    /// The player at `i` can still bet: neither folded nor all-in.
    pub open spec fn can_bet(self, i: int) -> bool {
        self.state_at(i) != PlayerState::Folded && self.state_at(i) != PlayerState::AllIn
    }

    /// How many of the first `upto` players can still bet.
    pub open spec fn bettor_count(self, upto: int) -> int
        decreases upto,
    {
        if upto <= 0 {
            0
        } else {
            self.bettor_count(upto - 1) + if self.can_bet(upto - 1) {
                1int
            } else {
                0int
            }
        }
    }

    /// The first player who can still bet, looking from position `k` up to
    /// the end of the hand order and then at the dealer, position 0; -1
    /// where there is none.
    pub open spec fn first_bettor_from(self, k: int) -> int
        decreases self.n() - k,
    {
        if k >= self.n() {
            if self.n() > 0 && self.can_bet(0) {
                0
            } else {
                -1
            }
        } else if self.can_bet(k) {
            k
        } else {
            self.first_bettor_from(k + 1)
        }
    }

    /// The state and the events after a betting round ended.
    ///
    /// The round is reset. After the river the hand goes to the showdown.
    /// Otherwise the next street is dealt; if fewer than two players can
    /// still bet, the remaining streets follow at once and the hand goes to
    /// the showdown; else the first player left of the dealer who can bet is
    /// to act, and may check, bet or fold.
    pub open spec fn phase_advanced(self) -> (GameView, Seq<Event>) {
        let reset = self.round_reset();
        match reset.phase {
            GamePhase::River => (GameView { phase: GamePhase::Showdown, ..reset }).showdown_done(),
            GamePhase::PreFlop | GamePhase::Flop | GamePhase::Turn => {
                let (dealt, first) = reset.street_dealt();
                if dealt.bettor_count(dealt.n()) < 2 {
                    let (done, rest) = dealt.run_out();
                    let (settled, last) = (GameView {
                        phase: GamePhase::Showdown,
                        ..done
                    }).showdown_done();
                    (settled, first + rest + last)
                } else {
                    let opener = dealt.first_bettor_from(1);
                    (
                        GameView { cur_player_idx: opener as usize, ..dealt },
                        first.push(
                            Event::NextToAct {
                                player_id: dealt.hand_player_order[opener],
                                valid_actions: seq![
                                    PlayerActionType::Check,
                                    PlayerActionType::Bet(dealt.last_raise_amount),
                                    PlayerActionType::Fold,
                                ],
                            },
                        ),
                    )
                }
            },
            _ => (reset, Seq::empty()),
        }
    }

    /// Where two players can bet, the first of them is a player of the hand.
    pub proof fn lemma_first_bettor(self, k: int)
        requires
            0 <= k <= self.n(),
            self.n() > 0,
        ensures
            -1 <= self.first_bettor_from(k) < self.n(),
            self.first_bettor_from(k) >= 0 ==> self.can_bet(self.first_bettor_from(k)),
            self.first_bettor_from(k) == -1 ==> !self.can_bet(0) && forall|j: int|
                k <= j < self.n() ==> !self.can_bet(j),
        decreases self.n() - k,
    {
        if k < self.n() && !self.can_bet(k) {
            self.lemma_first_bettor(k + 1);
        }
    }

    /// Players who cannot bet do not count.
    pub proof fn lemma_bettor_count(self, upto: int)
        requires
            0 <= upto,
        ensures
            0 <= self.bettor_count(upto) <= upto,
            (forall|j: int| 0 <= j < upto ==> !self.can_bet(j)) ==> self.bettor_count(upto) == 0,
        decreases upto,
    {
        if upto > 0 {
            self.lemma_bettor_count(upto - 1);
        }
    }

    /// Dealing a street keeps what the settling relies on, takes the street's
    /// cards off the deck, and touches neither players nor chips.
    pub proof fn lemma_street_dealt(self)
        requires
            self.showdown_ready(),
            self.deck.len() >= cards_to_come(self.phase),
            self.community_cards.len() == 5,
        ensures
            self.street_dealt().0.showdown_ready(),
            self.street_dealt().0.community_cards.len() == 5,
            self.street_dealt().0.deck.len() >= cards_to_come(self.street_dealt().0.phase),
            streets_to_come(self.phase) > 0 ==> streets_to_come(self.street_dealt().0.phase)
                == streets_to_come(self.phase) - 1,
            self.street_dealt().0.players == self.players,
            self.street_dealt().0.chips() == self.chips(),
    {
        let after = self.street_dealt().0;
        assert(after.stacks() =~= self.stacks());
        after.lemma_counters_fit(self);
    }

    /// Dealing all remaining streets keeps what the settling relies on.
    pub proof fn lemma_run_out(self)
        requires
            self.showdown_ready(),
            self.deck.len() >= cards_to_come(self.phase),
            self.community_cards.len() == 5,
        ensures
            self.run_out().0.showdown_ready(),
            self.run_out().0.players == self.players,
            self.run_out().0.chips() == self.chips(),
        decreases streets_to_come(self.phase),
    {
        if streets_to_come(self.phase) > 0 {
            self.lemma_street_dealt();
            self.street_dealt().0.lemma_run_out();
        }
    }
}

impl GameState {
    /// Deals the next street off the top of the deck.
    pub fn deal_street(&mut self) -> (msgs: Vec<ServerMessage>)
        requires
            old(self)@.deck.len() >= cards_to_come(old(self)@.phase),
            old(self)@.community_cards.len() == 5,
        ensures
            final(self)@ == old(self)@.street_dealt().0,
            events(msgs@) == old(self)@.street_dealt().1,
    {
        let mut msgs = no_messages();
        match self.phase {
            GamePhase::PreFlop => {
                let c1 = self.deck.pop().unwrap();
                let c2 = self.deck.pop().unwrap();
                let c3 = self.deck.pop().unwrap();
                self.phase = GamePhase::Flop;
                self.community_cards.set(0, Some(c1));
                self.community_cards.set(1, Some(c2));
                self.community_cards.set(2, Some(c3));
                let mut cards: Vec<Card> = Vec::new();
                cards.push(c1);
                cards.push(c2);
                cards.push(c3);
                proof {
                    assert(cards@ =~= seq![c1, c2, c3]);
                    assert(self@.deck =~= old(self)@.deck.take(old(self)@.deck.len() - 3));
                }
                emit(&mut msgs, ServerMessage::CommunityCardsDealt { phase: GamePhase::Flop, cards });
            },
            GamePhase::Flop => {
                let c = self.deck.pop().unwrap();
                self.phase = GamePhase::Turn;
                self.community_cards.set(3, Some(c));
                let mut cards: Vec<Card> = Vec::new();
                cards.push(c);
                emit(&mut msgs, ServerMessage::CommunityCardsDealt { phase: GamePhase::Turn, cards });
            },
            GamePhase::Turn => {
                let c = self.deck.pop().unwrap();
                self.phase = GamePhase::River;
                self.community_cards.set(4, Some(c));
                let mut cards: Vec<Card> = Vec::new();
                cards.push(c);
                emit(
                    &mut msgs,
                    ServerMessage::CommunityCardsDealt { phase: GamePhase::River, cards },
                );
            },
            _ => {},
        }
        msgs
    }

    /// Deals every street still to come.
    pub fn deal_remaining_streets(&mut self) -> (msgs: Vec<ServerMessage>)
        requires
            old(self)@.showdown_ready(),
            old(self)@.deck.len() >= cards_to_come(old(self)@.phase),
            old(self)@.community_cards.len() == 5,
        ensures
            final(self)@ == old(self)@.run_out().0,
            events(msgs@) == old(self)@.run_out().1,
        decreases streets_to_come(old(self)@.phase),
    {
        match self.phase {
            GamePhase::PreFlop | GamePhase::Flop | GamePhase::Turn => {
                proof {
                    old(self)@.lemma_street_dealt();
                }
                let mut msgs = self.deal_street();
                let rest = self.deal_remaining_streets();
                emit_all(&mut msgs, rest);
                msgs
            },
            _ => no_messages(),
        }
    }

    /// Counts the players who can still bet.
    pub fn count_bettors(&self) -> (count: usize)
        requires
            self@.order_consistent(),
        ensures
            count == self@.bettor_count(self@.n()),
    {
        let n = self.hand_player_order.len();
        let mut count: usize = 0;
        let mut i: usize = 0;
        while i < n
            invariant
                i <= n,
                n == self@.n(),
                self@.order_consistent(),
                count == self@.bettor_count(i as int),
                count <= i,
            decreases n - i,
        {
            let state = self.state_at(i);
            if state != PlayerState::Folded && state != PlayerState::AllIn {
                count += 1;
            }
            i += 1;
        }
        count
    }

    /// Finds the first player left of the dealer who can still bet; the
    /// dealer comes last.
    pub fn first_bettor(&self) -> (found: Option<usize>)
        requires
            self@.order_consistent(),
            self@.n() > 0,
        ensures
            match found {
                Some(i) => i == self@.first_bettor_from(1),
                None => self@.first_bettor_from(1) == -1,
            },
    {
        let n = self.hand_player_order.len();
        let mut i: usize = 1;
        while i < n
            invariant
                1 <= i,
                n == self@.n(),
                n > 0,
                self@.order_consistent(),
                i <= n ==> self@.first_bettor_from(i as int) == self@.first_bettor_from(1),
                i > n ==> n == 1 && i == 1,
            decreases n - i,
        {
            let state = self.state_at(i);
            if state != PlayerState::Folded && state != PlayerState::AllIn {
                return Some(i);
            }
            i += 1;
        }
        let state = self.state_at(0);
        if state != PlayerState::Folded && state != PlayerState::AllIn {
            Some(0)
        } else {
            None
        }
    }

    /// Ends a betting round: resets it, deals the next street, and either
    /// names the player who opens the next round or, where no betting is
    /// left, runs the board out and settles the hand.
    pub fn advance_to_next_phase(&mut self) -> (msgs: Vec<ServerMessage>)
        requires
            old(self)@.betting_ready(),
        ensures
            final(self)@ == old(self)@.phase_advanced().0,
            events(msgs@) == old(self)@.phase_advanced().1,
    {
        let flags = self.player_has_acted.len();
        let mut cleared: Vec<bool> = Vec::with_capacity(flags);
        let mut f: usize = 0;
        while f < flags
            invariant
                f <= flags,
                cleared@.len() == f,
                forall|j: int| 0 <= j < f ==> cleared@[j] == false,
            decreases flags - f,
        {
            cleared.push(false);
            f += 1;
        }
        self.player_has_acted = cleared;
        self.last_raise_amount = self.big_blind;
        proof {
            assert(self@.player_has_acted =~= old(self)@.round_reset().player_has_acted);
            let reset = old(self)@.round_reset();
            assert(reset.stacks() =~= old(self)@.stacks());
            reset.lemma_counters_fit(old(self)@);
        }
        match self.phase {
            GamePhase::River => {
                self.phase = GamePhase::Showdown;
                proof {
                    let at = self@;
                    assert(at.stacks() =~= old(self)@.stacks());
                    at.lemma_counters_fit(old(self)@);
                }
                self.handle_showdown()
            },
            GamePhase::PreFlop | GamePhase::Flop | GamePhase::Turn => {
                proof {
                    self@.lemma_street_dealt();
                }
                let mut msgs = self.deal_street();
                let ghost dealt = self@;
                if self.count_bettors() < 2 {
                    proof {
                        dealt.lemma_run_out();
                    }
                    let rest = self.deal_remaining_streets();
                    emit_all(&mut msgs, rest);
                    let ghost done = self@;
                    self.phase = GamePhase::Showdown;
                    proof {
                        let at = self@;
                        assert(at.stacks() =~= done.stacks());
                        at.lemma_counters_fit(done);
                    }
                    let last = self.handle_showdown();
                    emit_all(&mut msgs, last);
                    msgs
                } else {
                    proof {
                        dealt.lemma_first_bettor(1);
                        dealt.lemma_bettor_count(dealt.n());
                    }
                    match self.first_bettor() {
                        Some(opener) => {
                            self.cur_player_idx = opener;
                            let mut valid_actions: Vec<PlayerActionType> = Vec::new();
                            valid_actions.push(PlayerActionType::Check);
                            valid_actions.push(PlayerActionType::Bet(self.last_raise_amount));
                            valid_actions.push(PlayerActionType::Fold);
                            proof {
                                assert(valid_actions@ =~= seq![
                                    PlayerActionType::Check,
                                    PlayerActionType::Bet(dealt.last_raise_amount),
                                    PlayerActionType::Fold,
                                ]);
                            }
                            emit(
                                &mut msgs,
                                ServerMessage::NextToAct {
                                    player_id: self.hand_player_order[opener],
                                    valid_actions,
                                },
                            );
                            msgs
                        },
                        None => msgs,
                    }
                }
            },
            _ => no_messages(),
        }
    }
}

} // verus!
