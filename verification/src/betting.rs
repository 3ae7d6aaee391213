//! One betting round: which actions are legal, what a legal action does, and
//! whose turn is next.

use crate::message::{emit, emit_all, events, no_messages, Event, PlayerActionType, ServerMessage};
use crate::state::{
    lemma_total_bounds, lemma_total_update, replace_player, take_player, total, GamePhase,
    GameState, GameView, Player, PlayerAction, PlayerId, PlayerState,
};
use crate::text::{frame_number, framed_number};
use vstd::prelude::*;
use vstd::string::StringExecFns;

verus! {

/// Why the engine refuses an action.
#[derive(Debug, Clone, Copy, PartialEq, Eq, Structural)]
pub enum RuleViolation {
    /// The sender is not the player to act.
    NotYourTurn,
    /// A check while `owed` chips are owed.
    CheckFacingBet { owed: u32 },
    /// A bet of nothing, or of more than the `stack`.
    BetOutsideStack { stack: u32 },
    /// An opening bet below the `big_blind` that is not all-in.
    BetBelowBigBlind { big_blind: u32 },
    /// A raise that adds less than `minimum` and is not all-in.
    RaiseBelowMinimum { minimum: u32 },
    /// A raise by a player who has acted since the betting was last opened.
    RaiseNotOpen,
}

impl RuleViolation {
    /// The message shown to the player.
    pub open spec fn text(self) -> Seq<char> {
        match self {
            RuleViolation::NotYourTurn => "当前不该你行动"@,
            RuleViolation::CheckFacingBet { owed } => framed_number(
                "当前有人下注 "@,
                owed,
                "，你至少要下注和他相等"@,
            ),
            RuleViolation::BetOutsideStack { stack } => framed_number(
                "你只能下注你剩余的筹码 "@,
                stack,
                " 或更少"@,
            ),
            RuleViolation::BetBelowBigBlind { big_blind } => framed_number(
                "你只能下注大盲注 "@,
                big_blind,
                " 或更多"@,
            ),
            RuleViolation::RaiseBelowMinimum { minimum } => framed_number(
                "你只能加注 "@,
                minimum,
                " 或更多"@,
            ),
            RuleViolation::RaiseNotOpen => "加注未重新开放，你只能跟注或弃牌"@,
        }
    }

    /// Builds the message shown to the player.
    pub fn message(&self) -> (s: String)
        ensures
            s@ == self.text(),
    {
        match *self {
            RuleViolation::NotYourTurn => String::from_str("当前不该你行动"),
            RuleViolation::CheckFacingBet { owed } => frame_number(
                "当前有人下注 ",
                owed,
                "，你至少要下注和他相等",
            ),
            RuleViolation::BetOutsideStack { stack } => frame_number(
                "你只能下注你剩余的筹码 ",
                stack,
                " 或更少",
            ),
            RuleViolation::BetBelowBigBlind { big_blind } => frame_number(
                "你只能下注大盲注 ",
                big_blind,
                " 或更多",
            ),
            RuleViolation::RaiseBelowMinimum { minimum } => frame_number(
                "你只能加注 ",
                minimum,
                " 或更多",
            ),
            RuleViolation::RaiseNotOpen => String::from_str("加注未重新开放，你只能跟注或弃牌"),
        }
    }
}

impl GameView {
    /// What the player at `i` owes to stay in.
    pub open spec fn owed(self, i: int) -> int {
        self.max_bet - self.bets[i]
    }

    /// The rule that `action` by player `id` breaks, if any.
    ///
    /// Only the player to act may act. A check needs nothing owed. A bet or
    /// raise adds at least one chip and at most the stack, and is open only
    /// to a player who has not acted since the betting was last opened. An
    /// opening bet is at least the big blind; a raise goes above the highest
    /// commitment by at least the last raise step. A bet of the whole stack
    /// is exempt from both minimums.
    pub open spec fn violation(self, id: PlayerId, action: PlayerAction) -> Option<RuleViolation> {
        let i = self.cur_player_idx as int;
        if self.current_player_id() != Some(id) {
            Some(RuleViolation::NotYourTurn)
        } else {
            match action {
                PlayerAction::Fold => None,
                PlayerAction::Call => None,
                PlayerAction::Check => if self.owed(i) != 0 {
                    Some(RuleViolation::CheckFacingBet { owed: self.owed(i) as u32 })
                } else {
                    None
                },
                PlayerAction::BetOrRaise(delta) => {
                    let stack = self.stack_at(i);
                    if delta == 0 || delta > stack {
                        Some(RuleViolation::BetOutsideStack { stack })
                    } else if self.player_has_acted[i] {
                        Some(RuleViolation::RaiseNotOpen)
                    } else if self.owed(i) == 0 {
                        if delta < self.big_blind && stack > delta {
                            Some(RuleViolation::BetBelowBigBlind { big_blind: self.big_blind })
                        } else {
                            None
                        }
                    } else if self.bets[i] + delta <= self.max_bet || (self.bets[i] + delta
                        - self.max_bet < self.last_raise_amount && stack > delta) {
                        Some(
                            RuleViolation::RaiseBelowMinimum {
                                minimum: (self.owed(i) + self.last_raise_amount) as u32,
                            },
                        )
                    } else {
                        None
                    }
                },
            }
        }
    }

    /// The state after the player at `i` moved `c` chips from their stack to
    /// the pot; a player left without chips is all-in.
    pub open spec fn committed(self, i: int, c: int) -> GameView {
        let p = self.player_at(i);
        let stack = (p.stack - c) as u32;
        let state = if stack == 0 {
            PlayerState::AllIn
        } else {
            p.state
        };
        GameView {
            players: self.players.insert(self.hand_player_order[i], Player { stack, state, ..p }),
            pot: (self.pot + c) as u32,
            bets: self.bets.update(i, (self.bets[i] + c) as u32),
            ..self
        }
    }

    /// A bet or raise of `delta` by the player to act is a full one: an
    /// opening bet of at least the big blind, or a raise by at least the
    /// last raise step.
    pub open spec fn is_full_raise(self, delta: u32) -> bool {
        let i = self.cur_player_idx as int;
        if self.owed(i) == 0 {
            delta >= self.big_blind
        } else {
            self.bets[i] + delta - self.max_bet >= self.last_raise_amount
        }
    }

    /// The flags after the player at `i` re-opened the betting: every other
    /// player who can still bet has to act again.
    pub open spec fn reopened_flags(self, i: int) -> Seq<bool> {
        Seq::new(
            self.player_has_acted.len(),
            |j: int|
                if j != i && j < self.n() && self.can_bet(j) {
                    false
                } else {
                    self.player_has_acted[j]
                },
        )
    }

    /// The state after a legal `action` of the player to act.
    ///
    /// A fold marks the player folded. A call commits what is owed, or the
    /// whole stack if that is less. A bet or raise commits `delta` and sets
    /// the highest commitment; a full one also sets the raise step and
    /// re-opens the betting, one that is not full does neither. In every
    /// case the player has acted.
    pub open spec fn after_action(self, action: PlayerAction) -> GameView {
        let i = self.cur_player_idx as int;
        let p = self.player_at(i);
        let moved = match action {
            PlayerAction::Fold => self.with_player_at(i, Player { state: PlayerState::Folded, ..p }),
            PlayerAction::Check => self,
            PlayerAction::Call => {
                if self.owed(i) > 0 {
                    if self.owed(i) < p.stack {
                        self.committed(i, self.owed(i))
                    } else {
                        self.committed(i, p.stack as int)
                    }
                } else {
                    self
                }
            },
            PlayerAction::BetOrRaise(delta) => {
                let paid = self.committed(i, delta as int);
                let raised = GameView { max_bet: (self.bets[i] + delta) as u32, ..paid };
                if self.is_full_raise(delta) {
                    GameView {
                        last_raise_amount: (self.bets[i] + delta - self.max_bet) as u32,
                        player_has_acted: raised.reopened_flags(i),
                        ..raised
                    }
                } else {
                    raised
                }
            },
        };
        GameView { player_has_acted: moved.player_has_acted.update(i, true), ..moved }
    }

    /// The event that tells of an action, given the state after it.
    pub open spec fn acted_event(self, action: PlayerAction) -> Event {
        let i = self.cur_player_idx as int;
        Event::PlayerActed {
            player_id: self.hand_player_order[i],
            action,
            total_bet_this_round: self.bets[i],
            new_stack: self.stack_at(i),
            new_pot: self.pot,
        }
    }

    /// The ids of the first `upto` players who have not folded, in hand
    /// order.
    pub open spec fn unfolded(self, upto: int) -> Seq<PlayerId>
        decreases upto,
    {
        if upto <= 0 {
            Seq::empty()
        } else {
            let front = self.unfolded(upto - 1);
            if self.state_at(upto - 1) != PlayerState::Folded {
                front.push(self.hand_player_order[upto - 1])
            } else {
                front
            }
        }
    }

    /// The betting round is over: every player who can still bet has acted
    /// and has matched the highest commitment.
    pub open spec fn round_over(self) -> bool {
        forall|i: int|
            0 <= i < self.n() && #[trigger] self.can_bet(i) ==> self.player_has_acted[i]
                && self.bets[i] == self.max_bet
    }

    /// The player at `i` can be given the turn: they are playing, and have
    /// not acted yet or have not matched the highest commitment.
    pub open spec fn may_act(self, i: int) -> bool {
        self.state_at(i) == PlayerState::Playing && (!self.player_has_acted[i] || self.bets[i]
            < self.max_bet)
    }

    /// The position after `i` around the table.
    pub open spec fn seat_after(self, i: int) -> int {
        if i + 1 >= self.n() {
            0
        } else {
            i + 1
        }
    }

    /// The first player after position `i` who can be given the turn, within
    /// `steps` steps around the table; -1 where there is none.
    pub open spec fn next_actor(self, i: int, steps: int) -> int
        decreases steps,
    {
        if steps <= 0 {
            -1
        } else if self.may_act(self.seat_after(i)) {
            self.seat_after(i)
        } else {
            self.next_actor(self.seat_after(i), steps - 1)
        }
    }

    /// The actions open to the player at `i` when the turn comes to them.
    pub open spec fn options(self, i: int) -> Seq<PlayerActionType> {
        let owed = self.owed(i) as u32;
        let step = (self.owed(i) + self.last_raise_amount) as u32;
        if self.player_has_acted[i] {
            seq![PlayerActionType::Call(owed), PlayerActionType::Fold]
        } else if owed > 0 {
            seq![PlayerActionType::Call(owed), PlayerActionType::Raise(step), PlayerActionType::Fold]
        } else {
            seq![PlayerActionType::Check, PlayerActionType::Bet(step), PlayerActionType::Fold]
        }
    }

    /// The state and the event after the turn passed on: the next player
    /// around the table who can be given the turn is to act. Where there is
    /// none, nothing changes.
    pub open spec fn turn_passed(self) -> (GameView, Seq<Event>) {
        let next = self.next_actor(self.cur_player_idx as int, self.n());
        if next < 0 {
            (self, Seq::empty())
        } else {
            (
                GameView { cur_player_idx: next as usize, ..self },
                seq![
                    Event::NextToAct {
                        player_id: self.hand_player_order[next],
                        valid_actions: self.options(next),
                    },
                ],
            )
        }
    }

    /// The state and the events after player `id` sent `action`.
    ///
    /// An action that breaks a rule changes nothing and is answered with an
    /// error. A legal action takes effect and is announced. Then, if at most
    /// one player has not folded, the hand ends and the pot goes to them
    /// without a showdown; else if the round is over the next phase begins;
    /// else the turn passes on.
    pub open spec fn action_handled(self, id: PlayerId, action: PlayerAction) -> (
        GameView,
        Seq<Event>,
    ) {
        match self.violation(id, action) {
            Some(v) => (self, seq![Event::Error { message: v.text() }]),
            None => {
                let after = self.after_action(action);
                let told = seq![after.acted_event(action)];
                let left = after.unfolded(after.n());
                if left.len() <= 1 {
                    let (done, more) = (GameView {
                        phase: GamePhase::Showdown,
                        ..after
                    }).lone_winners_paid(left);
                    (done, told + more)
                } else if after.round_over() {
                    let (done, more) = after.phase_advanced();
                    (done, told + more)
                } else {
                    let (done, more) = after.turn_passed();
                    (done, told + more)
                }
            },
        }
    }

    /// The turn, the state and the events of one step of play without input:
    /// while a hand is running and the player to act is offline, they check
    /// if nothing is owed and fold otherwise. The first component tells
    /// whether such an action was taken.
    pub open spec fn ticked(self) -> (bool, GameView, Seq<Event>) {
        let i = self.cur_player_idx as int;
        if !crate::streets::is_betting_phase(self.phase) || self.state_at(i)
            != PlayerState::Offline {
            (false, self, Seq::empty())
        } else {
            let action = if self.owed(i) == 0 {
                PlayerAction::Check
            } else {
                PlayerAction::Fold
            };
            let (done, told) = self.action_handled(self.hand_player_order[i], action);
            (true, done, told)
        }
    }

    /// The players who have not folded are different players of the hand.
    pub proof fn lemma_unfolded(self, upto: int)
        requires
            self.order_consistent(),
            0 <= upto <= self.n(),
        ensures
            self.unfolded(upto).no_duplicates(),
            forall|k: int|
                0 <= k < self.unfolded(upto).len() ==> exists|j: int|
                    0 <= j < upto && self.hand_player_order[j] == #[trigger] self.unfolded(upto)[k],
        decreases upto,
    {
        if upto > 0 {
            self.lemma_unfolded(upto - 1);
            let front = self.unfolded(upto - 1);
            let all = self.unfolded(upto);
            if self.state_at(upto - 1) != PlayerState::Folded {
                assert forall|k: int| 0 <= k < all.len() implies exists|j: int|
                    0 <= j < upto && self.hand_player_order[j] == #[trigger] all[k] by {
                    if k < front.len() {
                        let j = choose|j: int|
                            0 <= j < upto - 1 && self.hand_player_order[j] == front[k];
                        assert(self.hand_player_order[j] == all[k]);
                    } else {
                        assert(self.hand_player_order[upto - 1] == all[k]);
                    }
                }
                assert forall|a: int, b: int|
                    0 <= a < all.len() && 0 <= b < all.len() && a != b implies all[a] != all[b] by {
                    if a < front.len() && b < front.len() {
                        assert(front[a] != front[b]);
                    } else {
                        let early = if a < front.len() {
                            a
                        } else {
                            b
                        };
                        let j = choose|j: int|
                            0 <= j < upto - 1 && self.hand_player_order[j] == front[early];
                        assert(self.hand_player_order[j] != self.hand_player_order[upto - 1]);
                    }
                }
            } else {
                assert forall|k: int| 0 <= k < all.len() implies exists|j: int|
                    0 <= j < upto && self.hand_player_order[j] == #[trigger] all[k] by {
                    let j = choose|j: int|
                        0 <= j < upto - 1 && self.hand_player_order[j] == front[k];
                    assert(self.hand_player_order[j] == all[k]);
                }
            }
        }
    }

    /// The next player to act, where there is one, is a player of the hand
    /// who can be given the turn.
    pub proof fn lemma_next_actor(self, i: int, steps: int)
        requires
            0 <= i < self.n(),
        ensures
            -1 <= self.next_actor(i, steps) < self.n(),
            self.next_actor(i, steps) >= 0 ==> self.may_act(self.next_actor(i, steps)),
        decreases steps,
    {
        if steps > 0 && !self.may_act(self.seat_after(i)) {
            self.lemma_next_actor(self.seat_after(i), steps - 1);
        }
    }

    /// Moving chips from a stack to the pot keeps what the settling relies
    /// on, and keeps the chips in play.
    pub proof fn lemma_committed(self, i: int, c: int)
        requires
            self.showdown_ready(),
            0 <= i < self.n(),
            0 <= c <= self.stack_at(i),
        ensures
            self.committed(i, c).showdown_ready(),
            self.committed(i, c).chips() == self.chips(),
            self.pot + c <= u32::MAX,
            self.bets[i] + c <= self.pot + c,
            self.bets[i] + c + (self.stack_at(i) - c) <= self.chips(),
            self.committed(i, c).stack_at(i) == self.stack_at(i) - c,
            forall|j: int| 0 <= j < self.n() && j != i ==> self.committed(i, c).player_at(j)
                == #[trigger] self.player_at(j),
    {
        let after = self.committed(i, c);
        let q = after.players[self.hand_player_order[i]];
        lemma_total_bounds(self.bets);
        lemma_total_bounds(self.stacks());
        self.lemma_stacks_with_player(i, q);
        assert(after.stacks() =~= self.with_player_at(i, q).stacks());
        lemma_total_update(self.stacks(), i, q.stack);
        lemma_total_update(self.bets, i, (self.bets[i] + c) as u32);
        after.lemma_counters_fit(self);
    }

    /// A change of one player's state alone keeps what the settling relies
    /// on, and keeps the chips in play.
    pub proof fn lemma_state_changed(self, i: int, state: PlayerState)
        requires
            self.showdown_ready(),
            0 <= i < self.n(),
        ensures
            self.with_player_at(i, (Player { state, ..self.player_at(i) })).showdown_ready(),
            self.with_player_at(i, (Player { state, ..self.player_at(i) })).chips() == self.chips(),
    {
        let q = Player { state, ..self.player_at(i) };
        let after = self.with_player_at(i, q);
        self.lemma_stacks_with_player(i, q);
        assert(after.stacks() =~= self.stacks());
        after.lemma_counters_fit(self);
    }

    /// A legal action keeps what the betting relies on, keeps the chips in
    /// play, and leaves the turn where it is.
    pub proof fn lemma_after_action(self, id: PlayerId, action: PlayerAction)
        requires
            self.betting_ready(),
            self.violation(id, action).is_none(),
        ensures
            self.after_action(action).betting_ready(),
            self.after_action(action).chips() == self.chips(),
            self.after_action(action).cur_player_idx == self.cur_player_idx,
            self.after_action(action).phase == self.phase,
    {
        let i = self.cur_player_idx as int;
        let p = self.player_at(i);
        let after = self.after_action(action);
        match action {
            PlayerAction::Fold => {
                self.lemma_state_changed(i, PlayerState::Folded);
                let moved = self.with_player_at(i, Player { state: PlayerState::Folded, ..p });
                assert(after.stacks() =~= moved.stacks());
                after.lemma_counters_fit(moved);
            },
            PlayerAction::Check => {
                assert(after.stacks() =~= self.stacks());
                after.lemma_counters_fit(self);
            },
            PlayerAction::Call => {
                if self.owed(i) > 0 {
                    let c = if self.owed(i) < p.stack {
                        self.owed(i)
                    } else {
                        p.stack as int
                    };
                    self.lemma_committed(i, c);
                    let moved = self.committed(i, c);
                    assert(after.stacks() =~= moved.stacks());
                    after.lemma_counters_fit(moved);
                } else {
                    assert(after.stacks() =~= self.stacks());
                    after.lemma_counters_fit(self);
                }
            },
            PlayerAction::BetOrRaise(delta) => {
                self.lemma_committed(i, delta as int);
                let moved = self.committed(i, delta as int);
                assert(after.stacks() =~= moved.stacks());
                after.lemma_counters_fit(moved);
            },
        }
    }
}

impl GameState {
    /// Tests `action` by player `player_id` against the rules.
    pub fn check_action(&self, player_id: PlayerId, action: PlayerAction) -> (broken: Option<
        RuleViolation,
    >)
        requires
            self@.betting_ready(),
        ensures
            broken == self@.violation(player_id, action),
    {
        if self.hand_player_order[self.cur_player_idx] != player_id {
            return Some(RuleViolation::NotYourTurn);
        }
        let i = self.cur_player_idx;
        proof {
            self@.lemma_committed(i as int, 0);
        }
        let owed = self.max_bet - self.bets[i];
        match action {
            PlayerAction::Fold => None,
            PlayerAction::Call => None,
            PlayerAction::Check => {
                if owed != 0 {
                    Some(RuleViolation::CheckFacingBet { owed })
                } else {
                    None
                }
            },
            PlayerAction::BetOrRaise(delta) => {
                let stack = self.stack_at(i);
                if delta == 0 || delta > stack {
                    Some(RuleViolation::BetOutsideStack { stack })
                } else if self.player_has_acted[i] {
                    Some(RuleViolation::RaiseNotOpen)
                } else if owed == 0 {
                    if delta < self.big_blind && stack > delta {
                        Some(RuleViolation::BetBelowBigBlind { big_blind: self.big_blind })
                    } else {
                        None
                    }
                } else {
                    let new_total = self.bets[i] + delta;
                    if new_total <= self.max_bet || (new_total - self.max_bet
                        < self.last_raise_amount && stack > delta) {
                        Some(
                            RuleViolation::RaiseBelowMinimum {
                                minimum: owed + self.last_raise_amount,
                            },
                        )
                    } else {
                        None
                    }
                }
            },
        }
    }

    /// Moves `c` chips from the stack of the player at `i` to the pot.
    pub fn commit_chips(&mut self, i: usize, c: u32)
        requires
            old(self)@.showdown_ready(),
            i < old(self)@.n(),
            c <= old(self)@.stack_at(i as int),
        ensures
            final(self)@ == old(self)@.committed(i as int, c as int),
    {
        proof {
            old(self)@.lemma_committed(i as int, c as int);
        }
        let id = self.hand_player_order[i];
        match take_player(&mut self.players, id) {
            Some(p) => {
                let stack = p.stack - c;
                let state = if stack == 0 {
                    PlayerState::AllIn
                } else {
                    p.state
                };
                let q = Player { stack, state, ..p };
                replace_player(&mut self.players, id, q);
                self.pot = self.pot + c;
                let bet = self.bets[i] + c;
                self.bets.set(i, bet);
                proof {
                    assert(self@.players =~= old(self)@.committed(i as int, c as int).players);
                }
            },
            None => {},
        }
    }

    /// Carries out a legal `action` of the player to act and tells of it.
    pub fn apply_action(&mut self, action: PlayerAction) -> (told: ServerMessage)
        requires
            old(self)@.betting_ready(),
            old(self)@.violation(
                old(self)@.hand_player_order[old(self)@.cur_player_idx as int],
                action,
            ).is_none(),
        ensures
            final(self)@ == old(self)@.after_action(action),
            told@ == final(self)@.acted_event(action),
    {
        let i = self.cur_player_idx;
        let id = self.hand_player_order[i];
        proof {
            old(self)@.lemma_after_action(id, action);
        }
        match action {
            PlayerAction::Fold => {
                match take_player(&mut self.players, id) {
                    Some(p) => {
                        let q = Player { state: PlayerState::Folded, ..p };
                        replace_player(&mut self.players, id, q);
                        proof {
                            assert(self@.players =~= old(self)@.players.insert(id, q));
                        }
                    },
                    None => {},
                }
            },
            PlayerAction::Check => {},
            PlayerAction::Call => {
                let owed = self.max_bet - self.bets[i];
                if owed > 0 {
                    let stack = self.stack_at(i);
                    let c = if owed < stack {
                        owed
                    } else {
                        stack
                    };
                    self.commit_chips(i, c);
                }
            },
            PlayerAction::BetOrRaise(delta) => {
                let owed = self.max_bet - self.bets[i];
                let new_total = self.bets[i] + delta;
                let full = if owed == 0 {
                    delta >= self.big_blind
                } else {
                    new_total - self.max_bet >= self.last_raise_amount
                };
                proof {
                    old(self)@.lemma_committed(i as int, delta as int);
                }
                self.commit_chips(i, delta);
                let old_max = self.max_bet;
                self.max_bet = new_total;
                if full {
                    self.last_raise_amount = new_total - old_max;
                    let ghost raised = self@;
                    let flags = self.player_has_acted.len();
                    let mut j: usize = 0;
                    while j < flags
                        invariant
                            j <= flags,
                            flags == raised.n(),
                            i < flags,
                            raised.order_consistent(),
                            raised.player_has_acted.len() == flags,
                            self@ == (GameView {
                                player_has_acted: self@.player_has_acted,
                                ..raised
                            }),
                            self@.player_has_acted.len() == flags,
                            forall|k: int|
                                0 <= k < j ==> self@.player_has_acted[k] == raised.reopened_flags(
                                    i as int,
                                )[k],
                            forall|k: int|
                                j <= k < flags ==> self@.player_has_acted[k]
                                    == raised.player_has_acted[k],
                        decreases flags - j,
                    {
                        if j != i {
                            let state = self.state_at(j);
                            if state != PlayerState::Folded && state != PlayerState::AllIn {
                                self.player_has_acted.set(j, false);
                            }
                        }
                        j += 1;
                    }
                    proof {
                        let paid = old(self)@.committed(i as int, delta as int);
                        let lifted = GameView { max_bet: new_total, ..paid };
                        assert(raised.reopened_flags(i as int) =~= lifted.reopened_flags(i as int));
                        assert(self@.player_has_acted =~= lifted.reopened_flags(i as int));
                    }
                }
            },
        }
        let ghost moved = self@;
        self.player_has_acted.set(i, true);
        proof {
            assert(self@ == (GameView {
                player_has_acted: moved.player_has_acted.update(i as int, true),
                ..moved
            }));
        }
        let stack = self.stack_at(i);
        ServerMessage::PlayerActed {
            player_id: id,
            action,
            total_bet_this_round: self.bets[i],
            new_stack: stack,
            new_pot: self.pot,
        }
    }

    /// The ids of the players who have not folded, in hand order.
    pub fn players_left(&self) -> (left: Vec<PlayerId>)
        requires
            self@.order_consistent(),
        ensures
            left@ == self@.unfolded(self@.n()),
    {
        let n = self.hand_player_order.len();
        let mut left: Vec<PlayerId> = Vec::new();
        let mut i: usize = 0;
        while i < n
            invariant
                i <= n,
                n == self@.n(),
                self@.order_consistent(),
                left@ == self@.unfolded(i as int),
            decreases n - i,
        {
            if self.state_at(i) != PlayerState::Folded {
                left.push(self.hand_player_order[i]);
            }
            i += 1;
        }
        left
    }

    /// Whether the betting round is over.
    pub fn check_betting_round_over(&self) -> (over: bool)
        requires
            self@.order_consistent(),
            self@.bets.len() == self@.n(),
            self@.player_has_acted.len() == self@.n(),
        ensures
            over == self@.round_over(),
    {
        let n = self.hand_player_order.len();
        let mut i: usize = 0;
        while i < n
            invariant
                i <= n,
                n == self@.n(),
                self@.order_consistent(),
                self@.bets.len() == self@.n(),
                self@.player_has_acted.len() == self@.n(),
                forall|j: int|
                    0 <= j < i && #[trigger] self@.can_bet(j) ==> self@.player_has_acted[j]
                        && self@.bets[j] == self@.max_bet,
            decreases n - i,
        {
            let state = self.state_at(i);
            if state != PlayerState::Folded && state != PlayerState::AllIn {
                if !self.player_has_acted[i] || self.bets[i] != self.max_bet {
                    assert(self@.can_bet(i as int));
                    assert(!(self@.player_has_acted[i as int] && self@.bets[i as int]
                        == self@.max_bet));
                    return false;
                }
            }
            assert(self@.can_bet(i as int) ==> self@.player_has_acted[i as int] && self@.bets[i as int]
                == self@.max_bet);
            i += 1;
        }
        true
    }

    /// The actions open to the player at `i` when the turn comes to them.
    pub fn options_at(&self, i: usize) -> (valid_actions: Vec<PlayerActionType>)
        requires
            self@.betting_ready(),
            i < self@.n(),
        ensures
            valid_actions@ == self@.options(i as int),
    {
        proof {
            self@.lemma_committed(i as int, 0);
        }
        let owed = self.max_bet - self.bets[i];
        let step = owed + self.last_raise_amount;
        let mut valid_actions: Vec<PlayerActionType> = Vec::new();
        if self.player_has_acted[i] {
            valid_actions.push(PlayerActionType::Call(owed));
            valid_actions.push(PlayerActionType::Fold);
        } else if owed > 0 {
            valid_actions.push(PlayerActionType::Call(owed));
            valid_actions.push(PlayerActionType::Raise(step));
            valid_actions.push(PlayerActionType::Fold);
        } else {
            valid_actions.push(PlayerActionType::Check);
            valid_actions.push(PlayerActionType::Bet(step));
            valid_actions.push(PlayerActionType::Fold);
        }
        valid_actions
    }

    /// Passes the turn to the next player around the table who can be given
    /// it.
    pub fn advance_to_next_player(&mut self) -> (msgs: Vec<ServerMessage>)
        requires
            old(self)@.betting_ready(),
        ensures
            final(self)@ == old(self)@.turn_passed().0,
            events(msgs@) == old(self)@.turn_passed().1,
    {
        let n = self.hand_player_order.len();
        let mut pos = self.cur_player_idx;
        let mut steps = n;
        while steps > 0
            invariant
                n == self@.n(),
                pos < n,
                self@ == old(self)@,
                self@.betting_ready(),
                self@.next_actor(pos as int, steps as int) == self@.next_actor(
                    self@.cur_player_idx as int,
                    n as int,
                ),
            decreases steps,
        {
            pos = if pos + 1 >= n {
                0
            } else {
                pos + 1
            };
            if self.state_at(pos) == PlayerState::Playing && (!self.player_has_acted[pos]
                || self.bets[pos] < self.max_bet) {
                let valid_actions = self.options_at(pos);
                self.cur_player_idx = pos;
                let mut msgs = no_messages();
                emit(
                    &mut msgs,
                    ServerMessage::NextToAct { player_id: self.hand_player_order[pos], valid_actions },
                );
                return msgs;
            }
            steps -= 1;
        }
        no_messages()
    }

    /// Handles one action of one player: refuses it with an error, or
    /// carries it out and moves the hand on.
    pub fn handle_player_action(&mut self, player_id: PlayerId, action: PlayerAction) -> (msgs: Vec<
        ServerMessage,
    >)
        requires
            old(self)@.betting_ready(),
        ensures
            final(self)@ == old(self)@.action_handled(player_id, action).0,
            events(msgs@) == old(self)@.action_handled(player_id, action).1,
            crate::streets::is_betting_phase(final(self)@.phase) ==> final(self)@.betting_ready(),
            final(self)@.same_hand_as(old(self)@),
    {
        proof {
            old(self)@.lemma_action_handled(player_id, action);
        }
        let mut msgs = no_messages();
        match self.check_action(player_id, action) {
            Some(broken) => {
                emit(&mut msgs, ServerMessage::Error { message: broken.message() });
                msgs
            },
            None => {
                proof {
                    old(self)@.lemma_after_action(player_id, action);
                }
                let told = self.apply_action(action);
                emit(&mut msgs, told);
                let ghost after = self@;
                proof {
                    after.lemma_unfolded(after.n());
                }
                let left = self.players_left();
                if left.len() <= 1 {
                    self.phase = GamePhase::Showdown;
                    proof {
                        let ended = self@;
                        assert(ended.stacks() =~= after.stacks());
                        ended.lemma_counters_fit(after);
                        assert forall|k: int| 0 <= k < left@.len() implies ended.player_indices.contains_key(
                        #[trigger] left@[k]) by {
                            let j = choose|j: int|
                                0 <= j < after.n() && after.hand_player_order[j] == left@[k];
                            assert(after.player_indices.contains_key(after.hand_player_order[j]));
                        }
                    }
                    let more = self.distribute_pot_to_single_winner_group(left);
                    emit_all(&mut msgs, more);
                    msgs
                } else if self.check_betting_round_over() {
                    let more = self.advance_to_next_phase();
                    emit_all(&mut msgs, more);
                    msgs
                } else {
                    let more = self.advance_to_next_player();
                    emit_all(&mut msgs, more);
                    msgs
                }
            },
        }
    }

    /// Takes one step of play without input: if a hand is running and the
    /// player to act is offline, acts for them. Tells whether it did.
    pub fn tick(&mut self) -> (step: (bool, Vec<ServerMessage>))
        requires
            crate::streets::is_betting_phase(old(self)@.phase) ==> old(self)@.betting_ready(),
        ensures
            step.0 == old(self)@.ticked().0,
            final(self)@ == old(self)@.ticked().1,
            events(step.1@) == old(self)@.ticked().2,
            crate::streets::is_betting_phase(final(self)@.phase) ==> final(self)@.betting_ready(),
            final(self)@.same_hand_as(old(self)@),
    {
        match self.phase {
            GamePhase::WaitingForPlayers | GamePhase::Showdown => {
                return (false, no_messages());
            },
            _ => {},
        }
        let i = self.cur_player_idx;
        if self.state_at(i) == PlayerState::Offline {
            let action = if self.max_bet - self.bets[i] == 0 {
                PlayerAction::Check
            } else {
                PlayerAction::Fold
            };
            let msgs = self.handle_player_action(self.hand_player_order[i], action);
            (true, msgs)
        } else {
            (false, no_messages())
        }
    }
}

} // verus!
