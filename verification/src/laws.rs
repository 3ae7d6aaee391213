//! What holds of every hand: the chips in play are kept, commitments stay
//! within the highest one, the raise step never falls below the big blind,
//! the hole cards stay dealt, and play is a function of state and input.

use crate::card::Card;
use crate::message::{Event, ShowdownResult};
use crate::pot_laws::{
    lemma_all_winnings_sum, lemma_no_hand_no_winnings, lemma_total_plus, sum, top_is_shown,
};
use crate::pots::all_winnings;
use crate::showdown::settle_player;
use crate::state::{
    lemma_total_bounds, lemma_total_update, lemma_update_keeps_people, same_people, total,
    GamePhase, GameView, Player, PlayerAction, PlayerId, PlayerState,
};
use crate::start::{benched, blind_paid, hole_cards, is_absent, set_playing};
use crate::streets::{cards_to_come, is_betting_phase, streets_to_come};
use vstd::prelude::*;

verus! {

impl GameView {
    /// Every player of the hand holds both hole cards.
    pub open spec fn cards_dealt(self) -> bool {
        &&& self.player_cards.len() == self.n()
        &&& forall|i: int|
            0 <= i < self.n() ==> (#[trigger] self.player_cards[i]).0.is_some()
                && self.player_cards[i].1.is_some()
    }

    /// No commitment is above the highest, and the raise step is at least
    /// the big blind.
    pub open spec fn bets_in_bounds(self) -> bool {
        &&& self.bets.len() == self.n()
        &&& forall|i: int| 0 <= i < self.n() ==> #[trigger] self.bets[i] <= self.max_bet
        &&& self.big_blind <= self.last_raise_amount
    }

    /// The table is that of `before`: the same room, blinds and seats, the
    /// same people, seated as they were.
    pub open spec fn same_table_as(self, before: GameView) -> bool {
        &&& self.room_id == before.room_id
        &&& self.small_blind == before.small_blind
        &&& self.big_blind == before.big_blind
        &&& self.seats == before.seats
        &&& self.seated_players == before.seated_players
        &&& same_people(before.players, self.players)
    }

    /// The hand and the table are those of `before`: the same players in
    /// the same order, with the same hole cards.
    pub open spec fn same_hand_as(self, before: GameView) -> bool {
        &&& self.same_table_as(before)
        &&& self.hand_player_order == before.hand_player_order
        &&& self.player_indices == before.player_indices
        &&& self.player_cards == before.player_cards
    }

    /// Passing the turn keeps the state fit for betting and the chips in
    /// play; the turn stays within the hand.
    pub proof fn lemma_turn_passed(self)
        requires
            self.betting_ready(),
        ensures
            self.turn_passed().0.betting_ready(),
            self.turn_passed().0.chips() == self.chips(),
            self.turn_passed().0.same_hand_as(self),
            self.turn_passed().0.phase == self.phase,
    {
        let after = self.turn_passed().0;
        self.lemma_next_actor(self.cur_player_idx as int, self.n());
        assert(after.stacks() =~= self.stacks());
        after.lemma_counters_fit(self);
    }

    /// A state fit for betting, moved to the showdown phase, is fit for the
    /// settling.
    pub proof fn lemma_at_showdown(self)
        requires
            self.showdown_ready(),
        ensures
            (GameView { phase: GamePhase::Showdown, ..self }).showdown_ready(),
            (GameView { phase: GamePhase::Showdown, ..self }).chips() == self.chips(),
    {
        let at = GameView { phase: GamePhase::Showdown, ..self };
        assert(at.stacks() =~= self.stacks());
        at.lemma_counters_fit(self);
    }

    /// A reset round keeps the state fit for betting and the chips in play.
    pub proof fn lemma_round_reset(self)
        requires
            self.betting_ready(),
        ensures
            self.round_reset().betting_ready(),
            self.round_reset().chips() == self.chips(),
            self.round_reset().same_hand_as(self),
    {
        let after = self.round_reset();
        assert(after.stacks() =~= self.stacks());
        after.lemma_counters_fit(self);
    }

    /// Dealing streets changes neither the hand nor its commitments.
    pub proof fn lemma_run_out_keeps(self)
        ensures
            self.run_out().0.same_hand_as(self),
            self.run_out().0.bets == self.bets,
            self.run_out().0.max_bet == self.max_bet,
            self.run_out().0.last_raise_amount == self.last_raise_amount,
            self.run_out().0.player_has_acted == self.player_has_acted,
            self.run_out().0.cur_player_idx == self.cur_player_idx,
            self.run_out().0.players == self.players,
            self.run_out().0.pot == self.pot,
            self.street_dealt().0.same_hand_as(self),
            self.street_dealt().0.bets == self.bets,
            self.street_dealt().0.max_bet == self.max_bet,
            self.street_dealt().0.last_raise_amount == self.last_raise_amount,
            self.street_dealt().0.player_has_acted == self.player_has_acted,
            self.street_dealt().0.cur_player_idx == self.cur_player_idx,
            self.street_dealt().0.players == self.players,
            self.street_dealt().0.pot == self.pot,
        decreases streets_to_come(self.phase),
    {
        if streets_to_come(self.phase) > 0 {
            self.street_dealt().0.lemma_run_out_keeps();
        }
    }

    /// Settling a hand changes neither who is in it, nor the hole cards,
    /// nor the highest commitment and the raise step; no commitment grows,
    /// and the phase stays.
    pub proof fn lemma_showdown_keeps(self)
        requires
            self.showdown_ready(),
        ensures
            self.showdown_done().0.same_hand_as(self),
            self.showdown_done().0.phase == self.phase,
            self.showdown_done().0.max_bet == self.max_bet,
            self.showdown_done().0.last_raise_amount == self.last_raise_amount,
            self.showdown_done().0.bets.len() == self.bets.len(),
            forall|i: int|
                0 <= i < self.n() ==> #[trigger] self.showdown_done().0.bets[i] <= self.bets[i],
    {
        let returned = self.uncalled_returned().0;
        self.lemma_top_two(self.n());
        self.lemma_uncalled_returned();
        let (top, second) = self.top_two(self.n());
        if top >= 0 && second >= 0 && self.bets[top] > second {
            lemma_update_keeps_people(
                self.players,
                self.players,
                self.hand_player_order[top],
                returned.players[self.hand_player_order[top]],
            );
        }
        let won = crate::pots::all_winnings(returned.bets, returned.showdown_ranks());
        returned.lemma_settled_players_people(won, returned.n());
        crate::laws::lemma_same_people_transitive(
            self.players,
            returned.players,
            self.showdown_done().0.players,
        );
    }

    /// Settling players keeps the people.
    pub proof fn lemma_settled_players_people(self, won: Seq<int>, upto: int)
        requires
            self.order_consistent(),
            0 <= upto <= self.n(),
        ensures
            same_people(self.players, self.settled_players(won, upto)),
        decreases upto,
    {
        if upto > 0 {
            self.lemma_settled_players_people(won, upto - 1);
            lemma_update_keeps_people(
                self.players,
                self.settled_players(won, upto - 1),
                self.hand_player_order[upto - 1],
                settle_player(self.player_at(upto - 1), won[upto - 1]),
            );
        }
    }

    /// The end of a betting round leaves the state fit for betting and the
    /// chips in play wherever the betting goes on, and else ends the hand.
    pub proof fn lemma_phase_advanced(self)
        requires
            self.betting_ready(),
        ensures
            is_betting_phase(self.phase_advanced().0.phase) ==> self.phase_advanced().0.betting_ready()
                && self.phase_advanced().0.chips() == self.chips(),
            !is_betting_phase(self.phase_advanced().0.phase) ==> self.phase_advanced().0.phase
                == GamePhase::Showdown,
            self.phase_advanced().0.same_hand_as(self),
            self.phase_advanced().0.bets_in_bounds(),
    {
        self.lemma_round_reset();
        let reset = self.round_reset();
        match reset.phase {
            GamePhase::River => {
                reset.lemma_at_showdown();
                (GameView { phase: GamePhase::Showdown, ..reset }).lemma_showdown_keeps();
                let at = GameView { phase: GamePhase::Showdown, ..reset };
            },
            GamePhase::PreFlop | GamePhase::Flop | GamePhase::Turn => {
                reset.lemma_street_dealt();
                reset.lemma_run_out_keeps();
                let dealt = reset.street_dealt().0;
                if dealt.bettor_count(dealt.n()) < 2 {
                    dealt.lemma_run_out();
                    dealt.lemma_run_out_keeps();
                    let done = dealt.run_out().0;
                    done.lemma_at_showdown();
                    let at = GameView { phase: GamePhase::Showdown, ..done };
                    at.lemma_showdown_keeps();
                } else {
                    dealt.lemma_first_bettor(1);
                    dealt.lemma_bettor_count(dealt.n());
                    let after = self.phase_advanced().0;
                    assert(after.stacks() =~= dealt.stacks());
                    after.lemma_counters_fit(dealt);
                }
            },
            _ => {},
        }
    }
}

impl GameView {
    /// The chips of the pot that no player wins at the showdown: those of
    /// layers that nobody who shows a hand has committed up to.
    pub open spec fn unclaimed(self) -> int {
        if self.pot == 0 {
            0
        } else {
            self.pot - sum(all_winnings(self.bets, self.showdown_ranks()))
        }
    }

    /// After the settling, each player of the hand has the record that
    /// `settle_player` gives.
    pub proof fn lemma_settled_players_at(self, won: Seq<int>, upto: int, j: int)
        requires
            self.order_consistent(),
            0 <= j < upto <= self.n(),
        ensures
            self.settled_players(won, upto)[self.hand_player_order[j]] == settle_player(
                self.player_at(j),
                won[j],
            ),
        decreases upto,
    {
        if j < upto - 1 {
            self.lemma_settled_players_at(won, upto - 1, j);
        }
    }

    /// Law of the chips at the payment of the pot: the chips in play after
    /// it, and the chips that nobody wins, are the chips in play before
    /// it. Nothing is lost where the highest commitment belongs to a player
    /// who shows a hand.
    pub proof fn lemma_pots_distributed_chips(self)
        requires
            self.showdown_ready(),
        ensures
            self.pots_distributed().0.chips() + self.unclaimed() == self.chips(),
            0 <= self.unclaimed(),
            top_is_shown(self.bets, self.showdown_ranks()) ==> self.unclaimed() == 0,
    {
        if self.pot != 0 {
            let after = self.pots_distributed().0;
            let won = all_winnings(self.bets, self.showdown_ranks());
            lemma_all_winnings_sum(self.bets, self.showdown_ranks());
            lemma_total_bounds(self.stacks());
            assert forall|i: int| 0 <= i < self.n() implies after.stacks()[i] == self.stacks()[i]
                + won[i] by {
                self.lemma_settled_players_at(won, self.n(), i);
            }
            lemma_total_plus(self.stacks(), won, after.stacks());
        }
    }

    /// The result told of the player at `i` who shows a hand: who they are,
    /// their hand, their hole cards, and what they win.
    pub open spec fn result_of(self, won: Seq<int>, i: int) -> ShowdownResult {
        ShowdownResult {
            player_id: self.hand_player_order[i],
            hand_rank: self.showdown_rank(i),
            cards: Some((self.player_cards[i].0.unwrap(), self.player_cards[i].1.unwrap())),
            winnings: won[i] as u32,
        }
    }

    /// Law of the results: a showdown tells one result for each player who
    /// shows a hand, and none for anyone else.
    pub proof fn lemma_showdown_results(self, won: Seq<int>, upto: int)
        requires
            0 <= upto <= self.n(),
        ensures
            self.showdown_results(won, upto).len() <= upto,
            forall|k: int|
                0 <= k < self.showdown_results(won, upto).len() ==> exists|i: int|
                    0 <= i < upto && (#[trigger] self.showdown_rank(i)).is_some()
                        && (#[trigger] self.showdown_results(won, upto)[k]) == self.result_of(
                        won,
                        i,
                    ),
            forall|i: int|
                0 <= i < upto && (#[trigger] self.showdown_rank(i)).is_some() ==> exists|k: int|
                    0 <= k < self.showdown_results(won, upto).len() && #[trigger] self.showdown_results(
                        won,
                        upto,
                    )[k] == self.result_of(won, i),
        decreases upto,
    {
        if upto > 0 {
            self.lemma_showdown_results(won, upto - 1);
            let front = self.showdown_results(won, upto - 1);
            let all = self.showdown_results(won, upto);
            assert forall|k: int| 0 <= k < all.len() implies exists|i: int|
                0 <= i < upto && (#[trigger] self.showdown_rank(i)).is_some() && (#[trigger] all[k])
                    == self.result_of(won, i) by {
                if k < front.len() {
                    let i = choose|i: int|
                        0 <= i < upto - 1 && (#[trigger] self.showdown_rank(i)).is_some()
                            && front[k] == self.result_of(won, i);
                    assert(all[k] == front[k]);
                    assert(self.showdown_rank(i).is_some() && all[k] == self.result_of(won, i));
                } else {
                    assert(self.showdown_rank(upto - 1).is_some() && all[k] == self.result_of(
                        won,
                        upto - 1,
                    ));
                }
            }
            assert forall|i: int|
                0 <= i < upto && (#[trigger] self.showdown_rank(i)).is_some() implies exists|k: int|
                0 <= k < all.len() && #[trigger] all[k] == self.result_of(won, i) by {
                if i < upto - 1 {
                    let k = choose|k: int|
                        0 <= k < front.len() && #[trigger] front[k] == self.result_of(won, i);
                    assert(all[k] == front[k]);
                } else {
                    assert(all[all.len() - 1] == self.result_of(won, i));
                }
            }
        }
    }

    /// A player who has not folded, whose hole cards make five to seven
    /// different cards with the board, shows a hand. Where nobody has
    /// committed more than they have, the highest commitment belongs to a
    /// player who shows a hand.
    pub proof fn lemma_top_shows(self, c: int, c1: Card, c2: Card)
        requires
            self.bets.len() == self.n(),
            0 <= c < self.n(),
            self.state_at(c) != PlayerState::Folded,
            self.player_cards[c] == (Some(c1), Some(c2)),
            crate::eval::valid_hand_input(self.shown_cards(c1, c2)),
            forall|j: int| 0 <= j < self.n() ==> #[trigger] self.bets[j] <= self.bets[c],
        ensures
            self.showdown_rank(c).is_some(),
            self.top_shows(),
    {
        assert(self.showdown_ranks()[c] == self.showdown_rank(c));
    }

    /// Law of the payout: where the pot holds chips and the highest
    /// commitment belongs to a player who shows a hand, the pot is emptied
    /// into the stacks, what the players win adds up to the pot, a player
    /// who folded or shows no hand wins nothing, and one showdown is told.
    pub proof fn lemma_payout(self)
        requires
            self.showdown_ready(),
            self.pot > 0,
            self.top_shows(),
        ensures
            self.pots_distributed().0.pot == 0,
            total(self.pots_distributed().0.stacks()) == total(self.stacks()) + self.pot,
            sum(all_winnings(self.bets, self.showdown_ranks())) == self.pot,
            forall|i: int|
                0 <= i < self.n() && (#[trigger] self.showdown_rank(i)).is_none() ==> all_winnings(
                    self.bets,
                    self.showdown_ranks(),
                )[i] == 0 && self.pots_distributed().0.stack_at(i) == self.stack_at(i),
            forall|i: int|
                0 <= i < self.n() ==> (#[trigger] self.pots_distributed().0.stack_at(i))
                    == self.stack_at(i) + all_winnings(self.bets, self.showdown_ranks())[i],
            self.pots_distributed().1 == seq![
                Event::Showdown {
                    results: self.showdown_results(
                        all_winnings(self.bets, self.showdown_ranks()),
                        self.n() as int,
                    ),
                },
            ],
    {
        let won = all_winnings(self.bets, self.showdown_ranks());
        let after = self.pots_distributed().0;
        self.lemma_pots_distributed_chips();
        lemma_all_winnings_sum(self.bets, self.showdown_ranks());
        lemma_total_bounds(self.stacks());
        assert forall|i: int| 0 <= i < self.n() implies (#[trigger] after.stack_at(i))
            == self.stack_at(i) + won[i] by {
            self.lemma_settled_players_at(won, self.n() as int, i);
            assert(after.stacks()[i] == after.stack_at(i));
            assert(self.stacks()[i] == self.stack_at(i));
        }
        assert forall|i: int|
            0 <= i < self.n() && (#[trigger] self.showdown_rank(i)).is_none() implies won[i] == 0
            && after.stack_at(i) == self.stack_at(i) by {
            assert(self.showdown_ranks()[i] == self.showdown_rank(i));
            lemma_no_hand_no_winnings(self.bets, self.showdown_ranks(), 0, i);
            assert(after.stack_at(i) == self.stack_at(i) + won[i]);
        }
    }

    /// The highest commitment of the hand belongs to a player who shows a
    /// hand.
    pub open spec fn top_shows(self) -> bool {
        top_is_shown(self.bets, self.showdown_ranks())
    }

    /// Returning an uncalled bet changes no hand shown, and where the
    /// highest commitment belonged to a player who shows a hand it still
    /// does.
    pub proof fn lemma_uncalled_keeps_shown(self)
        requires
            self.showdown_ready(),
        ensures
            self.uncalled_returned().0.showdown_ranks() == self.showdown_ranks(),
            self.top_shows() ==> self.uncalled_returned().0.top_shows(),
    {
        let after = self.uncalled_returned().0;
        let (top, second) = self.top_two(self.n());
        self.lemma_top_two(self.n());
        if top >= 0 && second >= 0 && self.bets[top] > second {
            self.lemma_top_two_highest(self.n());
            assert forall|i: int| 0 <= i < self.n() implies after.showdown_rank(i)
                == self.showdown_rank(i) by {
                assert(after.state_at(i) == self.state_at(i));
            }
            assert(after.showdown_ranks() =~= self.showdown_ranks());
            if self.top_shows() {
                let c = choose|c: int|
                    0 <= c < self.bets.len() && (#[trigger] self.showdown_ranks()[c]).is_some()
                        && forall|j: int| 0 <= j < self.bets.len() ==> self.bets[j] <= self.bets[c];
                assert(self.bets[top] <= self.bets[c]);
                assert(c == top);
                assert(after.showdown_ranks()[top].is_some());
                assert forall|j: int| 0 <= j < after.bets.len() implies after.bets[j]
                    <= after.bets[top] by {
                    if j != top {
                        assert(self.bets[j] <= second);
                    }
                }
            }
        }
    }

    /// Law of the chips at the showdown: returning an uncalled bet loses
    /// nothing, so the chips in play after the showdown, and the chips that
    /// nobody wins, are the chips in play before it. Where the highest
    /// commitment belongs to a player who shows a hand, every chip is
    /// won, and the chips in play are kept.
    pub proof fn lemma_showdown_chips(self)
        requires
            self.showdown_ready(),
        ensures
            self.showdown_done().0.chips() + self.uncalled_returned().0.unclaimed() == self.chips(),
            0 <= self.uncalled_returned().0.unclaimed(),
            self.showdown_done().0.chips() <= self.chips(),
            self.top_shows() ==> self.showdown_done().0.chips() == self.chips(),
    {
        self.lemma_uncalled_returned();
        self.lemma_uncalled_keeps_shown();
        self.uncalled_returned().0.lemma_pots_distributed_chips();
    }

    /// Law of the chips where a hand ends without a contest: the last
    /// player who has not folded gets the pot, and the chips in play are
    /// kept.
    pub proof fn lemma_lone_winner_chips(self, winners: Seq<PlayerId>)
        requires
            self.showdown_ready(),
            winners.len() <= 1,
            forall|k: int|
                0 <= k < winners.len() ==> self.hand_player_order.contains(#[trigger] winners[k]),
        ensures
            self.lone_winners_paid(winners).0.chips() == self.chips(),
            self.lone_winners_paid(winners).0.same_hand_as(self),
            self.lone_winners_paid(winners).0.bets == self.bets,
            self.lone_winners_paid(winners).0.max_bet == self.max_bet,
            self.lone_winners_paid(winners).0.last_raise_amount == self.last_raise_amount,
            self.lone_winners_paid(winners).0.phase == self.phase,
    {
        if winners.len() == 1 && self.pot != 0 {
            let after = self.lone_winners_paid(winners).0;
            let id = winners[0];
            let i = choose|i: int| 0 <= i < self.n() && self.hand_player_order[i] == id;
            let p = self.player_at(i);
            let q = Player { stack: (p.stack + self.pot) as u32, wins: (p.wins + 1) as u32, ..p };
            assert(self.awarded_players(winners, 0) == self.players);
            lemma_total_bounds(self.stacks());
            self.lemma_stacks_with_player(i, q);
            assert(after.stacks() =~= self.with_player_at(i, q).stacks());
            lemma_total_update(self.stacks(), i, q.stack);
            lemma_update_keeps_people(self.players, self.players, id, q);
        }
    }

    /// Law of one action: a state fit for betting stays fit for betting as
    /// long as the betting goes on, and else the hand is over. The chips in
    /// play never grow. They are kept as long as the betting goes on, where
    /// the pot goes to the last player left, and at a showdown in which the
    /// highest commitment belongs to a player who shows a hand. The hand,
    /// its hole cards and its blinds stay as they are; no commitment is
    /// above the highest, and the raise step is at least the big blind.
    pub proof fn lemma_action_handled(self, id: PlayerId, action: PlayerAction)
        requires
            self.betting_ready(),
        ensures
            self.after_action(action).showdown_entry().top_shows() ==> self.action_handled(
                id,
                action,
            ).0.chips() == self.chips(),
            self.after_action(action).unfolded(self.n() as int).len() <= 1
                ==> self.action_handled(id, action).0.chips() == self.chips(),
            is_betting_phase(self.action_handled(id, action).0.phase) ==> self.action_handled(
                id,
                action,
            ).0.betting_ready() && self.action_handled(id, action).0.chips() == self.chips(),
            !is_betting_phase(self.action_handled(id, action).0.phase) ==> self.action_handled(
                id,
                action,
            ).0.phase == GamePhase::Showdown,
            self.action_handled(id, action).0.chips() <= self.chips(),
            self.action_handled(id, action).0.same_hand_as(self),
            self.action_handled(id, action).0.bets_in_bounds(),
    {
        match self.violation(id, action) {
            Some(v) => {},
            None => {
                self.lemma_after_action(id, action);
                let after = self.after_action(action);
                assert(after.same_hand_as(self)) by {
                    self.lemma_after_action_keeps(action);
                }
                let left = after.unfolded(after.n());
                after.lemma_unfolded(after.n());
                if left.len() <= 1 {
                    after.lemma_at_showdown();
                    let at = GameView { phase: GamePhase::Showdown, ..after };
                    assert forall|k: int| 0 <= k < left.len() implies at.hand_player_order.contains(
                        #[trigger] left[k],
                    ) by {
                        let j = choose|j: int|
                            0 <= j < after.n() && after.hand_player_order[j] == left[k];
                        assert(at.hand_player_order[j] == left[k]);
                    }
                    at.lemma_lone_winner_chips(left);
                    let done = at.lone_winners_paid(left).0;
                } else if after.round_over() {
                    after.lemma_phase_advanced();
                    after.lemma_phase_advanced_chips();
                } else {
                    after.lemma_turn_passed();
                }
            },
        }
    }

    /// Law of the chips where somebody can still bet: if after the action a
    /// player can still bet, and their cards make a hand with the board of
    /// the showdown that may follow, the action keeps the chips in play. At
    /// the end of a betting round such a player has matched the highest
    /// commitment, so every chip of the pot is won.
    pub proof fn lemma_bettor_keeps_chips(self, id: PlayerId, action: PlayerAction, c: int)
        requires
            self.betting_ready(),
            0 <= c < self.n(),
            self.after_action(action).can_bet(c),
            self.after_action(action).showdown_entry().cards_rank(c).is_some(),
        ensures
            self.action_handled(id, action).0.chips() == self.chips(),
    {
        self.lemma_action_handled(id, action);
        if self.violation(id, action).is_none() {
            self.lemma_after_action(id, action);
            let after = self.after_action(action);
            let left = after.unfolded(after.n());
            if left.len() > 1 && after.round_over() {
                after.lemma_showdown_entry();
                let entry = after.showdown_entry();
                assert(entry.state_at(c) == after.state_at(c));
                assert(entry.showdown_ranks()[c] == entry.showdown_rank(c));
                assert(after.bets[c] == after.max_bet);
                assert forall|j: int| 0 <= j < entry.bets.len() implies entry.bets[j]
                    <= entry.bets[c] by {
                    assert(after.bets[j] <= after.max_bet);
                }
                assert(entry.top_shows());
            }
        }
    }

    /// A legal action leaves the hand, its hole cards and its blinds as
    /// they are.
    pub proof fn lemma_after_action_keeps(self, action: PlayerAction)
        requires
            self.betting_ready(),
        ensures
            self.after_action(action).same_hand_as(self),
    {
        let after = self.after_action(action);
        let i = self.cur_player_idx as int;
        let id = self.hand_player_order[i];
        if after.players != self.players {
            lemma_update_keeps_people(self.players, self.players, id, after.players[id]);
        }
    }

    /// The state in which the showdown begins where the end of this betting
    /// round leads to one: the round is reset and the streets still to come
    /// are dealt.
    pub open spec fn showdown_entry(self) -> GameView {
        let reset = self.round_reset();
        if reset.phase == GamePhase::River {
            GameView { phase: GamePhase::Showdown, ..reset }
        } else {
            GameView { phase: GamePhase::Showdown, ..reset.street_dealt().0.run_out().0 }
        }
    }

    /// The showdown begins with the hand, the hole cards and the commitments
    /// with which the betting round ended.
    pub proof fn lemma_showdown_entry(self)
        requires
            self.betting_ready(),
        ensures
            self.showdown_entry().same_hand_as(self),
            self.showdown_entry().players == self.players,
            self.showdown_entry().bets == self.bets,
            self.showdown_entry().pot == self.pot,
    {
        self.lemma_round_reset();
        let reset = self.round_reset();
        if reset.phase != GamePhase::River {
            reset.lemma_run_out_keeps();
            reset.street_dealt().0.lemma_run_out_keeps();
        }
    }

    /// The end of a betting round never adds chips to those in play. It
    /// keeps them where the betting goes on, and at a showdown in which the
    /// highest commitment belongs to a player who shows a hand.
    pub proof fn lemma_phase_advanced_chips(self)
        requires
            self.betting_ready(),
        ensures
            self.phase_advanced().0.chips() <= self.chips(),
            is_betting_phase(self.phase_advanced().0.phase) ==> self.phase_advanced().0.chips()
                == self.chips(),
            self.showdown_entry().top_shows() ==> self.phase_advanced().0.chips() == self.chips(),
    {
        self.lemma_round_reset();
        self.lemma_phase_advanced();
        let reset = self.round_reset();
        match reset.phase {
            GamePhase::River => {
                reset.lemma_at_showdown();
                (GameView { phase: GamePhase::Showdown, ..reset }).lemma_showdown_chips();
            },
            GamePhase::PreFlop | GamePhase::Flop | GamePhase::Turn => {
                reset.lemma_street_dealt();
                let dealt = reset.street_dealt().0;
                if dealt.bettor_count(dealt.n()) < 2 {
                    dealt.lemma_run_out();
                    let done = dealt.run_out().0;
                    done.lemma_at_showdown();
                    (GameView { phase: GamePhase::Showdown, ..done }).lemma_showdown_chips();
                }
            },
            _ => {},
        }
    }
}

impl GameView {
    /// Every player of the hand is playing, all-in or folded: nobody went
    /// offline or left during the hand.
    pub open spec fn all_in_play(self) -> bool {
        forall|i: int|
            0 <= i < self.n() ==> #[trigger] self.state_at(i) == PlayerState::Playing
                || self.state_at(i) == PlayerState::AllIn || self.state_at(i)
                == PlayerState::Folded
    }

    /// Where the search for the next actor finds nobody, nobody within its
    /// reach can be given the turn.
    pub proof fn lemma_next_actor_none(self, i: int, steps: int)
        requires
            0 <= i < self.n(),
            0 <= steps <= self.n(),
            self.next_actor(i, steps) == -1,
        ensures
            forall|p: int|
                0 <= p < self.n() && ((i < p <= i + steps) || p <= i + steps - self.n())
                    ==> !#[trigger] self.may_act(p),
        decreases steps,
    {
        if steps > 0 {
            self.lemma_next_actor(self.seat_after(i), steps - 1);
            self.lemma_next_actor_none(self.seat_after(i), steps - 1);
        }
    }

    /// A legal action leaves every player playing, all-in or folded.
    pub proof fn lemma_after_action_in_play(self, id: PlayerId, action: PlayerAction)
        requires
            self.betting_ready(),
            self.all_in_play(),
            self.violation(id, action).is_none(),
        ensures
            self.after_action(action).all_in_play(),
    {
        let after = self.after_action(action);
        assert forall|j: int| 0 <= j < after.n() implies #[trigger] after.state_at(j)
            == PlayerState::Playing || after.state_at(j) == PlayerState::AllIn || after.state_at(
            j,
        ) == PlayerState::Folded by {
            assert(self.state_at(j) == PlayerState::Playing || self.state_at(j)
                == PlayerState::AllIn || self.state_at(j) == PlayerState::Folded);
        }
    }

    /// Law of the turn: in a hand where every player is playing, all-in or
    /// folded, the player to act after an action is playing, as long as the
    /// betting goes on.
    pub proof fn lemma_actor_is_playing(self, id: PlayerId, action: PlayerAction)
        requires
            self.betting_ready(),
            self.all_in_play(),
            self.violation(id, action).is_none(),
        ensures
            is_betting_phase(self.action_handled(id, action).0.phase) ==> {
                let after = self.action_handled(id, action).0;
                &&& after.cur_player_idx < after.n()
                &&& after.state_at(after.cur_player_idx as int) == PlayerState::Playing
                &&& after.all_in_play()
            },
    {
        self.lemma_after_action(id, action);
        self.lemma_after_action_in_play(id, action);
        self.lemma_action_handled(id, action);
        let after = self.after_action(action);
        let left = after.unfolded(after.n());
        if left.len() <= 1 {
            after.lemma_at_showdown();
            after.lemma_unfolded(after.n());
            let at = GameView { phase: GamePhase::Showdown, ..after };
            assert forall|k: int| 0 <= k < left.len() implies at.hand_player_order.contains(
                #[trigger] left[k],
            ) by {
                let j = choose|j: int| 0 <= j < after.n() && after.hand_player_order[j] == left[k];
            }
            at.lemma_lone_winner_chips(left);
        } else if after.round_over() {
            let done = after.phase_advanced().0;
            if is_betting_phase(done.phase) {
                after.lemma_round_reset();
                let reset = after.round_reset();
                reset.lemma_street_dealt();
                reset.lemma_run_out_keeps();
                let dealt = reset.street_dealt().0;
                dealt.lemma_first_bettor(1);
                dealt.lemma_bettor_count(dealt.n());
                let opener = dealt.first_bettor_from(1);
                assert(after.state_at(opener) == PlayerState::Playing || after.state_at(opener)
                    == PlayerState::AllIn || after.state_at(opener) == PlayerState::Folded);
                assert forall|j: int| 0 <= j < done.n() implies #[trigger] done.state_at(j)
                    == PlayerState::Playing || done.state_at(j) == PlayerState::AllIn
                    || done.state_at(j) == PlayerState::Folded by {
                    assert(after.state_at(j) == PlayerState::Playing || after.state_at(j)
                        == PlayerState::AllIn || after.state_at(j) == PlayerState::Folded);
                }
            }
        } else {
            let j = choose|j: int|
                0 <= j < after.n() && #[trigger] after.can_bet(j) && !(after.player_has_acted[j]
                    && after.bets[j] == after.max_bet);
            assert(after.state_at(j) == PlayerState::Playing || after.state_at(j)
                == PlayerState::AllIn || after.state_at(j) == PlayerState::Folded);
            assert(after.may_act(j));
            let cur = after.cur_player_idx as int;
            after.lemma_next_actor(cur, after.n());
            if after.next_actor(cur, after.n()) == -1 {
                after.lemma_next_actor_none(cur, after.n());
            }
            let done = after.turn_passed().0;
            assert forall|k: int| 0 <= k < done.n() implies #[trigger] done.state_at(k)
                == PlayerState::Playing || done.state_at(k) == PlayerState::AllIn || done.state_at(
                k,
            ) == PlayerState::Folded by {
                assert(after.state_at(k) == PlayerState::Playing || after.state_at(k)
                    == PlayerState::AllIn || after.state_at(k) == PlayerState::Folded);
            }
        }
    }

    /// Law of the first turn: in a hand just opened every player is playing
    /// or all-in, every player holds both hole cards, and the first to act
    /// is playing unless two play and the dealer's stack is no more than
    /// the small blind.
    pub proof fn lemma_opened_actor(self, deck: Seq<Card>)
        requires
            self.order_consistent(),
            self.n() >= 2,
            self.small_blind <= self.big_blind,
            2 * (total(self.stacks()) + self.big_blind) <= u32::MAX,
            self.counters_fit(),
            deck.len() >= 2 * self.n() + 5,
        ensures
            self.opened(deck).0.all_in_play(),
            self.opened(deck).0.cards_dealt(),
            self.n() >= 3 || self.stack_at(0) > self.small_blind ==> self.opened(deck).0.state_at(
                self.opened(deck).0.cur_player_idx as int,
            ) == PlayerState::Playing,
    {
        lemma_total_bounds(self.stacks());
        self.lemma_dealt_in(deck);
        self.lemma_opened(deck);
        let dealt = self.dealt_in(deck);
        let sb = dealt.small_blind_seat();
        let bb = dealt.big_blind_seat();
        let first = dealt.first_to_act();
        let sb_paid = blind_paid(dealt.small_blind, dealt.stack_at(sb));
        dealt.lemma_committed(sb, sb_paid as int);
        let small = dealt.blind_posted(sb, dealt.small_blind);
        let bb_paid = blind_paid(small.big_blind, small.stack_at(bb));
        small.lemma_committed(bb, bb_paid as int);
        let ready = self.opened(deck).0;
        assert forall|j: int| 0 <= j < ready.n() implies #[trigger] ready.state_at(j)
            == PlayerState::Playing || ready.state_at(j) == PlayerState::AllIn || ready.state_at(
            j,
        ) == PlayerState::Folded by {
            assert(dealt.player_at(j).state == PlayerState::Playing);
        }
        assert(dealt.stack_at(first) == self.stack_at(first));
    }

    /// Law of the hole cards: once every player of the hand holds both hole
    /// cards, they hold them after every action, to the showdown and
    /// beyond.
    pub proof fn lemma_cards_stay_dealt(self, id: PlayerId, action: PlayerAction)
        requires
            self.betting_ready(),
            self.cards_dealt(),
        ensures
            self.action_handled(id, action).0.cards_dealt(),
    {
        self.lemma_action_handled(id, action);
    }

    /// Law of the heads-up hand: with two players the dealer posts the
    /// small blind and acts first before the flop; after the flop the other
    /// player opens if they can still bet, so the dealer acts last.
    pub proof fn lemma_heads_up_order(self)
        requires
            self.n() == 2,
        ensures
            self.small_blind_seat() == 0,
            self.big_blind_seat() == 1,
            self.first_to_act() == 0,
            self.can_bet(1) ==> self.first_bettor_from(1) == 1,
    {
    }

    /// Law of the short all-in: a bet or raise that is not a full one sets
    /// the highest commitment, but neither changes the raise step nor
    /// re-opens the betting for anyone.
    pub proof fn lemma_short_all_in_keeps_round(self, delta: u32)
        requires
            self.betting_ready(),
            !self.is_full_raise(delta),
        ensures
            self.after_action(PlayerAction::BetOrRaise(delta)).last_raise_amount
                == self.last_raise_amount,
            self.after_action(PlayerAction::BetOrRaise(delta)).player_has_acted
                == self.player_has_acted.update(self.cur_player_idx as int, true),
            self.after_action(PlayerAction::BetOrRaise(delta)).max_bet == self.bets[self.cur_player_idx as int]
                + delta,
    {
        let i = self.cur_player_idx as int;
        self.lemma_committed(i, 0);
    }

    /// How many seats the turn moves on from position `i` to reach `p`:
    /// one for the next seat, and as many as there are players to come back
    /// to `i` itself.
    pub open spec fn turns_until(self, i: int, p: int) -> int {
        if p > i {
            p - i
        } else {
            p - i + self.n()
        }
    }

    /// The search for the next actor finds the nearest: nobody whom the
    /// turn reaches earlier can be given it.
    pub proof fn lemma_next_actor_nearest(self, i: int, steps: int)
        requires
            0 <= i < self.n(),
            0 <= steps <= self.n(),
            self.next_actor(i, steps) >= 0,
        ensures
            self.next_actor(i, steps) < self.n(),
            self.may_act(self.next_actor(i, steps)),
            1 <= self.turns_until(i, self.next_actor(i, steps)) <= steps,
            forall|p: int|
                0 <= p < self.n() && self.turns_until(i, p) < self.turns_until(
                    i,
                    self.next_actor(i, steps),
                ) ==> !#[trigger] self.may_act(p),
        decreases steps,
    {
        let s = self.seat_after(i);
        self.lemma_next_actor(i, steps);
        if !self.may_act(s) {
            self.lemma_next_actor_nearest(s, steps - 1);
            let found = self.next_actor(s, steps - 1);
            assert(found != s);
            assert(self.turns_until(i, found) == self.turns_until(s, found) + 1);
            assert forall|p: int|
                0 <= p < self.n() && self.turns_until(i, p) < self.turns_until(
                    i,
                    found,
                ) implies !#[trigger] self.may_act(p) by {
                if p != s {
                    assert(self.turns_until(i, p) == self.turns_until(s, p) + 1);
                }
            }
        }
    }

    /// Law of the turn's order: where no playing player who has acted still
    /// owes chips, the turn passes to the first player after the one who
    /// acted, around the table, who is playing and has not acted yet.
    pub proof fn lemma_turn_goes_to_first(self)
        requires
            self.betting_ready(),
            forall|j: int|
                0 <= j < self.n() && #[trigger] self.state_at(j) == PlayerState::Playing
                    && self.player_has_acted[j] ==> self.bets[j] == self.max_bet,
            self.next_actor(self.cur_player_idx as int, self.n()) >= 0,
        ensures
            self.turn_passed().0.cur_player_idx == self.next_actor(
                self.cur_player_idx as int,
                self.n(),
            ),
            self.turn_passed().0.state_at(self.turn_passed().0.cur_player_idx as int)
                == PlayerState::Playing,
            !self.player_has_acted[self.turn_passed().0.cur_player_idx as int],
            forall|p: int|
                0 <= p < self.n() && self.turns_until(self.cur_player_idx as int, p)
                    < self.turns_until(
                    self.cur_player_idx as int,
                    self.turn_passed().0.cur_player_idx as int,
                ) ==> !(#[trigger] self.state_at(p) == PlayerState::Playing
                    && !self.player_has_acted[p]),
            self.turn_passed().1 == seq![
                Event::NextToAct {
                    player_id: self.hand_player_order[self.turn_passed().0.cur_player_idx as int],
                    valid_actions: self.options(self.turn_passed().0.cur_player_idx as int),
                },
            ],
    {
        let i = self.cur_player_idx as int;
        self.lemma_next_actor_nearest(i, self.n() as int);
        let next = self.next_actor(i, self.n() as int);
        assert(self.may_act(next));
        assert(self.state_at(next) == PlayerState::Playing);
        assert forall|p: int|
            0 <= p < self.n() && self.turns_until(i, p) < self.turns_until(i, next) implies !(
            #[trigger] self.state_at(p) == PlayerState::Playing && !self.player_has_acted[p]) by {
            assert(!self.may_act(p));
        }
    }

    /// Two players of the hand who have not folded make two entries among
    /// those who have not folded.
    pub proof fn lemma_two_unfolded(self, a: int, b: int, upto: int)
        requires
            0 <= a < upto <= self.n(),
            0 <= b < upto,
            self.state_at(a) != PlayerState::Folded,
            a < b ==> self.state_at(b) != PlayerState::Folded,
        ensures
            self.unfolded(upto).len() >= 1,
            a < b ==> self.unfolded(upto).len() >= 2,
        decreases upto,
    {
        if a < upto - 1 {
            if b < upto - 1 {
                self.lemma_two_unfolded(a, b, upto - 1);
            } else {
                self.lemma_two_unfolded(a, a, upto - 1);
            }
        }
    }

    /// Law of the short all-in, for the whole action: a player who has not
    /// acted since the betting was last opened goes all-in above the highest
    /// commitment, but by less than the raise step, while another player can
    /// still bet. The action is accepted, the player is all-in, the highest
    /// commitment is theirs, the raise step stays, and nobody else has to
    /// act again who had acted. Where nothing is owed the raise step is taken
    /// to be the big blind, as it is at the start of every round.
    pub proof fn lemma_short_all_in_handled(self, id: PlayerId, delta: u32, other: int)
        requires
            self.betting_ready(),
            self.current_player_id() == Some(id),
            !self.player_has_acted[self.cur_player_idx as int],
            0 < delta == self.stack_at(self.cur_player_idx as int),
            self.bets[self.cur_player_idx as int] + delta > self.max_bet,
            self.bets[self.cur_player_idx as int] + delta - self.max_bet < self.last_raise_amount,
            self.owed(self.cur_player_idx as int) == 0 ==> self.last_raise_amount
                == self.big_blind,
            0 <= other < self.n(),
            other != self.cur_player_idx,
            self.can_bet(other),
        ensures
            self.violation(id, PlayerAction::BetOrRaise(delta)).is_none(),
            self.action_handled(id, PlayerAction::BetOrRaise(delta)).0.state_at(
                self.cur_player_idx as int,
            ) == PlayerState::AllIn,
            self.action_handled(id, PlayerAction::BetOrRaise(delta)).0.max_bet
                == self.bets[self.cur_player_idx as int] + delta,
            self.action_handled(id, PlayerAction::BetOrRaise(delta)).0.last_raise_amount
                == self.last_raise_amount,
            self.action_handled(id, PlayerAction::BetOrRaise(delta)).0.phase == self.phase,
            self.action_handled(id, PlayerAction::BetOrRaise(delta)).0.player_has_acted
                == self.player_has_acted.update(self.cur_player_idx as int, true),
    {
        let i = self.cur_player_idx as int;
        let action = PlayerAction::BetOrRaise(delta);
        assert(!self.is_full_raise(delta));
        self.lemma_committed(i, delta as int);
        self.lemma_short_all_in_keeps_round(delta);
        self.lemma_after_action(id, action);
        let after = self.after_action(action);
        assert(after.player_at(other) == self.player_at(other));
        assert(after.state_at(i) == PlayerState::AllIn);
        if i < other {
            after.lemma_two_unfolded(i, other, after.n());
        } else {
            after.lemma_two_unfolded(other, i, after.n());
        }
        assert(after.can_bet(other));
        assert(after.bets[other] == self.bets[other]);
        assert(!after.round_over());
    }

    /// Law of the raise step: it never falls while a betting round goes
    /// on, and each new round begins with the big blind. Where nothing is
    /// owed the raise step is taken to be the big blind, as it is at the
    /// start of every round.
    pub proof fn lemma_raise_step(self, id: PlayerId, action: PlayerAction)
        requires
            self.betting_ready(),
            self.owed(self.cur_player_idx as int) == 0 ==> self.last_raise_amount
                == self.big_blind,
        ensures
            self.action_handled(id, action).0.last_raise_amount >= self.big_blind,
            self.action_handled(id, action).0.phase == self.phase ==> self.action_handled(
                id,
                action,
            ).0.last_raise_amount >= self.last_raise_amount,
            self.action_handled(id, action).0.phase != self.phase && is_betting_phase(
                self.action_handled(id, action).0.phase,
            ) ==> self.action_handled(id, action).0.last_raise_amount == self.big_blind,
    {
        self.lemma_action_handled(id, action);
        if self.violation(id, action).is_none() {
            self.lemma_after_action(id, action);
            let after = self.after_action(action);
            assert(after.last_raise_amount >= self.last_raise_amount);
            assert(after.big_blind == self.big_blind);
            let left = after.unfolded(after.n());
            if left.len() > 1 && after.round_over() {
                after.lemma_round_reset();
                after.lemma_phase_advanced();
                let reset = after.round_reset();
                reset.lemma_run_out_keeps();
                let done = after.phase_advanced().0;
                if is_betting_phase(done.phase) {
                    assert(done.last_raise_amount == self.big_blind);
                }
            }
        }
    }

    /// Law of the player who may not raise again: once a player has acted
    /// and the betting was not re-opened since, any bet or raise of theirs
    /// that their stack covers is refused.
    pub proof fn lemma_no_raise_after_acting(self, delta: u32)
        requires
            self.cur_player_idx < self.n(),
            self.player_has_acted[self.cur_player_idx as int],
            0 < delta <= self.stack_at(self.cur_player_idx as int),
        ensures
            self.violation(
                self.hand_player_order[self.cur_player_idx as int],
                PlayerAction::BetOrRaise(delta),
            ) == Some(crate::betting::RuleViolation::RaiseNotOpen),
            self.options(self.cur_player_idx as int).len() == 2,
    {
    }

    /// Law of the walkover: where the pot goes to a player without a
    /// contest and fewer than three board cards are out, the result shows
    /// neither cards nor a hand.
    pub proof fn lemma_walkover_hides_cards(self, winners: Seq<PlayerId>, k: int)
        requires
            crate::showdown::revealed(self.community_cards).len() < 3,
        ensures
            self.lone_result(winners, k).cards.is_none(),
            self.lone_result(winners, k).hand_rank.is_none(),
    {
    }

    /// Law of the start with too few players: with fewer than two players
    /// to line up, the room waits for players and nothing is announced.
    pub proof fn lemma_too_few_players(self, deck: Seq<Card>)
        requires
            self.lined_up().n() < 2,
        ensures
            self.hand_started(deck).0.phase == GamePhase::WaitingForPlayers,
            self.hand_started(deck).1.len() == 0,
    {
    }
}

/// The moves of a hand in the order they were made: who acted, and how.
pub type Moves = Seq<(PlayerId, PlayerAction)>;

/// The state and the events after the moves were played one after the
/// other, each on a state still in a betting round; moves that come after
/// the hand ended are ignored.
pub open spec fn replayed(start: GameView, moves: Moves) -> (GameView, Seq<Event>)
    decreases moves.len(),
{
    if moves.len() == 0 {
        (start, Seq::empty())
    } else {
        let (before, told) = replayed(start, moves.drop_last());
        if is_betting_phase(before.phase) {
            let (after, more) = before.action_handled(moves.last().0, moves.last().1);
            (after, told + more)
        } else {
            (before, told)
        }
    }
}

/// Law of the replay: two engines that start a hand from the same state
/// with the same deck and see the same moves end in the same state and tell
/// the same events.
pub proof fn lemma_replay_deterministic(
    first: GameView,
    second: GameView,
    deck: Seq<Card>,
    moves: Moves,
)
    requires
        first == second,
    ensures
        first.hand_started(deck) == second.hand_started(deck),
        replayed(first.hand_started(deck).0, moves) == replayed(second.hand_started(deck).0, moves),
{
}

/// Law of the replay: a hand that is fit for betting stays so under any
/// moves for as long as it is in a betting round, and never gains chips.
pub proof fn lemma_replay_keeps_ready(start: GameView, moves: Moves)
    requires
        start.betting_ready(),
    ensures
        is_betting_phase(replayed(start, moves).0.phase) ==> replayed(start, moves).0.betting_ready()
            && replayed(start, moves).0.chips() == start.chips(),
        replayed(start, moves).0.chips() <= start.chips(),
        replayed(start, moves).0.same_hand_as(start),
        replayed(start, moves).0.bets_in_bounds(),
    decreases moves.len(),
{
    if moves.len() > 0 {
        lemma_replay_keeps_ready(start, moves.drop_last());
        let before = replayed(start, moves.drop_last()).0;
        if is_betting_phase(before.phase) {
            before.lemma_action_handled(moves.last().0, moves.last().1);
        }
    }
}

/// Setting absent players to sitting out keeps the people.
pub proof fn lemma_benched_people(
    players: Map<PlayerId, Player>,
    seated: Seq<PlayerId>,
    upto: int,
)
    ensures
        same_people(players, benched(players, seated, upto)),
    decreases upto,
{
    if upto > 0 {
        lemma_benched_people(players, seated, upto - 1);
        let before = benched(players, seated, upto - 1);
        let id = seated[upto - 1];
        if before.contains_key(id) && is_absent(before[id]) {
            lemma_update_keeps_people(
                players,
                before,
                id,
                Player { state: PlayerState::SittingOut, ..before[id] },
            );
        }
    }
}

/// Setting the players of the hand to playing keeps the people.
pub proof fn lemma_set_playing_people(
    players: Map<PlayerId, Player>,
    order: Seq<PlayerId>,
    upto: int,
)
    requires
        0 <= upto <= order.len(),
        forall|i: int| 0 <= i < order.len() ==> players.contains_key(#[trigger] order[i]),
    ensures
        same_people(players, set_playing(players, order, upto)),
    decreases upto,
{
    if upto > 0 {
        lemma_set_playing_people(players, order, upto - 1);
        let id = order[upto - 1];
        lemma_update_keeps_people(
            players,
            set_playing(players, order, upto - 1),
            id,
            Player { state: PlayerState::Playing, ..players[id] },
        );
    }
}

/// The people stay the people over two steps.
pub proof fn lemma_same_people_transitive(
    a: Map<PlayerId, Player>,
    b: Map<PlayerId, Player>,
    c: Map<PlayerId, Player>,
)
    requires
        same_people(a, b),
        same_people(b, c),
    ensures
        same_people(a, c),
{
}

impl GameView {
    /// Law of the table at the start of a hand: starting a hand changes
    /// neither the room, the blinds and the seats, nor who the members are
    /// and where they sit.
    pub proof fn lemma_hand_started_table(self, deck: Seq<Card>)
        requires
            self.start_ready(),
            self.seated_players.len() <= usize::MAX,
            self.lined_up().n() >= 2 ==> deck.len() >= 2 * self.lined_up().n() + 5,
        ensures
            self.hand_started(deck).0.same_table_as(self),
            self.hand_started(deck).0.phase == GamePhase::PreFlop || self.hand_started(
                deck,
            ).0.phase == GamePhase::WaitingForPlayers,
    {
        let lined = self.lined_up();
        self.lemma_lined_up();
        lemma_benched_people(self.players, self.seated_players, self.seated_players.len() as int);
        if lined.n() >= 2 {
            lemma_total_bounds(lined.stacks());
            lined.lemma_dealt_in(deck);
            lined.lemma_opened(deck);
            let dealt = lined.dealt_in(deck);
            lemma_set_playing_people(lined.players, lined.hand_player_order, lined.n());
            let sb = dealt.small_blind_seat();
            let bb = dealt.big_blind_seat();
            let sb_paid = blind_paid(dealt.small_blind, dealt.stack_at(sb));
            dealt.lemma_committed(sb, sb_paid as int);
            let small = dealt.blind_posted(sb, dealt.small_blind);
            lemma_update_keeps_people(
                dealt.players,
                dealt.players,
                dealt.hand_player_order[sb],
                small.players[dealt.hand_player_order[sb]],
            );
            let bb_paid = blind_paid(small.big_blind, small.stack_at(bb));
            small.lemma_committed(bb, bb_paid as int);
            let big = small.blind_posted(bb, small.big_blind);
            lemma_update_keeps_people(
                small.players,
                small.players,
                small.hand_player_order[bb],
                big.players[small.hand_player_order[bb]],
            );
            lemma_same_people_transitive(self.players, lined.players, dealt.players);
            lemma_same_people_transitive(self.players, dealt.players, small.players);
            lemma_same_people_transitive(self.players, small.players, big.players);
        }
    }
}

} // verus!
