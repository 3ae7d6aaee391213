//! The end of a hand: the return of an uncalled bet, the hands shown, and the
//! payment of the pot.

use crate::card::{Card, HandRank};
use crate::eval::{best_hand, find_best_hand, valid_hand_input};
use crate::message::{emit, events, no_messages, Event, ServerMessage, ShowdownResult};
use crate::pots::{all_winnings, side_pot_winnings};
use crate::state::{
    find_player, lemma_total_bounds, lemma_total_update, replace_player, take_player, total,
    GameState, GameView, Player, PlayerId, PlayerState,
};
use vstd::prelude::*;

verus! {

/// The board cards dealt so far, in slot order.
pub open spec fn revealed(community: Seq<Option<Card>>) -> Seq<Card>
    decreases community.len(),
{
    if community.len() == 0 {
        Seq::empty()
    } else {
        let front = revealed(community.drop_last());
        match community.last() {
            Some(card) => front.push(card),
            None => front,
        }
    }
}

impl GameView {
    /// What the settling of a hand relies on: the players of the hand are
    /// known members, every one has a commitment and a slot for hole cards,
    /// the pot is what was committed, the chips in play fit the chip type,
    /// and the win and loss counters can still count.
    pub open spec fn showdown_ready(self) -> bool {
        &&& self.order_consistent()
        &&& self.bets.len() == self.n()
        &&& self.player_cards.len() == self.n()
        &&& self.pot == total(self.bets)
        &&& self.chips() <= u32::MAX
        &&& self.counters_fit()
    }

    /// Among the first `upto` players of the hand, folded ones included: the
    /// position of the first with the highest commitment, and the highest
    /// commitment among the others. Each is -1 where there is none.
    pub open spec fn top_two(self, upto: int) -> (int, int)
        decreases upto,
    {
        if upto <= 0 {
            (-1, -1)
        } else {
            let (top, second) = self.top_two(upto - 1);
            let b = self.bets[upto - 1] as int;
            if top < 0 {
                (upto - 1, -1)
            } else if b > self.bets[top] {
                (upto - 1, self.bets[top] as int)
            } else if b > second {
                (top, b)
            } else {
                (top, second)
            }
        }
    }

    /// The state and the event after an uncalled bet went back: where one
    /// player has committed more than every other player of the hand, the
    /// excess over the next-highest commitment, be it that of a player who
    /// folded, returns to their stack.
    pub open spec fn uncalled_returned(self) -> (GameView, Seq<Event>) {
        let (top, second) = self.top_two(self.n());
        if top >= 0 && second >= 0 && self.bets[top] > second {
            let amount = (self.bets[top] - second) as u32;
            let p = self.player_at(top);
            let stack = (p.stack + amount) as u32;
            (
                GameView {
                    players: self.players.insert(
                        self.hand_player_order[top],
                        Player { stack, ..p },
                    ),
                    pot: (self.pot - amount) as u32,
                    bets: self.bets.update(top, second as u32),
                    ..self
                },
                seq![
                    Event::BetReturned {
                        player_id: self.hand_player_order[top],
                        amount,
                        new_stack: stack,
                    },
                ],
            )
        } else {
            (self, Seq::empty())
        }
    }

    /// The cards the player at `i` shows with: the board, then their hole
    /// cards.
    pub open spec fn shown_cards(self, c1: Card, c2: Card) -> Seq<Card> {
        revealed(self.community_cards).push(c1).push(c2)
    }

    /// The best hand of the player at `i`, if they hold both hole cards and
    /// these make a valid set with the board.
    pub open spec fn cards_rank(self, i: int) -> Option<HandRank> {
        match self.player_cards[i] {
            (Some(c1), Some(c2)) => {
                if valid_hand_input(self.shown_cards(c1, c2)) {
                    Some(best_hand(self.shown_cards(c1, c2)))
                } else {
                    None
                }
            },
            _ => None,
        }
    }

    /// The hand the player at `i` shows: their best hand, unless they have
    /// folded.
    pub open spec fn showdown_rank(self, i: int) -> Option<HandRank> {
        if self.state_at(i) != PlayerState::Folded {
            self.cards_rank(i)
        } else {
            None
        }
    }

    /// The hand each player shows, by position.
    pub open spec fn showdown_ranks(self) -> Seq<Option<HandRank>> {
        Seq::new(self.hand_player_order.len(), |i: int| self.showdown_rank(i))
    }
}

/// A player's record after a showdown in which they won `won`: the winnings
/// are on the stack, a win is counted if anything was won, and a player left
/// without chips has a loss counted and goes offline.
pub open spec fn settle_player(p: Player, won: int) -> Player {
    let stack = (p.stack + won) as u32;
    let wins = if won > 0 {
        (p.wins + 1) as u32
    } else {
        p.wins
    };
    if stack == 0 {
        Player { stack, wins, losses: (p.losses + 1) as u32, state: PlayerState::Offline, ..p }
    } else {
        Player { stack, wins, ..p }
    }
}

impl GameView {
    /// The members of the room after the first `upto` players of the hand
    /// were settled.
    pub open spec fn settled_players(self, won: Seq<int>, upto: int) -> Map<PlayerId, Player>
        decreases upto,
    {
        if upto <= 0 {
            self.players
        } else {
            self.settled_players(won, upto - 1).insert(
                self.hand_player_order[upto - 1],
                settle_player(self.player_at(upto - 1), won[upto - 1]),
            )
        }
    }

    /// The showdown results of the first `upto` players: one for each player
    /// who shows a hand, in hand order.
    pub open spec fn showdown_results(self, won: Seq<int>, upto: int) -> Seq<ShowdownResult>
        decreases upto,
    {
        if upto <= 0 {
            Seq::empty()
        } else {
            let front = self.showdown_results(won, upto - 1);
            match (self.showdown_rank(upto - 1), self.player_cards[upto - 1]) {
                (Some(rank), (Some(c1), Some(c2))) => front.push(
                    ShowdownResult {
                        player_id: self.hand_player_order[upto - 1],
                        hand_rank: Some(rank),
                        cards: Some((c1, c2)),
                        winnings: won[upto - 1] as u32,
                    },
                ),
                _ => front,
            }
        }
    }

    /// The state and the event after the pot was paid out. With an empty pot
    /// nothing happens. Otherwise the commitments are split in side pots
    /// among the hands shown, every player of the hand is settled, and the
    /// pot is empty.
    pub open spec fn pots_distributed(self) -> (GameView, Seq<Event>) {
        if self.pot == 0 {
            (self, Seq::empty())
        } else {
            let won = all_winnings(self.bets, self.showdown_ranks());
            (
                GameView { players: self.settled_players(won, self.n()), pot: 0, ..self },
                seq![Event::Showdown { results: self.showdown_results(won, self.n()) }],
            )
        }
    }

    /// The state and the events of a showdown: an uncalled bet goes back,
    /// then the pot is paid out.
    pub open spec fn showdown_done(self) -> (GameView, Seq<Event>) {
        let (returned, first) = self.uncalled_returned();
        let (paid, second) = returned.pots_distributed();
        (paid, first + second)
    }

    /// What the `k`-th of the `winners` gets of an uncontested pot: an even
    /// share, and the remainder too for the first.
    pub open spec fn lone_share(self, winners: Seq<PlayerId>, k: int) -> int {
        self.pot as int / winners.len() as int + if k == 0 {
            self.pot as int % winners.len() as int
        } else {
            0
        }
    }

    /// The members of the room after the first `upto` of the `winners` were
    /// paid their share and had a win counted.
    pub open spec fn awarded_players(self, winners: Seq<PlayerId>, upto: int) -> Map<
        PlayerId,
        Player,
    >
        decreases upto,
    {
        if upto <= 0 {
            self.players
        } else {
            let id = winners[upto - 1];
            let p = self.players[id];
            self.awarded_players(winners, upto - 1).insert(
                id,
                Player {
                    stack: (p.stack + self.lone_share(winners, upto - 1)) as u32,
                    wins: (p.wins + 1) as u32,
                    ..p
                },
            )
        }
    }

    /// The result reported for the `k`-th of the `winners` of an uncontested
    /// pot. Their cards and hand are shown only if at least three board
    /// cards are out.
    pub open spec fn lone_result(self, winners: Seq<PlayerId>, k: int) -> ShowdownResult {
        let id = winners[k];
        let i = self.player_indices[id] as int;
        let winnings = self.lone_share(winners, k) as u32;
        match (self.cards_rank(i), self.player_cards[i]) {
            (Some(rank), (Some(c1), Some(c2))) if revealed(self.community_cards).len() >= 3 => {
                ShowdownResult {
                    player_id: id,
                    hand_rank: Some(rank),
                    cards: Some((c1, c2)),
                    winnings,
                }
            },
            _ => ShowdownResult { player_id: id, hand_rank: None, cards: None, winnings },
        }
    }

    /// The state and the event after the pot went to `winners` without a
    /// contest. Nothing happens with no winner or an empty pot.
    pub open spec fn lone_winners_paid(self, winners: Seq<PlayerId>) -> (GameView, Seq<Event>) {
        if winners.len() == 0 || self.pot == 0 {
            (self, Seq::empty())
        } else {
            (
                GameView {
                    players: self.awarded_players(winners, winners.len() as int),
                    pot: 0,
                    ..self
                },
                seq![
                    Event::Showdown {
                        results: Seq::new(winners.len(), |k: int| self.lone_result(winners, k)),
                    },
                ],
            )
        }
    }

    /// Settling the first `upto` players leaves the records of the others
    /// as they were.
    pub proof fn lemma_settled_players_keeps(self, won: Seq<int>, upto: int, j: int)
        requires
            self.order_consistent(),
            0 <= upto <= j < self.n(),
        ensures
            self.settled_players(won, upto).contains_key(self.hand_player_order[j]),
            self.settled_players(won, upto)[self.hand_player_order[j]] == self.player_at(j),
        decreases upto,
    {
        if upto > 0 {
            self.lemma_settled_players_keeps(won, upto - 1, j);
        }
    }

    /// Paying the first `upto` winners leaves the records of the others as
    /// they were.
    pub proof fn lemma_awarded_players_keeps(self, winners: Seq<PlayerId>, upto: int, j: int)
        requires
            winners.no_duplicates(),
            0 <= upto <= j < winners.len(),
            self.players.contains_key(winners[j]),
        ensures
            self.awarded_players(winners, upto).contains_key(winners[j]),
            self.awarded_players(winners, upto)[winners[j]] == self.players[winners[j]],
        decreases upto,
    {
        if upto > 0 {
            self.lemma_awarded_players_keeps(winners, upto - 1, j);
        }
    }

    /// The first and second highest commitment stay within the hand.
    pub proof fn lemma_top_two(self, upto: int)
        requires
            0 <= upto <= self.n(),
            self.bets.len() == self.n(),
        ensures
            -1 <= self.top_two(upto).0 < upto,
            -1 <= self.top_two(upto).1,
            self.top_two(upto).0 >= 0 ==> self.top_two(upto).1 <= self.bets[self.top_two(upto).0],
            self.top_two(upto).1 <= u32::MAX,
        decreases upto,
    {
        if upto > 0 {
            self.lemma_top_two(upto - 1);
        }
    }

    /// The first of the two is the first player of the hand with the highest
    /// commitment, and the second is the highest commitment of the others.
    pub proof fn lemma_top_two_highest(self, upto: int)
        requires
            0 < upto <= self.n(),
            self.bets.len() == self.n(),
        ensures
            0 <= self.top_two(upto).0 < upto,
            forall|j: int|
                0 <= j < upto ==> (#[trigger] self.bets[j]) <= self.bets[self.top_two(upto).0],
            forall|j: int|
                0 <= j < self.top_two(upto).0 ==> (#[trigger] self.bets[j])
                    < self.bets[self.top_two(upto).0],
            forall|j: int|
                0 <= j < upto && j != self.top_two(upto).0 ==> (#[trigger] self.bets[j])
                    <= self.top_two(upto).1,
            upto == 1 ==> self.top_two(upto).1 == -1,
            upto > 1 ==> exists|j: int|
                0 <= j < upto && j != self.top_two(upto).0 && (#[trigger] self.bets[j])
                    == self.top_two(upto).1,
        decreases upto,
    {
        if upto > 1 {
            self.lemma_top_two_highest(upto - 1);
            let (top, second) = self.top_two(upto - 1);
            let b = self.bets[upto - 1] as int;
            if b > self.bets[top] {
                assert(top != upto - 1 && self.bets[top] == self.top_two(upto).1);
            } else if b > second {
                assert(upto - 1 != top && self.bets[upto - 1] == self.top_two(upto).1);
            } else {
                let j = choose|j: int|
                    0 <= j < upto - 1 && j != top && (#[trigger] self.bets[j]) == second;
                assert(j != self.top_two(upto).0 && self.bets[j] == self.top_two(upto).1);
            }
        } else {
            assert(self.top_two(0) == (-1int, -1int));
        }
    }

    /// Returning an uncalled bet keeps the state fit for the settling, and
    /// keeps the chips in play.
    pub proof fn lemma_uncalled_returned(self)
        requires
            self.showdown_ready(),
        ensures
            self.uncalled_returned().0.showdown_ready(),
            self.uncalled_returned().0.chips() == self.chips(),
    {
        let (top, second) = self.top_two(self.n());
        self.lemma_top_two(self.n());
        if top >= 0 && second >= 0 && self.bets[top] > second {
            let after = self.uncalled_returned().0;
            let amount = (self.bets[top] - second) as u32;
            let p = self.player_at(top);
            lemma_total_bounds(self.bets);
            lemma_total_bounds(self.stacks());
            let q = Player { stack: (p.stack + amount) as u32, ..p };
            self.lemma_stacks_with_player(top, q);
            assert(after.stacks() =~= self.with_player_at(top, q).stacks());
            lemma_total_update(self.stacks(), top, q.stack);
            lemma_total_update(self.bets, top, second as u32);
            after.lemma_counters_fit(self);
        }
    }
}

/// Collects the board cards dealt so far.
pub fn revealed_board(community: &Vec<Option<Card>>) -> (board: Vec<Card>)
    ensures
        board@ == revealed(community@),
{
    let mut board: Vec<Card> = Vec::new();
    let mut i: usize = 0;
    while i < community.len()
        invariant
            i <= community.len(),
            board@ == revealed(community@.take(i as int)),
        decreases community.len() - i,
    {
        assert(community@.take(i as int + 1).drop_last() =~= community@.take(i as int));
        match community[i] {
            Some(card) => {
                board.push(card);
            },
            None => {},
        }
        i += 1;
    }
    assert(community@.take(community.len() as int) =~= community@);
    board
}

impl GameState {
    /// The state of the player at position `i` of the hand.
    pub fn state_at(&self, i: usize) -> (state: PlayerState)
        requires
            i < self@.n(),
            self@.players.contains_key(self@.hand_player_order[i as int]),
        ensures
            state == self@.state_at(i as int),
    {
        match find_player(&self.players, self.hand_player_order[i]) {
            Some(p) => p.state,
            None => PlayerState::Folded,
        }
    }

    /// The stack of the player at position `i` of the hand.
    pub fn stack_at(&self, i: usize) -> (stack: u32)
        requires
            i < self@.n(),
            self@.players.contains_key(self@.hand_player_order[i as int]),
        ensures
            stack == self@.stack_at(i as int),
    {
        match find_player(&self.players, self.hand_player_order[i]) {
            Some(p) => p.stack,
            None => 0,
        }
    }

    /// Returns the part of the highest commitment that no other player of
    /// the hand has matched.
    pub fn return_uncalled_bets(&mut self) -> (msgs: Vec<ServerMessage>)
        requires
            old(self)@.showdown_ready(),
        ensures
            final(self)@ == old(self)@.uncalled_returned().0,
            events(msgs@) == old(self)@.uncalled_returned().1,
    {
        let n = self.hand_player_order.len();
        let mut top: Option<usize> = None;
        let mut second: Option<u32> = None;
        let mut i: usize = 0;
        while i < n
            invariant
                i <= n,
                n == self@.n(),
                self@.showdown_ready(),
                match top {
                    Some(t) => t == self@.top_two(i as int).0,
                    None => self@.top_two(i as int).0 == -1,
                },
                match second {
                    Some(b) => b == self@.top_two(i as int).1,
                    None => self@.top_two(i as int).1 == -1,
                },
            decreases n - i,
        {
            proof {
                self@.lemma_top_two(i as int);
            }
            let b = self.bets[i];
            match top {
                None => {
                    top = Some(i);
                    second = None;
                },
                Some(t) => {
                    if b > self.bets[t] {
                        second = Some(self.bets[t]);
                        top = Some(i);
                    } else {
                        let higher = match second {
                            Some(sec) => b > sec,
                            None => true,
                        };
                        if higher {
                            second = Some(b);
                        }
                    }
                },
            }
            i += 1;
        }
        proof {
            self@.lemma_top_two(n as int);
        }
        let mut msgs = no_messages();
        match (top, second) {
            (Some(t), Some(sec)) => {
                if self.bets[t] > sec {
                    proof {
                        old(self)@.lemma_uncalled_returned();
                        lemma_total_bounds(self@.bets);
                        lemma_total_bounds(self@.stacks());
                        assert(self@.stacks()[t as int] == self@.stack_at(t as int));
                    }
                    let id = self.hand_player_order[t];
                    let amount = self.bets[t] - sec;
                    match take_player(&mut self.players, id) {
                        Some(p) => {
                            let stack = p.stack + amount;
                            let q = Player { stack, ..p };
                            replace_player(&mut self.players, id, q);
                            self.pot = self.pot - amount;
                            self.bets.set(t, sec);
                            emit(
                                &mut msgs,
                                ServerMessage::BetReturned {
                                    player_id: id,
                                    amount,
                                    new_stack: stack,
                                },
                            );
                            proof {
                                let expected = old(self)@.uncalled_returned();
                                assert(self@.players =~= expected.0.players);
                            }
                        },
                        None => {},
                    }
                }
            },
            _ => {},
        }
        msgs
    }

    /// The hand each player shows.
    pub fn showdown_ranks(&self) -> (ranks: Vec<Option<HandRank>>)
        requires
            self@.order_consistent(),
            self@.player_cards.len() == self@.n(),
        ensures
            ranks@ == self@.showdown_ranks(),
    {
        let board = revealed_board(&self.community_cards);
        let n = self.hand_player_order.len();
        let mut ranks: Vec<Option<HandRank>> = Vec::with_capacity(n);
        let mut i: usize = 0;
        while i < n
            invariant
                i <= n,
                n == self@.n(),
                self@.order_consistent(),
                self@.player_cards.len() == self@.n(),
                board@ == revealed(self@.community_cards),
                ranks@.len() == i,
                forall|j: int| 0 <= j < i ==> ranks@[j] == self@.showdown_rank(j),
            decreases n - i,
        {
            let mut rank: Option<HandRank> = None;
            if self.state_at(i) != PlayerState::Folded {
                match self.player_cards[i] {
                    (Some(c1), Some(c2)) => {
                        let mut cards = crate::state::copy_vec(&board);
                        cards.push(c1);
                        cards.push(c2);
                        match find_best_hand(cards.as_slice()) {
                            Ok(best) => {
                                rank = Some(best);
                            },
                            Err(_) => {},
                        }
                    },
                    _ => {},
                }
            }
            ranks.push(rank);
            i += 1;
        }
        ranks
    }
}

impl GameState {
    /// Pays the pot out at a showdown, side pot by side pot, and settles
    /// every player of the hand.
    pub fn distribute_pots(&mut self) -> (msgs: Vec<ServerMessage>)
        requires
            old(self)@.showdown_ready(),
        ensures
            final(self)@ == old(self)@.pots_distributed().0,
            events(msgs@) == old(self)@.pots_distributed().1,
    {
        if self.pot == 0 {
            return no_messages();
        }
        let ranks = self.showdown_ranks();
        let won = side_pot_winnings(&self.bets, &ranks);
        let ghost w = all_winnings(self@.bets, self@.showdown_ranks());
        let n = self.hand_player_order.len();
        let mut results: Vec<ShowdownResult> = Vec::new();
        let mut i: usize = 0;
        while i < n
            invariant
                i <= n,
                n == self@.n(),
                self@.showdown_ready(),
                ranks@ == self@.showdown_ranks(),
                won@.len() == n,
                w == all_winnings(self@.bets, self@.showdown_ranks()),
                forall|j: int| 0 <= j < n ==> won@[j] == #[trigger] w[j],
                results@ == self@.showdown_results(w, i as int),
            decreases n - i,
        {
            match (ranks[i], self.player_cards[i]) {
                (Some(rank), (Some(c1), Some(c2))) => {
                    results.push(
                        ShowdownResult {
                            player_id: self.hand_player_order[i],
                            hand_rank: Some(rank),
                            cards: Some((c1, c2)),
                            winnings: won[i],
                        },
                    );
                },
                _ => {},
            }
            i += 1;
        }
        let mut k: usize = 0;
        while k < n
            invariant
                k <= n,
                n == old(self)@.n(),
                old(self)@.showdown_ready(),
                won@.len() == n,
                forall|j: int| 0 <= j < n ==> won@[j] == #[trigger] w[j],
                forall|j: int| 0 <= j < n ==> #[trigger] won@[j] <= total(old(self)@.bets),
                self@ == (GameView {
                    players: old(self)@.settled_players(w, k as int),
                    ..old(self)@
                }),
            decreases n - k,
        {
            let id = self.hand_player_order[k];
            proof {
                old(self)@.lemma_settled_players_keeps(w, k as int, k as int);
                lemma_total_bounds(old(self)@.stacks());
                assert(old(self)@.stacks()[k as int] == old(self)@.stack_at(k as int));
            }
            match take_player(&mut self.players, id) {
                Some(p) => {
                    let gain = won[k];
                    let stack = p.stack + gain;
                    let wins = if gain > 0 {
                        p.wins + 1
                    } else {
                        p.wins
                    };
                    let q = if stack == 0 {
                        Player {
                            stack,
                            wins,
                            losses: p.losses + 1,
                            state: PlayerState::Offline,
                            ..p
                        }
                    } else {
                        Player { stack, wins, ..p }
                    };
                    replace_player(&mut self.players, id, q);
                    proof {
                        assert(self@.players =~= old(self)@.settled_players(w, k as int + 1));
                    }
                },
                None => {},
            }
            k += 1;
        }
        self.pot = 0;
        let mut msgs = no_messages();
        emit(&mut msgs, ServerMessage::Showdown { results });
        msgs
    }

    /// Settles the hand at a showdown: an uncalled bet goes back, then the
    /// pot is paid out.
    pub fn handle_showdown(&mut self) -> (msgs: Vec<ServerMessage>)
        requires
            old(self)@.showdown_ready(),
        ensures
            final(self)@ == old(self)@.showdown_done().0,
            events(msgs@) == old(self)@.showdown_done().1,
    {
        let mut msgs = self.return_uncalled_bets();
        proof {
            old(self)@.lemma_uncalled_returned();
        }
        let more = self.distribute_pots();
        crate::message::emit_all(&mut msgs, more);
        msgs
    }

    /// Gives the pot to `winners` without a contest, in even shares with the
    /// remainder to the first, and counts a win for each.
    pub fn distribute_pot_to_single_winner_group(&mut self, winners: Vec<PlayerId>) -> (msgs: Vec<
        ServerMessage,
    >)
        requires
            old(self)@.showdown_ready(),
            winners@.no_duplicates(),
            forall|k: int|
                0 <= k < winners@.len() ==> old(self)@.player_indices.contains_key(
                    #[trigger] winners@[k],
                ),
        ensures
            final(self)@ == old(self)@.lone_winners_paid(winners@).0,
            events(msgs@) == old(self)@.lone_winners_paid(winners@).1,
    {
        if winners.len() == 0 || self.pot == 0 {
            return no_messages();
        }
        let board = revealed_board(&self.community_cards);
        let pot = self.pot;
        let count = winners.len();
        let mut results: Vec<ShowdownResult> = Vec::new();
        let mut k: usize = 0;
        while k < count
            invariant
                k <= count,
                count == winners@.len(),
                count > 0,
                pot == old(self)@.pot,
                old(self)@.showdown_ready(),
                winners@.no_duplicates(),
                forall|j: int|
                    0 <= j < winners@.len() ==> old(self)@.player_indices.contains_key(
                        #[trigger] winners@[j],
                    ),
                board@ == revealed(old(self)@.community_cards),
                self@ == (GameView {
                    players: old(self)@.awarded_players(winners@, k as int),
                    ..old(self)@
                }),
                results@.len() == k,
                forall|j: int|
                    0 <= j < k ==> results@[j] == old(self)@.lone_result(winners@, j),
            decreases count - k,
        {
            let id = winners[k];
            let found = crate::state::find_index(&self.player_indices, id);
            proof {
                let before = old(self)@;
                let i = choose|i: int| 0 <= i < before.n() && before.hand_player_order[i] == id;
                before.lemma_awarded_players_keeps(winners@, k as int, k as int);
                lemma_total_bounds(before.stacks());
                assert(before.stacks()[i] == before.stack_at(i));
            }
            let share = crate::pots::share_of(pot, count, k == 0);
            match (found, take_player(&mut self.players, id)) {
                (Some(i), Some(p)) => {
                    let q = Player { stack: p.stack + share, wins: p.wins + 1, ..p };
                    replace_player(&mut self.players, id, q);
                    proof {
                        assert(self@.players =~= old(self)@.awarded_players(winners@, k as int + 1));
                    }
                    let mut result = ShowdownResult {
                        player_id: id,
                        hand_rank: None,
                        cards: None,
                        winnings: share,
                    };
                    if board.len() >= 3 {
                        match self.player_cards[i] {
                            (Some(c1), Some(c2)) => {
                                let mut cards = crate::state::copy_vec(&board);
                                cards.push(c1);
                                cards.push(c2);
                                match find_best_hand(cards.as_slice()) {
                                    Ok(best) => {
                                        result =
                                        ShowdownResult {
                                            player_id: id,
                                            hand_rank: Some(best),
                                            cards: Some((c1, c2)),
                                            winnings: share,
                                        };
                                    },
                                    Err(_) => {},
                                }
                            },
                            _ => {},
                        }
                    }
                    results.push(result);
                },
                _ => {},
            }
            k += 1;
        }
        self.pot = 0;
        let mut msgs = no_messages();
        proof {
            assert(results@ =~= Seq::new(
                winners@.len(),
                |k: int| old(self)@.lone_result(winners@, k),
            ));
        }
        emit(&mut msgs, ServerMessage::Showdown { results });
        msgs
    }
}

} // verus!
