//! A client's copy of the game, kept up to date by the events the server
//! tells.

use crate::card::Card;
use crate::message::ShowdownResult;
use crate::room::{lemma_position_from, position_from, unseated};
use crate::start::{benched, index_map, set_playing};
use crate::state::{
    find_index, find_player, replace_player, take_player, GamePhase, GameState, GameView, HoleCards,
    Player, PlayerAction, PlayerId, PlayerState,
};
use std::collections::HashMap;
use vstd::prelude::*;

verus! {

/// The larger of two amounts.
pub open spec fn larger(a: u32, b: u32) -> u32 {
    if a < b {
        b
    } else {
        a
    }
}

/// A player's record after they were seen to act and to have `new_stack`
/// chips left: folded after a fold, all-in when out of chips.
pub open spec fn seen_acting(p: Player, action: PlayerAction, new_stack: u32) -> Player {
    let state = if action == PlayerAction::Fold {
        PlayerState::Folded
    } else if new_stack == 0 && p.state != PlayerState::Folded {
        PlayerState::AllIn
    } else {
        p.state
    };
    Player { stack: new_stack, state, ..p }
}

/// The first board slot of the street dealt in `phase`, if it is one.
pub open spec fn street_start(phase: GamePhase) -> Option<int> {
    match phase {
        GamePhase::Flop => Some(0),
        GamePhase::Turn => Some(3),
        GamePhase::River => Some(4),
        _ => None,
    }
}

/// The board after the first `upto` of `cards` were put into the slots from
/// `start` on, as far as the board has slots.
pub open spec fn board_filled(
    board: Seq<Option<Card>>,
    start: int,
    cards: Seq<Card>,
    upto: int,
) -> Seq<Option<Card>>
    decreases upto,
{
    if upto <= 0 {
        board
    } else {
        let before = board_filled(board, start, cards, upto - 1);
        if 0 <= start + upto - 1 < before.len() {
            before.update(start + upto - 1, Some(cards[upto - 1]))
        } else {
            before
        }
    }
}

/// A player's record after a showdown told `won` chips for them: the chips
/// are on the stack and a win is counted, where the numbers fit.
pub open spec fn seen_winning(p: Player, won: u32) -> Player {
    if won > 0 {
        Player {
            stack: if p.stack + won <= u32::MAX {
                (p.stack + won) as u32
            } else {
                p.stack
            },
            wins: if p.wins < u32::MAX {
                (p.wins + 1) as u32
            } else {
                p.wins
            },
            ..p
        }
    } else {
        p
    }
}

/// A player's record at the end of a hand: out of chips, they have a loss
/// counted and are offline.
pub open spec fn seen_busted(p: Player) -> Player {
    if p.stack == 0 {
        Player {
            losses: if p.losses < u32::MAX {
                (p.losses + 1) as u32
            } else {
                p.losses
            },
            state: PlayerState::Offline,
            ..p
        }
    } else {
        p
    }
}

impl GameView {
    /// The copy after a member came in.
    pub open spec fn with_member(self, player: Player) -> GameView {
        GameView { players: self.players.insert(player.id, player), ..self }
    }

    /// The copy after a member left: they are offline.
    pub open spec fn with_member_gone(self, player_id: PlayerId) -> GameView {
        if self.players.contains_key(player_id) {
            GameView {
                players: self.players.insert(
                    player_id,
                    Player { state: PlayerState::Offline, ..self.players[player_id] },
                ),
                ..self
            }
        } else {
            self
        }
    }

    /// The seated order after the record of a member changed to `player`:
    /// a waiting player stands where their seat belongs, a player who sits
    /// out is not seated.
    pub open spec fn reseated(self, player: Player) -> Seq<PlayerId> {
        let cleared = GameView { seated_players: unseated(self.seated_players, player.id), ..self };
        if player.state == PlayerState::Waiting {
            match player.seat_id {
                Some(seat) => if cleared.seats_known() {
                    cleared.seated_players.insert(cleared.insertion_index(seat), player.id)
                } else {
                    cleared.seated_players.push(player.id)
                },
                None => cleared.seated_players,
            }
        } else if player.state == PlayerState::SittingOut {
            cleared.seated_players
        } else {
            self.seated_players
        }
    }

    /// The copy after the record of a member changed to `player`.
    pub open spec fn with_member_updated(self, player: Player) -> GameView {
        GameView {
            seated_players: self.reseated(player),
            players: if self.players.contains_key(player.id) {
                self.players.insert(player.id, player)
            } else {
                self.players
            },
            ..self
        }
    }

    /// The copy at the start of a hand of the players `order`: nothing in
    /// the pot, an empty board, no commitments, no hole cards known, the
    /// players of the hand playing, and absent seated players sitting out.
    pub open spec fn with_hand_started(self, order: Seq<PlayerId>) -> GameView {
        let n = order.len();
        let playing = set_playing_members(self.players, order, n as int);
        GameView {
            hand_player_order: order,
            player_indices: index_map(order, n as int),
            phase: GamePhase::PreFlop,
            pot: 0,
            bets: Seq::new(n, |i: int| 0u32),
            last_bet: 0,
            community_cards: Seq::new(5, |i: int| None::<Card>),
            player_cards: Seq::new(n, |i: int| (None::<Card>, None::<Card>)),
            players: benched(playing, self.seated_players, self.seated_players.len() as int),
            ..self
        }
    }

    /// The copy after the hole cards of the player `my_id` were told.
    pub open spec fn with_own_cards(self, my_id: PlayerId, hands: (Card, Card)) -> GameView {
        if self.player_indices.contains_key(my_id) && self.player_indices[my_id]
            < self.player_cards.len() {
            GameView {
                player_cards: self.player_cards.update(
                    self.player_indices[my_id] as int,
                    (Some(hands.0), Some(hands.1)),
                ),
                ..self
            }
        } else {
            self
        }
    }

    /// The copy after an action was told.
    pub open spec fn with_action_seen(
        self,
        player_id: PlayerId,
        action: PlayerAction,
        total_bet: u32,
        new_stack: u32,
        new_pot: u32,
    ) -> GameView {
        let known = self.player_indices.contains_key(player_id);
        GameView {
            pot: new_pot,
            bets: if known && self.player_indices[player_id] < self.bets.len() {
                self.bets.update(self.player_indices[player_id] as int, total_bet)
            } else {
                self.bets
            },
            players: if known && self.players.contains_key(player_id) {
                self.players.insert(
                    player_id,
                    seen_acting(self.players[player_id], action, new_stack),
                )
            } else {
                self.players
            },
            max_bet: larger(self.max_bet, total_bet),
            ..self
        }
    }

    /// The copy after the turn of `player_id` was told.
    pub open spec fn with_turn_seen(self, player_id: PlayerId) -> GameView {
        if self.player_indices.contains_key(player_id) {
            GameView { cur_player_idx: self.player_indices[player_id], ..self }
        } else {
            self
        }
    }

    /// The copy after the cards of a street were told.
    pub open spec fn with_street_seen(self, phase: GamePhase, cards: Seq<Card>) -> GameView {
        match street_start(phase) {
            Some(start) => {
                let board = if self.community_cards.len() == 0 {
                    Seq::new(5, |i: int| None::<Card>)
                } else {
                    self.community_cards
                };
                GameView {
                    phase,
                    community_cards: board_filled(board, start, cards, cards.len() as int),
                    ..self
                }
            },
            None => GameView { phase, ..self },
        }
    }

    /// The copy after an uncalled bet was told to have gone back.
    pub open spec fn with_return_seen(self, player_id: PlayerId, amount: u32, new_stack: u32) -> GameView {
        GameView {
            players: if self.players.contains_key(player_id) {
                self.players.insert(
                    player_id,
                    Player { stack: new_stack, ..self.players[player_id] },
                )
            } else {
                self.players
            },
            pot: if amount <= self.pot {
                (self.pot - amount) as u32
            } else {
                self.pot
            },
            ..self
        }
    }

    /// The copy after the first `upto` results of a showdown were taken in:
    /// winnings are on the stacks, and shown cards are known.
    pub open spec fn with_results_seen(self, results: Seq<ShowdownResult>, upto: int) -> GameView
        decreases upto,
    {
        if upto <= 0 {
            self
        } else {
            let before = self.with_results_seen(results, upto - 1);
            let r = results[upto - 1];
            let paid = if before.players.contains_key(r.player_id) {
                before.players.insert(
                    r.player_id,
                    seen_winning(before.players[r.player_id], r.winnings),
                )
            } else {
                before.players
            };
            let shown = match (r.cards, r.hand_rank) {
                (Some(cards), Some(_)) => if before.player_indices.contains_key(r.player_id)
                    && before.player_indices[r.player_id] < before.player_cards.len() {
                    before.player_cards.update(
                        before.player_indices[r.player_id] as int,
                        (Some(cards.0), Some(cards.1)),
                    )
                } else {
                    before.player_cards
                },
                _ => before.player_cards,
            };
            GameView { players: paid, player_cards: shown, ..before }
        }
    }

    /// The members after the first `upto` players of the hand were checked
    /// for being out of chips.
    pub open spec fn with_busted_seen(self, upto: int) -> Map<PlayerId, Player>
        decreases upto,
    {
        if upto <= 0 {
            self.players
        } else {
            let before = self.with_busted_seen(upto - 1);
            let id = self.hand_player_order[upto - 1];
            if before.contains_key(id) {
                before.insert(id, seen_busted(before[id]))
            } else {
                before
            }
        }
    }

    /// The copy after a showdown was told.
    pub open spec fn with_showdown_seen(self, results: Seq<ShowdownResult>) -> GameView {
        let paid = (GameView { phase: GamePhase::Showdown, ..self }).with_results_seen(
            results,
            results.len() as int,
        );
        GameView { players: paid.with_busted_seen(paid.n()), ..paid }
    }
}

/// The members after those of the first `upto` players of `order` who are
/// members were set to playing.
pub open spec fn set_playing_members(
    players: Map<PlayerId, Player>,
    order: Seq<PlayerId>,
    upto: int,
) -> Map<PlayerId, Player>
    decreases upto,
{
    if upto <= 0 {
        players
    } else {
        let before = set_playing_members(players, order, upto - 1);
        let id = order[upto - 1];
        if before.contains_key(id) {
            before.insert(id, Player { state: PlayerState::Playing, ..before[id] })
        } else {
            before
        }
    }
}

/// Finds the first position of `id` in the seated order.
fn seated_position(seated: &std::collections::VecDeque<PlayerId>, id: PlayerId) -> (found: Option<
    usize,
>)
    ensures
        match found {
            Some(k) => k == position_from(seated@, id, 0) && k < seated@.len(),
            None => position_from(seated@, id, 0) == -1,
        },
{
    let len = seated.len();
    let mut k: usize = 0;
    while k < len
        invariant
            k <= len,
            len == seated@.len(),
            position_from(seated@, id, k as int) == position_from(seated@, id, 0),
        decreases len - k,
    {
        if seated[k] == id {
            return Some(k);
        }
        k += 1;
    }
    None
}

impl GameState {
    /// Takes in that a member came in.
    pub fn note_member(&mut self, player: Player)
        ensures
            final(self)@ == old(self)@.with_member(player),
    {
        replace_player(&mut self.players, player.id, player);
    }

    /// Takes in that a member left.
    pub fn note_member_gone(&mut self, player_id: PlayerId)
        ensures
            final(self)@ == old(self)@.with_member_gone(player_id),
    {
        match take_player(&mut self.players, player_id) {
            Some(p) => {
                let q = Player { state: PlayerState::Offline, ..p };
                replace_player(&mut self.players, player_id, q);
                proof {
                    assert(self@.players =~= old(self)@.players.insert(player_id, q));
                }
            },
            None => {},
        }
    }

    /// Takes in that the record of a member changed. Tells the position in
    /// the seated order that a player who waits for the next hand was taken
    /// from, if they were seated.
    pub fn note_member_updated(&mut self, player: Player) -> (was_at: Option<usize>)
        ensures
            final(self)@ == old(self)@.with_member_updated(player),
            match was_at {
                Some(k) => player.state == PlayerState::Waiting && k == position_from(
                    old(self)@.seated_players,
                    player.id,
                    0,
                ),
                None => player.state != PlayerState::Waiting || position_from(
                    old(self)@.seated_players,
                    player.id,
                    0,
                ) == -1,
            },
    {
        let id = player.id;
        let mut was_at: Option<usize> = None;
        match player.state {
            PlayerState::Waiting => {
                was_at = seated_position(&self.seated_players, id);
                match was_at {
                    Some(k) => {
                        self.seated_players.remove(k);
                    },
                    None => {},
                }
                match player.seat_id {
                    Some(seat) => {
                        if self.seats_are_known() {
                            proof {
                                self@.lemma_insertion_index(seat, 0);
                            }
                            let index = self.find_insertion_index(seat);
                            self.seated_players.insert(index, id);
                        } else {
                            self.seated_players.push_back(id);
                        }
                    },
                    None => {},
                }
            },
            PlayerState::SittingOut => {
                match seated_position(&self.seated_players, id) {
                    Some(k) => {
                        self.seated_players.remove(k);
                    },
                    None => {},
                }
            },
            _ => {},
        }
        match take_player(&mut self.players, id) {
            Some(_) => {
                replace_player(&mut self.players, id, player);
                proof {
                    assert(self@.players =~= old(self)@.players.insert(id, player));
                }
            },
            None => {},
        }
        was_at
    }

    /// Sets those players of the hand who are members to playing.
    fn set_members_playing(&mut self)
        ensures
            final(self)@ == (GameView {
                players: set_playing_members(
                    old(self)@.players,
                    old(self)@.hand_player_order,
                    old(self)@.n(),
                ),
                ..old(self)@
            }),
    {
        let n = self.hand_player_order.len();
        let mut i: usize = 0;
        while i < n
            invariant
                i <= n,
                n == old(self)@.n(),
                self@ == (GameView {
                    players: set_playing_members(
                        old(self)@.players,
                        old(self)@.hand_player_order,
                        i as int,
                    ),
                    ..old(self)@
                }),
            decreases n - i,
        {
            let id = self.hand_player_order[i];
            match take_player(&mut self.players, id) {
                Some(p) => {
                    let q = Player { state: PlayerState::Playing, ..p };
                    replace_player(&mut self.players, id, q);
                    proof {
                        assert(self@.players =~= set_playing_members(
                            old(self)@.players,
                            old(self)@.hand_player_order,
                            i as int + 1,
                        ));
                    }
                },
                None => {},
            }
            i += 1;
        }
    }

    /// Takes in that a hand of the players `order` has started.
    pub fn note_hand_started(&mut self, order: Vec<PlayerId>)
        ensures
            final(self)@ == old(self)@.with_hand_started(order@),
    {
        broadcast use vstd::std_specs::hash::group_hash_axioms;

        let n = order.len();
        let mut indices: HashMap<PlayerId, usize> = HashMap::new();
        let mut bets: Vec<u32> = Vec::with_capacity(n);
        let mut cards: Vec<HoleCards> = Vec::with_capacity(n);
        let mut k: usize = 0;
        while k < n
            invariant
                k <= n,
                n == order@.len(),
                indices@ == index_map(order@, k as int),
                bets@.len() == k,
                cards@.len() == k,
                forall|j: int| 0 <= j < k ==> bets@[j] == 0,
                forall|j: int| 0 <= j < k ==> cards@[j] == (None::<Card>, None::<Card>),
            decreases n - k,
        {
            indices.insert(order[k], k);
            bets.push(0);
            cards.push((None, None));
            k += 1;
        }
        let mut board: Vec<Option<Card>> = Vec::with_capacity(5);
        board.push(None);
        board.push(None);
        board.push(None);
        board.push(None);
        board.push(None);
        self.hand_player_order = order;
        self.player_indices = indices;
        self.phase = GamePhase::PreFlop;
        self.pot = 0;
        self.bets = bets;
        self.last_bet = 0;
        self.community_cards = board;
        self.player_cards = cards;
        self.set_members_playing();
        self.bench_absent();
        proof {
            let want = old(self)@.with_hand_started(order@);
            assert(self@.bets =~= want.bets);
            assert(self@.community_cards =~= want.community_cards);
            assert(self@.player_cards =~= want.player_cards);
        }
    }

    /// Takes in the hole cards of the player `my_id`.
    pub fn note_own_cards(&mut self, my_id: PlayerId, hands: (Card, Card))
        ensures
            final(self)@ == old(self)@.with_own_cards(my_id, hands),
    {
        match find_index(&self.player_indices, my_id) {
            Some(i) => {
                if i < self.player_cards.len() {
                    self.player_cards.set(i, (Some(hands.0), Some(hands.1)));
                }
            },
            None => {},
        }
    }

    /// Takes in that a player acted.
    pub fn note_action(
        &mut self,
        player_id: PlayerId,
        action: PlayerAction,
        total_bet: u32,
        new_stack: u32,
        new_pot: u32,
    )
        ensures
            final(self)@ == old(self)@.with_action_seen(
                player_id,
                action,
                total_bet,
                new_stack,
                new_pot,
            ),
    {
        self.pot = new_pot;
        match find_index(&self.player_indices, player_id) {
            Some(i) => {
                if i < self.bets.len() {
                    self.bets.set(i, total_bet);
                }
                match take_player(&mut self.players, player_id) {
                    Some(p) => {
                        let state = if action == PlayerAction::Fold {
                            PlayerState::Folded
                        } else if new_stack == 0 && p.state != PlayerState::Folded {
                            PlayerState::AllIn
                        } else {
                            p.state
                        };
                        let q = Player { stack: new_stack, state, ..p };
                        replace_player(&mut self.players, player_id, q);
                        proof {
                            assert(self@.players =~= old(self)@.players.insert(player_id, q));
                        }
                    },
                    None => {},
                }
            },
            None => {},
        }
        if self.max_bet < total_bet {
            self.max_bet = total_bet;
        }
    }

    /// Takes in whose turn it is.
    pub fn note_turn(&mut self, player_id: PlayerId)
        ensures
            final(self)@ == old(self)@.with_turn_seen(player_id),
    {
        match find_index(&self.player_indices, player_id) {
            Some(i) => {
                self.cur_player_idx = i;
            },
            None => {},
        }
    }

    /// Takes in the cards of a street. Tells whether `phase` is a street.
    pub fn note_street(&mut self, phase: GamePhase, cards: &Vec<Card>) -> (is_street: bool)
        ensures
            final(self)@ == old(self)@.with_street_seen(phase, cards@),
            is_street == street_start(phase).is_some(),
    {
        self.phase = phase;
        let start: usize = match phase {
            GamePhase::Flop => 0,
            GamePhase::Turn => 3,
            GamePhase::River => 4,
            _ => {
                return false;
            },
        };
        if self.community_cards.len() == 0 {
            let mut board: Vec<Option<Card>> = Vec::with_capacity(5);
            board.push(None);
            board.push(None);
            board.push(None);
            board.push(None);
            board.push(None);
            self.community_cards = board;
            proof {
                assert(self@.community_cards =~= Seq::new(5, |i: int| None::<Card>));
            }
        }
        let ghost board = self@.community_cards;
        let slots = self.community_cards.len();
        let mut i: usize = 0;
        while i < cards.len()
            invariant
                i <= cards.len(),
                start <= 4,
                slots == self@.community_cards.len(),
                slots == board.len(),
                self@ == (GameView {
                    phase,
                    community_cards: board_filled(board, start as int, cards@, i as int),
                    ..old(self)@
                }),
            decreases cards.len() - i,
        {
            if i < slots && start < slots - i {
                self.community_cards.set(start + i, Some(cards[i]));
            }
            proof {
                lemma_board_filled_len(board, start as int, cards@, i as int);
            }
            i += 1;
        }
        true
    }

    /// Takes in that an uncalled bet went back.
    pub fn note_return(&mut self, player_id: PlayerId, amount: u32, new_stack: u32)
        ensures
            final(self)@ == old(self)@.with_return_seen(player_id, amount, new_stack),
    {
        match take_player(&mut self.players, player_id) {
            Some(p) => {
                let q = Player { stack: new_stack, ..p };
                replace_player(&mut self.players, player_id, q);
                proof {
                    assert(self@.players =~= old(self)@.players.insert(player_id, q));
                }
            },
            None => {},
        }
        if amount <= self.pot {
            self.pot = self.pot - amount;
        }
    }

    /// Takes in the results of a showdown.
    pub fn note_showdown(&mut self, results: &Vec<ShowdownResult>)
        ensures
            final(self)@ == old(self)@.with_showdown_seen(results@),
    {
        self.phase = GamePhase::Showdown;
        let ghost at = self@;
        let mut k: usize = 0;
        while k < results.len()
            invariant
                k <= results.len(),
                at == (GameView { phase: GamePhase::Showdown, ..old(self)@ }),
                self@ == at.with_results_seen(results@, k as int),
            decreases results.len() - k,
        {
            let r = results[k];
            let ghost before = self@;
            match take_player(&mut self.players, r.player_id) {
                Some(p) => {
                    let q = if r.winnings > 0 {
                        Player {
                            stack: if p.stack <= u32::MAX - r.winnings {
                                p.stack + r.winnings
                            } else {
                                p.stack
                            },
                            wins: if p.wins < u32::MAX {
                                p.wins + 1
                            } else {
                                p.wins
                            },
                            ..p
                        }
                    } else {
                        p
                    };
                    replace_player(&mut self.players, r.player_id, q);
                    proof {
                        assert(self@.players =~= before.players.insert(r.player_id, q));
                    }
                },
                None => {},
            }
            match (r.cards, r.hand_rank) {
                (Some(cards), Some(_)) => {
                    match find_index(&self.player_indices, r.player_id) {
                        Some(i) => {
                            if i < self.player_cards.len() {
                                self.player_cards.set(i, (Some(cards.0), Some(cards.1)));
                            }
                        },
                        None => {},
                    }
                },
                _ => {},
            }
            k += 1;
        }
        let ghost paid = self@;
        let n = self.hand_player_order.len();
        let mut i: usize = 0;
        while i < n
            invariant
                i <= n,
                n == paid.n(),
                self@ == (GameView { players: paid.with_busted_seen(i as int), ..paid }),
            decreases n - i,
        {
            let id = self.hand_player_order[i];
            let ghost before = self@.players;
            match take_player(&mut self.players, id) {
                Some(p) => {
                    let q = if p.stack == 0 {
                        Player {
                            losses: if p.losses < u32::MAX {
                                p.losses + 1
                            } else {
                                p.losses
                            },
                            state: PlayerState::Offline,
                            ..p
                        }
                    } else {
                        p
                    };
                    replace_player(&mut self.players, id, q);
                    proof {
                        assert(self@.players =~= before.insert(id, q));
                    }
                },
                None => {},
            }
            i += 1;
        }
    }
}

/// Filling the board keeps the number of its slots.
pub proof fn lemma_board_filled_len(
    board: Seq<Option<Card>>,
    start: int,
    cards: Seq<Card>,
    upto: int,
)
    ensures
        board_filled(board, start, cards, upto).len() == board.len(),
    decreases upto,
{
    if upto > 0 {
        lemma_board_filled_len(board, start, cards, upto - 1);
    }
}

} // verus!
