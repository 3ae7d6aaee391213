//! What a client may see of the game: their own hole cards always, the hole
//! cards of the others only at a showdown, and never the deck.

use crate::card::Card;
use crate::state::{find_index, find_player, GamePhase, GameState, GameView, PlayerId, PlayerState};
use vstd::prelude::*;

verus! {

impl GameView {
    /// The ids of the first `upto` players of the hand who hold live cards:
    /// playing or all-in.
    pub open spec fn live_players(self, upto: int) -> Seq<PlayerId>
        decreases upto,
    {
        if upto <= 0 {
            Seq::empty()
        } else {
            let front = self.live_players(upto - 1);
            if self.is_live_at(upto - 1) {
                front.push(self.hand_player_order[upto - 1])
            } else {
                front
            }
        }
    }

    /// The client `client_id` may see the hole cards in slot `i`: the slot
    /// is their own, or the hand is at the showdown and the slot belongs to
    /// a player of the hand who has not folded.
    pub open spec fn shows_cards_to(self, client_id: PlayerId, i: int) -> bool {
        ||| self.player_indices.contains_key(client_id) && self.player_indices[client_id] == i
        ||| {
            &&& self.phase == GamePhase::Showdown
            &&& i < self.n()
            &&& self.players.contains_key(self.hand_player_order[i])
            &&& self.state_at(i) != PlayerState::Folded
        }
    }

    /// The state as the client `client_id` may see it: without the deck, and
    /// with every slot of hole cards empty that they may not see.
    pub open spec fn for_client(self, client_id: PlayerId) -> GameView {
        GameView {
            deck: Seq::empty(),
            player_cards: Seq::new(
                self.player_cards.len(),
                |i: int|
                    if self.shows_cards_to(client_id, i) {
                        self.player_cards[i]
                    } else {
                        (None::<Card>, None::<Card>)
                    },
            ),
            ..self
        }
    }

    /// Seen through a client's eyes twice, the state is what it is seen
    /// through them once.
    pub proof fn lemma_for_client_idempotent(self, client_id: PlayerId)
        ensures
            self.for_client(client_id).for_client(client_id) == self.for_client(client_id),
    {
        let once = self.for_client(client_id);
        let twice = once.for_client(client_id);
        assert(twice.player_cards =~= once.player_cards);
    }

    /// What a client sees holds no card of the deck, only hole cards of the
    /// state, and their own hole cards as they are.
    pub proof fn lemma_for_client_hides(self, client_id: PlayerId)
        ensures
            self.for_client(client_id).deck.len() == 0,
            self.for_client(client_id).player_cards.len() == self.player_cards.len(),
            forall|i: int|
                0 <= i < self.player_cards.len() && !self.shows_cards_to(client_id, i)
                    ==> #[trigger] self.for_client(client_id).player_cards[i] == (
                    None::<Card>,
                    None::<Card>,
                ),
            forall|i: int|
                0 <= i < self.player_cards.len() && self.shows_cards_to(client_id, i)
                    ==> #[trigger] self.for_client(client_id).player_cards[i]
                    == self.player_cards[i],
    {
    }
}

impl GameState {
    /// The players of the hand who hold live cards, in hand order.
    pub fn get_players_in_hand(&self) -> (live: Vec<PlayerId>)
        ensures
            live@ == self@.live_players(self@.n()),
    {
        let n = self.hand_player_order.len();
        let mut live: Vec<PlayerId> = Vec::new();
        let mut i: usize = 0;
        while i < n
            invariant
                i <= n,
                n == self@.n(),
                live@ == self@.live_players(i as int),
            decreases n - i,
        {
            let id = self.hand_player_order[i];
            match find_player(&self.players, id) {
                Some(p) => {
                    if p.state == PlayerState::Playing || p.state == PlayerState::AllIn {
                        live.push(id);
                    }
                },
                None => {},
            }
            i += 1;
        }
        live
    }

    /// The state as the client `client_id` may see it.
    pub fn for_client(&self, client_id: &PlayerId) -> (seen: GameState)
        ensures
            seen@ == self@.for_client(*client_id),
    {
        let mut seen = self.clone();
        seen.deck = Vec::new();
        let own = find_index(&self.player_indices, *client_id);
        let showdown = self.phase == GamePhase::Showdown;
        let slots = self.player_cards.len();
        let n = self.hand_player_order.len();
        let mut i: usize = 0;
        while i < slots
            invariant
                i <= slots,
                slots == self@.player_cards.len(),
                n == self@.n(),
                showdown == (self@.phase == GamePhase::Showdown),
                match own {
                    Some(k) => self@.player_indices.contains_key(*client_id)
                        && self@.player_indices[*client_id] == k,
                    None => !self@.player_indices.contains_key(*client_id),
                },
                seen@ == (GameView {
                    deck: Seq::empty(),
                    player_cards: seen@.player_cards,
                    ..self@
                }),
                seen@.player_cards.len() == slots,
                forall|j: int|
                    0 <= j < i ==> seen@.player_cards[j] == self@.for_client(
                        *client_id,
                    ).player_cards[j],
                forall|j: int| i <= j < slots ==> seen@.player_cards[j] == self@.player_cards[j],
            decreases slots - i,
        {
            let is_own = match own {
                Some(k) => k == i,
                None => false,
            };
            let mut visible = is_own;
            if !visible && showdown && i < n {
                match find_player(&self.players, self.hand_player_order[i]) {
                    Some(p) => {
                        visible = p.state != PlayerState::Folded;
                    },
                    None => {},
                }
            }
            if !visible {
                seen.player_cards.set(i, (None, None));
            }
            i += 1;
        }
        proof {
            assert(seen@.player_cards =~= self@.for_client(*client_id).player_cards);
        }
        seen
    }
}

} // verus!
