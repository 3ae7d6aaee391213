//! The authoritative state of one room's game, and its mathematical model.

use crate::card::Card;
use std::collections::{HashMap, VecDeque};
use vstd::prelude::*;

verus! {

/// Identifies a room: a 128-bit number.
pub type RoomId = u128;

/// Identifies a player: a 128-bit number.
pub type PlayerId = u128;

/// Stage of a hand.
#[derive(Debug, Clone, Copy, PartialEq, Eq, Structural)]
pub enum GamePhase {
    WaitingForPlayers,
    PreFlop,
    Flop,
    Turn,
    River,
    /// The hand is over and settled.
    Showdown,
}

/// What a player does when it is their turn.
#[derive(Debug, Clone, Copy, PartialEq, Eq, Structural)]
pub enum PlayerAction {
    Check,
    Call,
    /// The chips this action adds to what the player has committed.
    BetOrRaise(u32),
    Fold,
}

/// Where a player stands in the room and in the hand.
#[derive(Debug, Clone, Copy, PartialEq, Eq, Structural)]
pub enum PlayerState {
    /// Seated, ready for the next hand.
    Waiting,
    /// Holds live cards in this hand.
    Playing,
    AllIn,
    Folded,
    /// Present without playing.
    SittingOut,
    /// Disconnected, or out of chips after a showdown.
    Offline,
}

/// A member of a room.
#[derive(Debug)]
pub struct Player {
    pub id: PlayerId,
    pub nickname: String,
    pub stack: u32,
    pub wins: u32,
    pub losses: u32,
    pub state: PlayerState,
    pub seat_id: Option<u8>,
}

/// The hole cards of one player; a card that is hidden or not dealt is `None`.
pub type HoleCards = (Option<Card>, Option<Card>);

/// The game of one room.
#[derive(Debug)]
pub struct GameState {
    pub room_id: RoomId,
    pub players: HashMap<PlayerId, Player>,
    pub small_blind: u32,
    pub big_blind: u32,
    pub seats: u8,
    /// Everyone seated, in seat order around the table, the button first.
    pub seated_players: VecDeque<PlayerId>,
    /// The players of the current hand; the first is the dealer.
    pub hand_player_order: Vec<PlayerId>,
    /// For each player of the hand, their position in `hand_player_order`.
    pub player_indices: HashMap<PlayerId, usize>,
    /// The cards still to be dealt, the next one last. Never shown to a client.
    pub deck: Vec<Card>,
    pub phase: GamePhase,
    pub pot: u32,
    /// What each player of the hand has committed in this hand.
    pub bets: Vec<u32>,
    /// The five board slots; a slot not yet dealt is `None`.
    pub community_cards: Vec<Option<Card>>,
    pub player_cards: Vec<HoleCards>,
    /// Who has acted since the betting was last opened.
    pub player_has_acted: Vec<bool>,
    pub cur_player_idx: usize,
    pub max_bet: u32,
    pub last_bet: u32,
    /// The smallest increment that counts as a full raise.
    pub last_raise_amount: u32,
}

/// The model of a `GameState`: the same fields over maps and sequences.
pub struct GameView {
    pub room_id: RoomId,
    pub players: Map<PlayerId, Player>,
    pub small_blind: u32,
    pub big_blind: u32,
    pub seats: u8,
    pub seated_players: Seq<PlayerId>,
    pub hand_player_order: Seq<PlayerId>,
    pub player_indices: Map<PlayerId, usize>,
    pub deck: Seq<Card>,
    pub phase: GamePhase,
    pub pot: u32,
    pub bets: Seq<u32>,
    pub community_cards: Seq<Option<Card>>,
    pub player_cards: Seq<HoleCards>,
    pub player_has_acted: Seq<bool>,
    pub cur_player_idx: usize,
    pub max_bet: u32,
    pub last_bet: u32,
    pub last_raise_amount: u32,
}

impl View for GameState {
    type V = GameView;

    open spec fn view(&self) -> GameView {
        GameView {
            room_id: self.room_id,
            players: self.players@,
            small_blind: self.small_blind,
            big_blind: self.big_blind,
            seats: self.seats,
            seated_players: self.seated_players@,
            hand_player_order: self.hand_player_order@,
            player_indices: self.player_indices@,
            deck: self.deck@,
            phase: self.phase,
            pot: self.pot,
            bets: self.bets@,
            community_cards: self.community_cards@,
            player_cards: self.player_cards@,
            player_has_acted: self.player_has_acted@,
            cur_player_idx: self.cur_player_idx,
            max_bet: self.max_bet,
            last_bet: self.last_bet,
            last_raise_amount: self.last_raise_amount,
        }
    }
}

/// A copy of a vector of plain values.
pub fn copy_vec<T: Copy>(v: &Vec<T>) -> (out: Vec<T>)
    ensures
        out@ == v@,
{
    let mut out: Vec<T> = Vec::with_capacity(v.len());
    let mut i: usize = 0;
    while i < v.len()
        invariant
            i <= v.len(),
            out@ == v@.take(i as int),
        decreases v.len() - i,
    {
        out.push(v[i]);
        i += 1;
    }
    out
}

/// A copy of a queue of plain values.
pub fn copy_deque<T: Copy>(v: &VecDeque<T>) -> (out: VecDeque<T>)
    ensures
        out@ == v@,
{
    let mut out: VecDeque<T> = VecDeque::with_capacity(v.len());
    let mut i: usize = 0;
    while i < v.len()
        invariant
            i <= v.len(),
            out@ == v@.take(i as int),
        decreases v.len() - i,
    {
        out.push_back(v[i]);
        i += 1;
    }
    out
}

impl Clone for Player {
    fn clone(&self) -> (p: Player)
        ensures
            p == *self,
    {
        Player {
            id: self.id,
            nickname: self.nickname.clone(),
            stack: self.stack,
            wins: self.wins,
            losses: self.losses,
            state: self.state,
            seat_id: self.seat_id,
        }
    }
}

impl Clone for GameState {
    fn clone(&self) -> (s: GameState)
        ensures
            s@ == self@,
    {
        GameState {
            room_id: self.room_id,
            players: self.players.clone(),
            small_blind: self.small_blind,
            big_blind: self.big_blind,
            seats: self.seats,
            seated_players: copy_deque(&self.seated_players),
            hand_player_order: copy_vec(&self.hand_player_order),
            player_indices: self.player_indices.clone(),
            deck: copy_vec(&self.deck),
            phase: self.phase,
            pot: self.pot,
            bets: copy_vec(&self.bets),
            community_cards: copy_vec(&self.community_cards),
            player_cards: copy_vec(&self.player_cards),
            player_has_acted: copy_vec(&self.player_has_acted),
            cur_player_idx: self.cur_player_idx,
            max_bet: self.max_bet,
            last_bet: self.last_bet,
            last_raise_amount: self.last_raise_amount,
        }
    }
}

/// The sum of a sequence of chip amounts.
pub open spec fn total(amounts: Seq<u32>) -> int
    decreases amounts.len(),
{
    if amounts.len() == 0 {
        0
    } else {
        total(amounts.drop_last()) + amounts.last()
    }
}

impl GameView {
    /// Number of players in the hand.
    pub open spec fn n(self) -> int {
        self.hand_player_order.len() as int
    }

    /// The player at a position of the hand.
    pub open spec fn player_at(self, i: int) -> Player {
        self.players[self.hand_player_order[i]]
    }

    /// The win and loss counters of the players of the hand can still
    /// count.
    pub open spec fn counters_fit(self) -> bool {
        forall|i: int|
            0 <= i < self.n() ==> (#[trigger] self.player_at(i)).wins < u32::MAX && self.player_at(
                i,
            ).losses < u32::MAX
    }

    /// Counters that could count in `before` can still count where the
    /// players of the hand and their counters are the same.
    pub proof fn lemma_counters_fit(self, before: GameView)
        requires
            before.counters_fit(),
            self.hand_player_order == before.hand_player_order,
            forall|i: int|
                0 <= i < self.n() ==> self.player_at(i).wins == (#[trigger] before.player_at(
                    i,
                )).wins && self.player_at(i).losses == before.player_at(i).losses,
        ensures
            self.counters_fit(),
    {
        assert forall|i: int| 0 <= i < self.n() implies (#[trigger] self.player_at(i)).wins
            < u32::MAX && self.player_at(i).losses < u32::MAX by {
            assert(before.player_at(i).wins < u32::MAX);
        }
    }

    pub open spec fn state_at(self, i: int) -> PlayerState {
        self.player_at(i).state
    }

    pub open spec fn stack_at(self, i: int) -> u32 {
        self.player_at(i).stack
    }

    /// The stacks of the players of the hand, by position.
    pub open spec fn stacks(self) -> Seq<u32> {
        Seq::new(self.hand_player_order.len(), |i: int| self.stack_at(i))
    }

    /// All chips in play in the hand: the stacks of its players and the pot.
    pub open spec fn chips(self) -> int {
        total(self.stacks()) + self.pot
    }

    /// The state with the record of the player at position `i` replaced.
    pub open spec fn with_player_at(self, i: int, p: Player) -> GameView {
        GameView { players: self.players.insert(self.hand_player_order[i], p), ..self }
    }

    /// The id of the player to act, if the position names one.
    pub open spec fn current_player_id(self) -> Option<PlayerId> {
        if self.cur_player_idx < self.hand_player_order.len() {
            Some(self.hand_player_order[self.cur_player_idx as int])
        } else {
            None
        }
    }

    /// The player at position `i` still holds live cards: playing or all-in.
    pub open spec fn is_live_at(self, i: int) -> bool {
        self.players.contains_key(self.hand_player_order[i]) && (self.state_at(i)
            == PlayerState::Playing || self.state_at(i) == PlayerState::AllIn)
    }

    /// The players of the hand are different members of the room, and
    /// `player_indices` gives each of them their position.
    pub open spec fn order_consistent(self) -> bool {
        &&& self.hand_player_order.no_duplicates()
        &&& forall|i: int|
            0 <= i < self.n() ==> self.players.contains_key(#[trigger] self.hand_player_order[i])
        &&& forall|i: int|
            0 <= i < self.n() ==> self.player_indices.contains_key(
                #[trigger] self.hand_player_order[i],
            ) && self.player_indices[self.hand_player_order[i]] == i
        &&& forall|id: PlayerId| #[trigger]
            self.player_indices.contains_key(id) ==> self.hand_player_order.contains(id)
    }
}

/// Looks a player up by id.
pub fn find_player(players: &HashMap<PlayerId, Player>, id: PlayerId) -> (found: Option<&Player>)
    ensures
        match found {
            Some(p) => players@.contains_key(id) && *p == players@[id],
            None => !players@.contains_key(id),
        },
{
    broadcast use vstd::std_specs::hash::group_hash_axioms;

    players.get(&id)
}

/// Looks up a player's position in the hand.
pub fn find_index(indices: &HashMap<PlayerId, usize>, id: PlayerId) -> (found: Option<usize>)
    ensures
        match found {
            Some(i) => indices@.contains_key(id) && i == indices@[id],
            None => !indices@.contains_key(id),
        },
{
    broadcast use vstd::std_specs::hash::group_hash_axioms;

    match indices.get(&id) {
        Some(i) => Some(*i),
        None => None,
    }
}

/// Replaces the record of a member of the room.
pub fn replace_player(players: &mut HashMap<PlayerId, Player>, id: PlayerId, p: Player)
    ensures
        final(players)@ == old(players)@.insert(id, p),
{
    broadcast use vstd::std_specs::hash::group_hash_axioms;

    players.insert(id, p);
}

/// Takes the record of a member out of the room, to put a changed one back.
pub fn take_player(players: &mut HashMap<PlayerId, Player>, id: PlayerId) -> (taken: Option<Player>)
    ensures
        match taken {
            Some(p) => old(players)@.contains_key(id) && p == old(players)@[id] && final(players)@
                == old(players)@.remove(id),
            None => !old(players)@.contains_key(id) && final(players)@ == old(players)@,
        },
{
    broadcast use vstd::std_specs::hash::group_hash_axioms;

    let taken = players.remove(&id);
    taken
}

impl GameState {
    /// The id of the player to act, if any.
    pub fn current_player_id(&self) -> (id: Option<PlayerId>)
        ensures
            id == self@.current_player_id(),
    {
        if self.cur_player_idx < self.hand_player_order.len() {
            Some(self.hand_player_order[self.cur_player_idx])
        } else {
            None
        }
    }
}

/// The members `after` are the members `before`, each with the id, the
/// nickname and the seat they had.
pub open spec fn same_people(before: Map<PlayerId, Player>, after: Map<PlayerId, Player>) -> bool {
    &&& after.dom() == before.dom()
    &&& forall|id: PlayerId| #[trigger]
        before.contains_key(id) ==> after[id].id == before[id].id && after[id].nickname
            == before[id].nickname && after[id].seat_id == before[id].seat_id
}

/// A member stays who they are when their record changes in stack, state or
/// counters only.
pub open spec fn same_person(p: Player, q: Player) -> bool {
    q.id == p.id && q.nickname == p.nickname && q.seat_id == p.seat_id
}

/// Changing a member's stack, state or counters keeps the people.
pub proof fn lemma_update_keeps_people(
    start: Map<PlayerId, Player>,
    before: Map<PlayerId, Player>,
    id: PlayerId,
    q: Player,
)
    requires
        same_people(start, before),
        before.contains_key(id),
        same_person(before[id], q),
    ensures
        same_people(start, before.insert(id, q)),
{
    assert(before.insert(id, q).dom() =~= start.dom());
}

/// No amount of a sequence exceeds its sum.
pub proof fn lemma_total_bounds(amounts: Seq<u32>)
    ensures
        0 <= total(amounts),
        forall|i: int| 0 <= i < amounts.len() ==> #[trigger] amounts[i] <= total(amounts),
    decreases amounts.len(),
{
    if amounts.len() > 0 {
        let front = amounts.drop_last();
        lemma_total_bounds(front);
        assert forall|i: int| 0 <= i < amounts.len() implies #[trigger] amounts[i] <= total(
            amounts,
        ) by {
            if i < front.len() {
                assert(front[i] == amounts[i]);
            }
        }
    }
}

/// Changing one amount changes the sum by the difference.
pub proof fn lemma_total_update(amounts: Seq<u32>, i: int, v: u32)
    requires
        0 <= i < amounts.len(),
    ensures
        total(amounts.update(i, v)) == total(amounts) - amounts[i] + v,
    decreases amounts.len(),
{
    let changed = amounts.update(i, v);
    if i == amounts.len() - 1 {
        assert(changed.drop_last() =~= amounts.drop_last());
    } else {
        lemma_total_update(amounts.drop_last(), i, v);
        assert(changed.drop_last() =~= amounts.drop_last().update(i, v));
    }
}

/// A sequence of zeros sums to zero.
pub proof fn lemma_total_zeros(amounts: Seq<u32>)
    requires
        forall|i: int| 0 <= i < amounts.len() ==> amounts[i] == 0,
    ensures
        total(amounts) == 0,
    decreases amounts.len(),
{
    if amounts.len() > 0 {
        lemma_total_zeros(amounts.drop_last());
    }
}

impl GameView {
    /// Replacing the record of one player of the hand changes their stack
    /// and nobody else's.
    pub proof fn lemma_stacks_with_player(self, i: int, p: Player)
        requires
            self.hand_player_order.no_duplicates(),
            0 <= i < self.n(),
        ensures
            self.with_player_at(i, p).stacks() == self.stacks().update(i, p.stack),
    {
    }
}

/// The state of a room in which nothing has happened: no members, blinds of
/// 100 and 200, ten seats, an empty board, and five empty slots for hole
/// cards.
pub open spec fn fresh_game(room_id: u128) -> GameView {
    GameView {
        room_id,
        players: Map::empty(),
        small_blind: 100,
        big_blind: 200,
        seats: 10,
        seated_players: Seq::empty(),
        hand_player_order: Seq::empty(),
        player_indices: Map::empty(),
        deck: Seq::empty(),
        phase: GamePhase::WaitingForPlayers,
        pot: 0,
        bets: Seq::empty(),
        community_cards: Seq::new(5, |i: int| None::<Card>),
        player_cards: Seq::new(5, |i: int| (None::<Card>, None::<Card>)),
        player_has_acted: Seq::empty(),
        cur_player_idx: 0,
        max_bet: 0,
        last_bet: 0,
        last_raise_amount: 0,
    }
}

impl Default for GameState {
    /// A fresh game under a new random room id.
    fn default() -> (s: GameState)
        ensures
            s@ == fresh_game(s@.room_id),
    {
        let mut community_cards: Vec<Option<Card>> = Vec::new();
        let mut player_cards: Vec<HoleCards> = Vec::new();
        let mut i: usize = 0;
        while i < 5
            invariant
                i <= 5,
                community_cards@.len() == i,
                player_cards@.len() == i,
                forall|j: int| 0 <= j < i ==> community_cards@[j] == None::<Card>,
                forall|j: int| 0 <= j < i ==> player_cards@[j] == (None::<Card>, None::<Card>),
            decreases 5 - i,
        {
            community_cards.push(None);
            player_cards.push((None, None));
            i += 1;
        }
        let s = GameState {
            room_id: crate::ids::fresh_id(),
            players: HashMap::new(),
            small_blind: 100,
            big_blind: 200,
            seats: 10,
            seated_players: VecDeque::new(),
            hand_player_order: Vec::new(),
            player_indices: HashMap::new(),
            deck: Vec::new(),
            phase: GamePhase::WaitingForPlayers,
            pot: 0,
            bets: Vec::new(),
            community_cards,
            player_cards,
            player_has_acted: Vec::new(),
            cur_player_idx: 0,
            max_bet: 0,
            last_bet: 0,
            last_raise_amount: 0,
        };
        proof {
            let want = fresh_game(s@.room_id);
            assert(s@.community_cards =~= want.community_cards);
            assert(s@.player_cards =~= want.player_cards);
        }
        s
    }
}

} // verus!
