//! The start of a hand: who plays, the hole cards, the blinds, and who acts
//! first.

use crate::betting::RuleViolation;
use crate::card::Card;
use crate::deck::generate_random_hand;
use crate::message::{emit, events, no_messages, Event, PlayerActionType, ServerMessage};
use crate::state::{
    copy_vec, find_player, lemma_total_bounds, lemma_total_zeros, replace_player, take_player,
    total, GamePhase, GameState, GameView, HoleCards, Player, PlayerAction, PlayerId, PlayerState,
};
use crate::streets::is_betting_phase;
use std::collections::HashMap;
use vstd::prelude::*;

verus! {

/// Why a hand cannot be started.
#[derive(Debug, Clone, Copy, PartialEq, Eq, Structural)]
pub enum StartRefusal {
    /// A hand is running.
    HandRunning,
    /// The small blind is above the big blind.
    BlindsOutOfOrder,
    /// A player is seated twice.
    SeatedTwice,
    /// More than ten players would take part.
    TooManyPlayers,
    /// The chips of the players are too many for the chip type.
    TooManyChips,
    /// A win or loss counter of a player is full.
    CountersFull,
}

/// A member who does not take part in the next hand unasked: offline, or
/// without chips.
pub open spec fn is_absent(p: Player) -> bool {
    p.state == PlayerState::Offline || p.stack == 0
}

/// The members after each of the first `upto` seated players who is absent
/// was set to sitting out.
pub open spec fn benched(players: Map<PlayerId, Player>, seated: Seq<PlayerId>, upto: int) -> Map<
    PlayerId,
    Player,
>
    decreases upto,
{
    if upto <= 0 {
        players
    } else {
        let before = benched(players, seated, upto - 1);
        let id = seated[upto - 1];
        if before.contains_key(id) && is_absent(before[id]) {
            before.insert(id, Player { state: PlayerState::SittingOut, ..before[id] })
        } else {
            before
        }
    }
}

/// The member `id` takes part in the next hand: not sitting out, with chips.
pub open spec fn takes_part(players: Map<PlayerId, Player>, id: PlayerId) -> bool {
    players.contains_key(id) && players[id].state != PlayerState::SittingOut && players[id].stack
        > 0
}

/// Those of the first `upto` seated players who take part, in seat order.
pub open spec fn lineup(players: Map<PlayerId, Player>, seated: Seq<PlayerId>, upto: int) -> Seq<
    PlayerId,
>
    decreases upto,
{
    if upto <= 0 {
        Seq::empty()
    } else {
        let front = lineup(players, seated, upto - 1);
        if takes_part(players, seated[upto - 1]) {
            front.push(seated[upto - 1])
        } else {
            front
        }
    }
}

/// The map from each of the first `upto` players of `order` to their
/// position.
pub open spec fn index_map(order: Seq<PlayerId>, upto: int) -> Map<PlayerId, usize>
    decreases upto,
{
    if upto <= 0 {
        Map::empty()
    } else {
        index_map(order, upto - 1).insert(order[upto - 1], (upto - 1) as usize)
    }
}

/// The members after the first `upto` players of `order` were set to
/// playing.
pub open spec fn set_playing(players: Map<PlayerId, Player>, order: Seq<PlayerId>, upto: int) -> Map<
    PlayerId,
    Player,
>
    decreases upto,
{
    if upto <= 0 {
        players
    } else {
        let id = order[upto - 1];
        set_playing(players, order, upto - 1).insert(
            id,
            Player { state: PlayerState::Playing, ..players[id] },
        )
    }
}

/// The hole cards of `n` players dealt off the top of `deck`, two to each
/// player in turn.
pub open spec fn hole_cards(deck: Seq<Card>, n: int) -> Seq<HoleCards> {
    Seq::new(
        n as nat,
        |i: int| (Some(deck[deck.len() - 1 - 2 * i]), Some(deck[deck.len() - 2 - 2 * i])),
    )
}

/// The smaller of a blind and a stack.
pub open spec fn blind_paid(blind: u32, stack: u32) -> u32 {
    if blind < stack {
        blind
    } else {
        stack
    }
}

impl GameView {
    /// The state with the players of the next hand lined up: absent seated
    /// players sit out, the others who have chips form the hand in seat
    /// order, and `player_indices` is rebuilt.
    pub open spec fn lined_up(self) -> GameView {
        let len = self.seated_players.len() as int;
        let players = benched(self.players, self.seated_players, len);
        let order = lineup(players, self.seated_players, len);
        GameView {
            players,
            hand_player_order: order,
            player_indices: index_map(order, order.len() as int),
            ..self
        }
    }

    /// The state with the hand dealt in: nothing in the pot, an empty board,
    /// no commitments, nobody has acted, the raise step is the big blind,
    /// everyone in the hand is playing and holds two cards off the top of
    /// `deck`.
    pub open spec fn dealt_in(self, deck: Seq<Card>) -> GameView {
        let n = self.n();
        GameView {
            players: set_playing(self.players, self.hand_player_order, n),
            pot: 0,
            community_cards: Seq::new(5, |i: int| None::<Card>),
            max_bet: 0,
            player_cards: hole_cards(deck, n),
            bets: Seq::new(n as nat, |i: int| 0u32),
            player_has_acted: Seq::new(n as nat, |i: int| false),
            last_raise_amount: self.big_blind,
            deck: deck.take(deck.len() - 2 * n),
            ..self
        }
    }

    /// The position that posts the small blind: the dealer when two play,
    /// else the player after the dealer.
    pub open spec fn small_blind_seat(self) -> int {
        if self.n() == 2 {
            0
        } else {
            1
        }
    }

    /// The position that posts the big blind: the player after the small
    /// blind.
    pub open spec fn big_blind_seat(self) -> int {
        if self.n() == 2 {
            1
        } else {
            2
        }
    }

    /// The position that acts first before the flop: the dealer when two
    /// play, else the player after the big blind.
    pub open spec fn first_to_act(self) -> int {
        if self.n() == 2 || self.n() == 3 {
            0
        } else {
            3
        }
    }

    /// The state after the player at `i` posted a blind: the blind, or the
    /// whole stack if that is less, goes to the pot.
    pub open spec fn blind_posted(self, i: int, blind: u32) -> GameView {
        self.committed(i, blind_paid(blind, self.stack_at(i)) as int)
    }

    /// The event that tells of the blind the player at `i` posted, given the
    /// state after it.
    pub open spec fn blind_event(self, i: int, paid: u32) -> Event {
        Event::PlayerActed {
            player_id: self.hand_player_order[i],
            action: PlayerAction::BetOrRaise(paid),
            total_bet_this_round: self.bets[i],
            new_stack: self.stack_at(i),
            new_pot: self.pot,
        }
    }

    /// The state and the events after the lined-up hand was opened with
    /// `deck`: the hand is dealt in, the blinds are posted, the highest
    /// commitment is the big blind, and the first player is asked to act.
    pub open spec fn opened(self, deck: Seq<Card>) -> (GameView, Seq<Event>) {
        let dealt = self.dealt_in(deck);
        let sb = dealt.small_blind_seat();
        let bb = dealt.big_blind_seat();
        let first = dealt.first_to_act();
        let sb_paid = blind_paid(dealt.small_blind, dealt.stack_at(sb));
        let small = dealt.blind_posted(sb, dealt.small_blind);
        let bb_paid = blind_paid(small.big_blind, small.stack_at(bb));
        let big = small.blind_posted(bb, small.big_blind);
        let ready = GameView {
            max_bet: big.big_blind,
            phase: GamePhase::PreFlop,
            cur_player_idx: first as usize,
            ..big
        };
        (
            ready,
            seq![
                Event::HandStarted {
                    hand_player_order: self.hand_player_order,
                    dealer_id: self.hand_player_order[0],
                },
                small.blind_event(sb, sb_paid),
                big.blind_event(bb, bb_paid),
                Event::NextToAct {
                    player_id: ready.hand_player_order[first],
                    valid_actions: seq![
                        PlayerActionType::Call((ready.max_bet - ready.bets[first]) as u32),
                        PlayerActionType::Raise(ready.last_raise_amount),
                        PlayerActionType::Fold,
                    ],
                },
            ],
        )
    }

    /// The state and the events after a hand was started with `deck`.
    ///
    /// The players are lined up. With fewer than two the room waits for
    /// players and nothing is announced. Otherwise the hand is opened.
    pub open spec fn hand_started(self, deck: Seq<Card>) -> (GameView, Seq<Event>) {
        let lined = self.lined_up();
        if lined.n() < 2 {
            (GameView { phase: GamePhase::WaitingForPlayers, ..lined }, Seq::empty())
        } else {
            lined.opened(deck)
        }
    }

    /// The state and the events after a hand was started with the cards
    /// drawn from the shuffled deck `shuffled`.
    pub open spec fn started_from(self, shuffled: Seq<Card>) -> (GameView, Seq<Event>) {
        self.hand_started(crate::deck::dealt_hand(shuffled, self.lined_up().n()))
    }

    /// The first reason, if any, why a hand cannot be started.
    pub open spec fn start_refusal(self) -> Option<StartRefusal> {
        let lined = self.lined_up();
        if is_betting_phase(self.phase) {
            Some(StartRefusal::HandRunning)
        } else if self.small_blind > self.big_blind {
            Some(StartRefusal::BlindsOutOfOrder)
        } else if !self.seated_players.no_duplicates() {
            Some(StartRefusal::SeatedTwice)
        } else if lined.n() > crate::deck::MAX_HAND_PLAYERS {
            Some(StartRefusal::TooManyPlayers)
        } else if 2 * (total(lined.stacks()) + self.big_blind) > u32::MAX {
            Some(StartRefusal::TooManyChips)
        } else if !lined.counters_fit() {
            Some(StartRefusal::CountersFull)
        } else {
            None
        }
    }

    /// A hand can be started exactly where nothing speaks against it.
    pub proof fn lemma_start_refusal(self)
        ensures
            self.start_refusal().is_none() <==> self.start_ready(),
    {
    }

    /// What the start of a hand relies on: no hand is running, the small
    /// blind is not above the big blind, nobody is seated twice, at most ten
    /// players take part, their chips are few enough that the smallest raise
    /// always fits the chip type, and their win and loss counters can still
    /// count.
    pub open spec fn start_ready(self) -> bool {
        let lined = self.lined_up();
        &&& !is_betting_phase(self.phase)
        &&& self.small_blind <= self.big_blind
        &&& self.seated_players.no_duplicates()
        &&& lined.n() <= crate::deck::MAX_HAND_PLAYERS
        &&& 2 * (total(lined.stacks()) + self.big_blind) <= u32::MAX
        &&& lined.counters_fit()
    }
}

impl GameView {
    /// The players lined up are different members of the room who take part,
    /// and `player_indices` gives each their position.
    pub proof fn lemma_lined_up(self)
        requires
            self.seated_players.no_duplicates(),
            self.seated_players.len() <= usize::MAX,
        ensures
            self.lined_up().order_consistent(),
            self.lined_up().n() <= self.seated_players.len(),
            forall|i: int|
                0 <= i < self.lined_up().n() ==> takes_part(
                    self.lined_up().players,
                    #[trigger] self.lined_up().hand_player_order[i],
                ),
    {
        let len = self.seated_players.len() as int;
        let lined = self.lined_up();
        lemma_lineup(lined.players, self.seated_players, len);
        lemma_index_map(lined.hand_player_order, lined.n());
    }

    /// A hand dealt in is fit for the settling, holds the chips of its
    /// players, and has nothing committed.
    pub proof fn lemma_dealt_in(self, deck: Seq<Card>)
        requires
            self.order_consistent(),
            total(self.stacks()) <= u32::MAX,
            self.counters_fit(),
        ensures
            self.dealt_in(deck).showdown_ready(),
            self.dealt_in(deck).stacks() == self.stacks(),
            self.dealt_in(deck).chips() == total(self.stacks()),
            forall|i: int|
                0 <= i < self.n() ==> #[trigger] self.dealt_in(deck).player_at(i) == (Player {
                    state: PlayerState::Playing,
                    ..self.player_at(i)
                }),
    {
        let dealt = self.dealt_in(deck);
        lemma_set_playing(self.players, self.hand_player_order, self.n());
        lemma_total_zeros(dealt.bets);
        assert forall|i: int| 0 <= i < self.n() implies #[trigger] dealt.player_at(i) == (Player {
            state: PlayerState::Playing,
            ..self.player_at(i)
        }) by {
            assert(dealt.players[self.hand_player_order[i]] == (Player {
                state: PlayerState::Playing,
                ..self.players[self.hand_player_order[i]]
            }));
        }
        assert(dealt.stacks() =~= self.stacks());
    }

    /// A hand opened from a lineup of at least two is fit for betting, is
    /// before the flop, and holds the chips of its players.
    pub proof fn lemma_opened(self, deck: Seq<Card>)
        requires
            self.order_consistent(),
            self.n() >= 2,
            self.small_blind <= self.big_blind,
            2 * (total(self.stacks()) + self.big_blind) <= u32::MAX,
            self.counters_fit(),
            deck.len() >= 2 * self.n() + 5,
        ensures
            self.opened(deck).0.betting_ready(),
            self.opened(deck).0.phase == GamePhase::PreFlop,
            self.opened(deck).0.chips() == total(self.stacks()),
            self.opened(deck).0.player_cards == hole_cards(deck, self.n()),
    {
        lemma_total_bounds(self.stacks());
        self.lemma_dealt_in(deck);
        let dealt = self.dealt_in(deck);
        let sb = dealt.small_blind_seat();
        let bb = dealt.big_blind_seat();
        let sb_paid = blind_paid(dealt.small_blind, dealt.stack_at(sb));
        dealt.lemma_committed(sb, sb_paid as int);
        let small = dealt.blind_posted(sb, dealt.small_blind);
        let bb_paid = blind_paid(small.big_blind, small.stack_at(bb));
        small.lemma_committed(bb, bb_paid as int);
        let big = small.blind_posted(bb, small.big_blind);
        let ready = self.opened(deck).0;
        assert(ready.stacks() =~= big.stacks());
        ready.lemma_counters_fit(big);
    }
}

/// Setting absent players to sitting out changes no stack and adds no member.
pub proof fn lemma_benched(players: Map<PlayerId, Player>, seated: Seq<PlayerId>, upto: int)
    ensures
        benched(players, seated, upto).dom() == players.dom(),
        forall|id: PlayerId| #[trigger]
            players.contains_key(id) ==> benched(players, seated, upto)[id].stack
                == players[id].stack,
    decreases upto,
{
    if upto > 0 {
        lemma_benched(players, seated, upto - 1);
    }
}

/// The lineup holds different players, each a member who takes part and one
/// of the seated.
pub proof fn lemma_lineup(players: Map<PlayerId, Player>, seated: Seq<PlayerId>, upto: int)
    requires
        seated.no_duplicates(),
        0 <= upto <= seated.len(),
    ensures
        lineup(players, seated, upto).no_duplicates(),
        lineup(players, seated, upto).len() <= upto,
        forall|k: int|
            0 <= k < lineup(players, seated, upto).len() ==> takes_part(
                players,
                #[trigger] lineup(players, seated, upto)[k],
            ) && exists|j: int|
                0 <= j < upto && seated[j] == lineup(players, seated, upto)[k],
    decreases upto,
{
    if upto > 0 {
        lemma_lineup(players, seated, upto - 1);
        let front = lineup(players, seated, upto - 1);
        let all = lineup(players, seated, upto);
        assert forall|k: int| 0 <= k < all.len() implies takes_part(players, #[trigger] all[k])
            && exists|j: int| 0 <= j < upto && seated[j] == all[k] by {
            if k < front.len() {
                let j = choose|j: int| 0 <= j < upto - 1 && seated[j] == front[k];
                assert(seated[j] == all[k]);
            } else {
                assert(seated[upto - 1] == all[k]);
            }
        }
        if takes_part(players, seated[upto - 1]) {
            assert forall|a: int, b: int|
                0 <= a < all.len() && 0 <= b < all.len() && a != b implies all[a] != all[b] by {
                if a < front.len() && b < front.len() {
                    assert(front[a] != front[b]);
                } else {
                    let early = if a < front.len() {
                        a
                    } else {
                        b
                    };
                    let j = choose|j: int| 0 <= j < upto - 1 && seated[j] == front[early];
                    assert(seated[j] != seated[upto - 1]);
                }
            }
        }
    }
}

/// The index map of different players gives each their position, and holds
/// nobody else.
pub proof fn lemma_index_map(order: Seq<PlayerId>, upto: int)
    requires
        order.no_duplicates(),
        0 <= upto <= order.len() <= usize::MAX,
    ensures
        forall|i: int|
            0 <= i < upto ==> index_map(order, upto).contains_key(#[trigger] order[i])
                && index_map(order, upto)[order[i]] == i,
        forall|id: PlayerId| #[trigger]
            index_map(order, upto).contains_key(id) ==> exists|i: int|
                0 <= i < upto && order[i] == id,
    decreases upto,
{
    if upto > 0 {
        lemma_index_map(order, upto - 1);
        let before = index_map(order, upto - 1);
        assert forall|i: int| 0 <= i < upto implies index_map(order, upto).contains_key(
            #[trigger] order[i],
        ) && index_map(order, upto)[order[i]] == i by {
            if i < upto - 1 {
                assert(before.contains_key(order[i]));
            }
        }
        assert forall|id: PlayerId| #[trigger]
            index_map(order, upto).contains_key(id) implies exists|i: int|
            0 <= i < upto && order[i] == id by {
            if id != order[upto - 1] {
                let i = choose|i: int| 0 <= i < upto - 1 && order[i] == id;
                assert(0 <= i < upto && order[i] == id);
            }
        }
    }
}

/// Setting the players of the hand to playing changes their state and
/// nothing else.
pub proof fn lemma_set_playing(players: Map<PlayerId, Player>, order: Seq<PlayerId>, upto: int)
    requires
        order.no_duplicates(),
        0 <= upto <= order.len(),
        forall|i: int| 0 <= i < order.len() ==> players.contains_key(#[trigger] order[i]),
    ensures
        set_playing(players, order, upto).dom() == players.dom(),
        forall|i: int|
            0 <= i < upto ==> set_playing(players, order, upto)[#[trigger] order[i]] == (Player {
                state: PlayerState::Playing,
                ..players[order[i]]
            }),
        forall|i: int|
            upto <= i < order.len() ==> set_playing(players, order, upto)[#[trigger] order[i]]
                == players[order[i]],
    decreases upto,
{
    if upto > 0 {
        lemma_set_playing(players, order, upto - 1);
        assert forall|i: int| 0 <= i < upto implies set_playing(players, order, upto)[
        #[trigger] order[i]] == (Player { state: PlayerState::Playing, ..players[order[i]] }) by {
        }
    }
}

impl GameState {
    /// Sets every seated player who is offline or out of chips to sitting
    /// out.
    pub fn bench_absent(&mut self)
        ensures
            final(self)@ == (GameView {
                players: benched(
                    old(self)@.players,
                    old(self)@.seated_players,
                    old(self)@.seated_players.len() as int,
                ),
                ..old(self)@
            }),
    {
        let len = self.seated_players.len();
        let mut i: usize = 0;
        while i < len
            invariant
                i <= len,
                len == old(self)@.seated_players.len(),
                self@ == (GameView {
                    players: benched(old(self)@.players, old(self)@.seated_players, i as int),
                    ..old(self)@
                }),
            decreases len - i,
        {
            let id = self.seated_players[i];
            match take_player(&mut self.players, id) {
                Some(p) => {
                    let q = if p.state == PlayerState::Offline || p.stack == 0 {
                        Player { state: PlayerState::SittingOut, ..p }
                    } else {
                        p
                    };
                    replace_player(&mut self.players, id, q);
                    proof {
                        assert(self@.players =~= benched(
                            old(self)@.players,
                            old(self)@.seated_players,
                            i as int + 1,
                        ));
                    }
                },
                None => {},
            }
            i += 1;
        }
    }

    /// Forms the hand from the seated players who take part, and rebuilds
    /// the map from player to position.
    fn form_lineup(&mut self)
        ensures
            final(self)@ == (GameView {
                hand_player_order: lineup(
                    old(self)@.players,
                    old(self)@.seated_players,
                    old(self)@.seated_players.len() as int,
                ),
                player_indices: index_map(
                    final(self)@.hand_player_order,
                    final(self)@.hand_player_order.len() as int,
                ),
                ..old(self)@
            }),
    {
        broadcast use vstd::std_specs::hash::group_hash_axioms;

        let len = self.seated_players.len();
        let mut order: Vec<PlayerId> = Vec::new();
        let mut i: usize = 0;
        while i < len
            invariant
                i <= len,
                len == self@.seated_players.len(),
                self@ == old(self)@,
                order@ == lineup(self@.players, self@.seated_players, i as int),
            decreases len - i,
        {
            let id = self.seated_players[i];
            match find_player(&self.players, id) {
                Some(p) => {
                    if p.state != PlayerState::SittingOut && p.stack > 0 {
                        order.push(id);
                    }
                },
                None => {},
            }
            i += 1;
        }
        let count = order.len();
        let mut indices: HashMap<PlayerId, usize> = HashMap::new();
        let mut k: usize = 0;
        while k < count
            invariant
                k <= count,
                count == order@.len(),
                indices@ == index_map(order@, k as int),
            decreases count - k,
        {
            indices.insert(order[k], k);
            k += 1;
        }
        self.hand_player_order = order;
        self.player_indices = indices;
    }

    /// Lines the players of the next hand up: absent seated players sit
    /// out, the others who have chips form the hand.
    pub fn seat_hand(&mut self)
        ensures
            final(self)@ == old(self)@.lined_up(),
    {
        self.bench_absent();
        self.form_lineup();
    }

    /// Resets the table for the hand and deals two hole cards to each
    /// player off the top of `deck`; what is left of `deck` becomes the
    /// deck of the hand.
    fn deal_in(&mut self, deck: Vec<Card>)
        requires
            old(self)@.order_consistent(),
            deck@.len() >= 2 * old(self)@.n(),
        ensures
            final(self)@ == old(self)@.dealt_in(deck@),
    {
        let n = self.hand_player_order.len();
        let mut i: usize = 0;
        while i < n
            invariant
                i <= n,
                n == old(self)@.n(),
                old(self)@.order_consistent(),
                self@ == (GameView {
                    players: set_playing(
                        old(self)@.players,
                        old(self)@.hand_player_order,
                        i as int,
                    ),
                    ..old(self)@
                }),
            decreases n - i,
        {
            let id = self.hand_player_order[i];
            proof {
                lemma_set_playing(old(self)@.players, old(self)@.hand_player_order, i as int);
            }
            match take_player(&mut self.players, id) {
                Some(p) => {
                    let q = Player { state: PlayerState::Playing, ..p };
                    replace_player(&mut self.players, id, q);
                    proof {
                        assert(self@.players =~= set_playing(
                            old(self)@.players,
                            old(self)@.hand_player_order,
                            i as int + 1,
                        ));
                    }
                },
                None => {},
            }
            i += 1;
        }
        let size = deck.len();
        let mut cards: Vec<HoleCards> = Vec::with_capacity(n);
        let mut bets: Vec<u32> = Vec::with_capacity(n);
        let mut flags: Vec<bool> = Vec::with_capacity(n);
        let mut k: usize = 0;
        while k < n
            invariant
                k <= n,
                size == deck@.len(),
                size >= 2 * n,
                cards@.len() == k,
                bets@.len() == k,
                flags@.len() == k,
                forall|j: int| 0 <= j < k ==> cards@[j] == hole_cards(deck@, n as int)[j],
                forall|j: int| 0 <= j < k ==> bets@[j] == 0,
                forall|j: int| 0 <= j < k ==> flags@[j] == false,
            decreases n - k,
        {
            cards.push((Some(deck[size - 1 - 2 * k]), Some(deck[size - 2 - 2 * k])));
            bets.push(0);
            flags.push(false);
            k += 1;
        }
        let mut board: Vec<Option<Card>> = Vec::with_capacity(5);
        board.push(None);
        board.push(None);
        board.push(None);
        board.push(None);
        board.push(None);
        let mut rest = deck;
        rest.truncate(size - 2 * n);
        self.pot = 0;
        self.community_cards = board;
        self.max_bet = 0;
        self.player_cards = cards;
        self.bets = bets;
        self.player_has_acted = flags;
        self.last_raise_amount = self.big_blind;
        self.deck = rest;
        proof {
            let want = old(self)@.dealt_in(deck@);
            assert(self@.community_cards =~= want.community_cards);
            assert(self@.player_cards =~= want.player_cards);
            assert(self@.bets =~= want.bets);
            assert(self@.player_has_acted =~= want.player_has_acted);
        }
    }

    /// Posts a blind for the player at `i` and tells of it.
    fn post_blind(&mut self, i: usize, blind: u32) -> (told: ServerMessage)
        requires
            old(self)@.showdown_ready(),
            i < old(self)@.n(),
        ensures
            final(self)@ == old(self)@.blind_posted(i as int, blind),
            told@ == final(self)@.blind_event(
                i as int,
                blind_paid(blind, old(self)@.stack_at(i as int)),
            ),
    {
        let stack = self.stack_at(i);
        let paid = if blind < stack {
            blind
        } else {
            stack
        };
        proof {
            old(self)@.lemma_committed(i as int, paid as int);
        }
        self.commit_chips(i, paid);
        let left = self.stack_at(i);
        ServerMessage::PlayerActed {
            player_id: self.hand_player_order[i],
            action: PlayerAction::BetOrRaise(paid),
            total_bet_this_round: self.bets[i],
            new_stack: left,
            new_pot: self.pot,
        }
    }

    /// Opens the hand of the players lined up, with `deck` as the shuffled
    /// cards.
    pub fn open_hand(&mut self, deck: Vec<Card>) -> (msgs: Vec<ServerMessage>)
        requires
            old(self)@.order_consistent(),
            old(self)@.n() >= 2,
            old(self)@.small_blind <= old(self)@.big_blind,
            2 * (total(old(self)@.stacks()) + old(self)@.big_blind) <= u32::MAX,
            old(self)@.counters_fit(),
            deck@.len() >= 2 * old(self)@.n() + 5,
        ensures
            final(self)@ == old(self)@.opened(deck@).0,
            events(msgs@) == old(self)@.opened(deck@).1,
            final(self)@.betting_ready(),
    {
        proof {
            lemma_total_bounds(old(self)@.stacks());
            old(self)@.lemma_dealt_in(deck@);
            old(self)@.lemma_opened(deck@);
        }
        let mut msgs = no_messages();
        emit(
            &mut msgs,
            ServerMessage::HandStarted {
                hand_player_order: copy_vec(&self.hand_player_order),
                dealer_id: self.hand_player_order[0],
            },
        );
        self.deal_in(deck);
        let n = self.hand_player_order.len();
        let (sb, bb, first): (usize, usize, usize) = if n == 2 {
            (0, 1, 0)
        } else if n == 3 {
            (1, 2, 0)
        } else {
            (1, 2, 3)
        };
        let ghost dealt = self@;
        let told_small = self.post_blind(sb, self.small_blind);
        emit(&mut msgs, told_small);
        proof {
            let paid = blind_paid(dealt.small_blind, dealt.stack_at(sb as int));
            dealt.lemma_committed(sb as int, paid as int);
        }
        let told_big = self.post_blind(bb, self.big_blind);
        emit(&mut msgs, told_big);
        self.max_bet = self.big_blind;
        self.phase = GamePhase::PreFlop;
        self.cur_player_idx = first;
        let mut valid_actions: Vec<PlayerActionType> = Vec::new();
        valid_actions.push(PlayerActionType::Call(self.max_bet - self.bets[first]));
        valid_actions.push(PlayerActionType::Raise(self.last_raise_amount));
        valid_actions.push(PlayerActionType::Fold);
        proof {
            assert(valid_actions@ =~= seq![
                PlayerActionType::Call((self@.max_bet - self@.bets[first as int]) as u32),
                PlayerActionType::Raise(self@.last_raise_amount),
                PlayerActionType::Fold,
            ]);
        }
        emit(
            &mut msgs,
            ServerMessage::NextToAct { player_id: self.hand_player_order[first], valid_actions },
        );
        msgs
    }

    /// Starts a hand with `deck` as the shuffled cards; the top of the deck
    /// is its last card.
    pub fn start_new_hand_with_deck(&mut self, deck: Vec<Card>) -> (msgs: Vec<ServerMessage>)
        requires
            old(self)@.start_ready(),
            old(self)@.lined_up().n() >= 2 ==> deck@.len() >= 2 * old(self)@.lined_up().n() + 5,
        ensures
            final(self)@ == old(self)@.hand_started(deck@).0,
            events(msgs@) == old(self)@.hand_started(deck@).1,
            is_betting_phase(final(self)@.phase) ==> final(self)@.betting_ready(),
            final(self)@.same_table_as(old(self)@),
    {
        let seated = self.seated_players.len();
        proof {
            assert(old(self)@.seated_players.len() == seated);
            old(self)@.lemma_lined_up();
            old(self)@.lemma_hand_started_table(deck@);
        }
        self.seat_hand();
        if self.hand_player_order.len() < 2 {
            self.phase = GamePhase::WaitingForPlayers;
            return no_messages();
        }
        self.open_hand(deck)
    }

    /// Starts a hand: lines the players up, shuffles a fresh deck, deals
    /// the hole cards, posts the blinds and asks the first player to act.
    /// With fewer than two players the room waits for players.
    pub fn start_new_hand(&mut self) -> (msgs: Vec<ServerMessage>)
        requires
            old(self)@.start_ready(),
        ensures
            exists|shuffled: Seq<Card>|
                {
                    &&& crate::deck::is_full_deck(shuffled)
                    &&& final(self)@ == #[trigger] old(self)@.started_from(shuffled).0
                    &&& events(msgs@) == old(self)@.started_from(shuffled).1
                },
            is_betting_phase(final(self)@.phase) ==> final(self)@.betting_ready(),
            final(self)@.same_table_as(old(self)@),
    {
        let seated = self.seated_players.len();
        proof {
            assert(old(self)@.seated_players.len() == seated);
            old(self)@.lemma_lined_up();
        }
        self.seat_hand();
        let n = self.hand_player_order.len();
        if n < 2 {
            self.phase = GamePhase::WaitingForPlayers;
            let msgs = no_messages();
            proof {
                let shuffled = crate::deck::fresh_deck();
                assert(self@ == old(self)@.started_from(shuffled).0);
                old(self)@.lemma_hand_started_table(Seq::empty());
            }
            return msgs;
        }
        let deck = generate_random_hand(n);
        let ghost cards = deck@;
        let msgs = self.open_hand(deck);
        proof {
            let shuffled = choose|shuffled: Seq<Card>|
                crate::deck::is_full_deck(shuffled) && cards == #[trigger] crate::deck::dealt_hand(
                    shuffled,
                    n as int,
                );
            assert(self@ == old(self)@.started_from(shuffled).0);
            old(self)@.lemma_hand_started_table(cards);
        }
        msgs
    }
}

/// Whether some id occurs twice in the queue.
pub fn seated_twice(seated: &std::collections::VecDeque<PlayerId>) -> (twice: bool)
    ensures
        twice == !seated@.no_duplicates(),
{
    let len = seated.len();
    let mut i: usize = 0;
    while i < len
        invariant
            i <= len,
            len == seated@.len(),
            forall|a: int, b: int| 0 <= a < i && 0 <= b < len && a != b ==> seated@[a] != seated@[b],
        decreases len - i,
    {
        let mut j: usize = i + 1;
        while j < len
            invariant
                i < len,
                i < j <= len,
                len == seated@.len(),
                forall|b: int| i < b < j ==> seated@[i as int] != seated@[b],
            decreases len - j,
        {
            if seated[i] == seated[j] {
                return true;
            }
            j += 1;
        }
        i += 1;
    }
    false
}

impl GameState {
    /// Tests whether a hand can be started, and says why not.
    pub fn check_start(&self) -> (refusal: Option<StartRefusal>)
        ensures
            refusal == self@.start_refusal(),
            refusal.is_none() <==> self@.start_ready(),
    {
        proof {
            self@.lemma_start_refusal();
        }
        match self.phase {
            GamePhase::WaitingForPlayers | GamePhase::Showdown => {},
            _ => {
                return Some(StartRefusal::HandRunning);
            },
        }
        if self.small_blind > self.big_blind {
            return Some(StartRefusal::BlindsOutOfOrder);
        }
        if seated_twice(&self.seated_players) {
            return Some(StartRefusal::SeatedTwice);
        }
        let seated = self.seated_players.len();
        let mut probe = self.clone();
        probe.seat_hand();
        proof {
            assert(self@.seated_players.len() == seated);
            self@.lemma_lined_up();
        }
        let n = probe.hand_player_order.len();
        if n > crate::deck::MAX_HAND_PLAYERS {
            return Some(StartRefusal::TooManyPlayers);
        }
        let mut chips: u64 = 0;
        let mut counters_full = false;
        let mut i: usize = 0;
        while i < n
            invariant
                i <= n,
                n <= 10,
                n == probe@.n(),
                probe@.order_consistent(),
                chips == total(probe@.stacks().take(i as int)),
                chips <= i * 0xffff_ffff,
                counters_full == !(forall|j: int|
                    0 <= j < i ==> (#[trigger] probe@.player_at(j)).wins < u32::MAX
                        && probe@.player_at(j).losses < u32::MAX),
            decreases n - i,
        {
            proof {
                assert(probe@.stacks().take(i as int + 1).drop_last() =~= probe@.stacks().take(
                    i as int,
                ));
                assert(probe@.stacks().take(i as int + 1).last() == probe@.stack_at(i as int));
            }
            match find_player(&probe.players, probe.hand_player_order[i]) {
                Some(p) => {
                    chips = chips + p.stack as u64;
                    if p.wins == u32::MAX || p.losses == u32::MAX {
                        counters_full = true;
                    }
                },
                None => {},
            }
            i += 1;
        }
        proof {
            assert(probe@.stacks().take(n as int) =~= probe@.stacks());
        }
        if 2 * (chips + self.big_blind as u64) > 0xffff_ffff {
            return Some(StartRefusal::TooManyChips);
        }
        if counters_full {
            return Some(StartRefusal::CountersFull);
        }
        None
    }
}

} // verus!
