//! What a client knows: its copy of the game and what goes with it, kept
//! up to date by the messages of the server.

use crate::card::{Card, HandRank};
use crate::eval::{best_hand, find_best_hand, valid_hand_input};
use crate::message::{ClientMessage, Event, PlayerActionType, ServerMessage, ShowdownResult};
use crate::state::{
    copy_vec, find_index, find_player, GamePhase, GameState, GameView, PlayerId, PlayerState,
};
use crate::text::{id_text, write_id};
use vstd::prelude::*;
use vstd::string::StringExecFns;

verus! {

/// What a client knows.
#[derive(Debug)]
pub struct ClientState {
    /// The client is in a room.
    pub in_room: bool,
    /// The client's copy of the game.
    pub game_state: Option<GameState>,
    /// The address of the server.
    pub server_addr: Option<String>,
    /// What the host passes on to invite others.
    pub share_info: Option<String>,
    pub my_id: Option<PlayerId>,
    pub host_id: Option<PlayerId>,
    /// The best hand known of each player of the hand.
    pub hand_ranks: Vec<Option<HandRank>>,
    /// The stack of each player of the hand when it started.
    pub last_stack: Vec<u32>,
    /// What the client may do when it is its turn.
    pub valid_actions: Vec<PlayerActionType>,
    /// The last error or notice of the server.
    pub last_msg: Option<String>,
    pub log_messages: Vec<String>,
    /// The screen is to be drawn anew.
    pub should_refresh: bool,
}

/// The model of a `ClientState`.
pub struct ClientView {
    pub in_room: bool,
    pub game_state: Option<GameView>,
    pub server_addr: Option<Seq<char>>,
    pub share_info: Option<Seq<char>>,
    pub my_id: Option<PlayerId>,
    pub host_id: Option<PlayerId>,
    pub hand_ranks: Seq<Option<HandRank>>,
    pub last_stack: Seq<u32>,
    pub valid_actions: Seq<PlayerActionType>,
    pub last_msg: Option<Seq<char>>,
    pub log_messages: Seq<Seq<char>>,
    pub should_refresh: bool,
}

/// The text of an optional string.
pub open spec fn text_of(s: Option<String>) -> Option<Seq<char>> {
    match s {
        Some(s) => Some(s@),
        None => None,
    }
}

/// The texts of a list of strings.
pub open spec fn texts_of(lines: Seq<String>) -> Seq<Seq<char>> {
    lines.map_values(|s: String| s@)
}

impl View for ClientState {
    type V = ClientView;

    open spec fn view(&self) -> ClientView {
        ClientView {
            in_room: self.in_room,
            game_state: match self.game_state {
                Some(g) => Some(g@),
                None => None,
            },
            server_addr: text_of(self.server_addr),
            share_info: text_of(self.share_info),
            my_id: self.my_id,
            host_id: self.host_id,
            hand_ranks: self.hand_ranks@,
            last_stack: self.last_stack@,
            valid_actions: self.valid_actions@,
            last_msg: text_of(self.last_msg),
            log_messages: texts_of(self.log_messages@),
            should_refresh: self.should_refresh,
        }
    }
}

/// What the host passes on to invite others to the room.
pub open spec fn share_text(addr: Option<Seq<char>>, room_id: u128) -> Seq<char> {
    "分享信息: join "@ + match addr {
        Some(a) => a,
        None => Seq::empty(),
    } + " "@ + id_text(room_id)
}

/// The log line for a player who sat down.
pub open spec fn seated_line(nickname: Seq<char>) -> Seq<char> {
    "玩家 "@ + nickname + " 已坐下准备游戏"@
}

/// The log line for a player who left their seat.
pub open spec fn unseated_line(nickname: Seq<char>) -> Seq<char> {
    "玩家 "@ + nickname + " 离席"@
}

/// The board cards from the first slot up to the first empty one.
pub open spec fn board_prefix(community: Seq<Option<Card>>) -> Seq<Card>
    decreases community.len(),
{
    if community.len() == 0 {
        Seq::empty()
    } else {
        match community[0] {
            Some(card) => seq![card] + board_prefix(community.drop_first()),
            None => Seq::empty(),
        }
    }
}

impl GameView {
    /// The best hand of the player in slot `i`, as far as the client can
    /// tell: their hole cards are known and make a valid set with the
    /// board.
    pub open spec fn known_rank(self, i: int) -> Option<HandRank> {
        match self.player_cards[i] {
            (Some(c1), Some(c2)) => {
                let cards = board_prefix(self.community_cards).push(c1).push(c2);
                if valid_hand_input(cards) {
                    Some(best_hand(cards))
                } else {
                    None
                }
            },
            _ => None,
        }
    }

    /// The hand ranks after the hands in the first `upto` slots were
    /// evaluated anew.
    pub open spec fn ranks_known(self, ranks: Seq<Option<HandRank>>, upto: int) -> Seq<
        Option<HandRank>,
    >
        decreases upto,
    {
        if upto <= 0 {
            ranks
        } else {
            let before = self.ranks_known(ranks, upto - 1);
            match self.known_rank(upto - 1) {
                Some(rank) if upto - 1 < before.len() => before.update(upto - 1, Some(rank)),
                _ => before,
            }
        }
    }

    /// The hand ranks after the first `upto` results of a showdown were
    /// taken in.
    pub open spec fn ranks_shown(
        self,
        ranks: Seq<Option<HandRank>>,
        results: Seq<ShowdownResult>,
        upto: int,
    ) -> Seq<Option<HandRank>>
        decreases upto,
    {
        if upto <= 0 {
            ranks
        } else {
            let before = self.ranks_shown(ranks, results, upto - 1);
            let r = results[upto - 1];
            match (r.cards, r.hand_rank) {
                (Some(_), Some(rank)) if self.player_indices.contains_key(r.player_id)
                    && self.player_indices[r.player_id] < before.len() => before.update(
                    self.player_indices[r.player_id] as int,
                    Some(rank),
                ),
                _ => before,
            }
        }
    }

    /// The stack of each player of the hand; nothing for one who is no
    /// member.
    pub open spec fn known_stacks(self) -> Seq<u32> {
        Seq::new(
            self.hand_player_order.len(),
            |i: int|
                if self.players.contains_key(self.hand_player_order[i]) {
                    self.stack_at(i)
                } else {
                    0
                },
        )
    }
}

impl ClientView {
    /// What the client knows after a welcome to a room.
    pub open spec fn welcomed(self, your_id: PlayerId, game: GameView, host_id: PlayerId) -> ClientView {
        let n = game.hand_player_order.len();
        ClientView {
            my_id: Some(your_id),
            game_state: Some(game),
            host_id: Some(host_id),
            in_room: true,
            hand_ranks: Seq::new(n, |i: int| None::<HandRank>),
            last_stack: Seq::new(n, |i: int| 0u32),
            share_info: if your_id == host_id {
                Some(share_text(self.server_addr, game.room_id))
            } else {
                self.share_info
            },
            ..self
        }
    }

    /// What the client knows after a message that changes the copy of the
    /// game alone: a member who came in or left, the client's hole cards,
    /// an action, or the return of an uncalled bet.
    pub open spec fn received_plain(self, e: Event) -> ClientView {
        match self.game_state {
            None => self,
            Some(g) => ClientView {
                game_state: Some(
                    match e {
                        Event::PlayerJoined { player } => g.with_member(player),
                        Event::PlayerLeft { player_id } => g.with_member_gone(player_id),
                        Event::PlayerHand { hands } => match self.my_id {
                            Some(me) => g.with_own_cards(me, hands),
                            None => g,
                        },
                        Event::PlayerActed {
                            player_id,
                            action,
                            total_bet_this_round,
                            new_stack,
                            new_pot,
                        } => g.with_action_seen(
                            player_id,
                            action,
                            total_bet_this_round,
                            new_stack,
                            new_pot,
                        ),
                        Event::BetReturned { player_id, amount, new_stack } => g.with_return_seen(
                            player_id,
                            amount,
                            new_stack,
                        ),
                        _ => g,
                    },
                ),
                ..self
            },
        }
    }

    /// What the client knows, and what it sends back, after the server
    /// sent a message. Every message clears the last notice and asks for
    /// the screen to be drawn anew. Messages about the game are taken into
    /// the client's copy of it, if there is one. The start of a hand is
    /// answered by asking for the client's hole cards.
    pub open spec fn received(self, e: Event) -> (ClientView, Seq<ClientMessage>) {
        let base = ClientView { last_msg: None, should_refresh: true, ..self };
        let nothing = Seq::<ClientMessage>::empty();
        match e {
            Event::RoomJoined { your_id, game_state, host_id, .. } => (
                base.welcomed(your_id, game_state, host_id),
                nothing,
            ),
            Event::Error { message } | Event::Info { message } => (
                ClientView { last_msg: Some(message), ..base },
                nothing,
            ),
            Event::GameStateSnapshot(game) => (ClientView { game_state: Some(game), ..base }, nothing),
            Event::NextToAct { player_id, valid_actions } => (
                ClientView {
                    game_state: match base.game_state {
                        Some(g) => Some(g.with_turn_seen(player_id)),
                        None => None,
                    },
                    valid_actions: if base.my_id == Some(player_id) {
                        valid_actions
                    } else {
                        Seq::empty()
                    },
                    ..base
                },
                nothing,
            ),
            Event::PlayerUpdated { player } => match base.game_state {
                Some(g) => (base.member_updated(g, player), nothing),
                None => (base, nothing),
            },
            Event::HandStarted { hand_player_order, .. } => match base.game_state {
                Some(g) => {
                    let started = g.with_hand_started(hand_player_order);
                    (
                        ClientView {
                            game_state: Some(started),
                            share_info: None,
                            hand_ranks: Seq::new(hand_player_order.len(), |i: int| None::<HandRank>),
                            last_stack: started.known_stacks(),
                            ..base
                        },
                        seq![ClientMessage::GetMyHand],
                    )
                },
                None => (base, nothing),
            },
            Event::CommunityCardsDealt { phase, cards } => match base.game_state {
                Some(g) => {
                    let dealt = g.with_street_seen(phase, cards);
                    (
                        ClientView {
                            game_state: Some(dealt),
                            hand_ranks: if crate::mirror::street_start(phase).is_some() {
                                dealt.ranks_known(base.hand_ranks, dealt.player_cards.len() as int)
                            } else {
                                base.hand_ranks
                            },
                            ..base
                        },
                        nothing,
                    )
                },
                None => (base, nothing),
            },
            Event::Showdown { results } => match base.game_state {
                Some(g) => (
                    ClientView {
                        game_state: Some(g.with_showdown_seen(results)),
                        hand_ranks: g.ranks_shown(base.hand_ranks, results, results.len() as int),
                        ..base
                    },
                    nothing,
                ),
                None => (base, nothing),
            },
            _ => (base.received_plain(e), nothing),
        }
    }

    /// What the client knows after the record of a member changed: the
    /// copy of the game is brought up to date; for a player who waits for
    /// the next hand or sits out, a line is logged; and the remembered
    /// stack of a waiting player who was seated and is in the hand is set
    /// to their new stack.
    pub open spec fn member_updated(self, g: GameView, player: crate::state::Player) -> ClientView {
        let was_seated = crate::room::position_from(g.seated_players, player.id, 0) >= 0;
        ClientView {
            game_state: Some(g.with_member_updated(player)),
            log_messages: if player.state == PlayerState::Waiting {
                self.log_messages.push(seated_line(player.nickname@))
            } else if player.state == PlayerState::SittingOut {
                self.log_messages.push(unseated_line(player.nickname@))
            } else {
                self.log_messages
            },
            last_stack: if player.state == PlayerState::Waiting && was_seated
                && g.player_indices.contains_key(player.id) && g.player_indices[player.id]
                < self.last_stack.len() {
                self.last_stack.update(g.player_indices[player.id] as int, player.stack)
            } else {
                self.last_stack
            },
            ..self
        }
    }
}

/// The board cards from the first slot up to the first empty one.
pub fn board_prefix_of(community: &Vec<Option<Card>>) -> (prefix: Vec<Card>)
    ensures
        prefix@ == board_prefix(community@),
{
    let mut prefix: Vec<Card> = Vec::new();
    let mut i: usize = 0;
    proof {
        assert(community@.skip(0) =~= community@);
    }
    while i < community.len()
        invariant
            i <= community.len(),
            board_prefix(community@) == prefix@ + board_prefix(community@.skip(i as int)),
        decreases community.len() - i,
    {
        proof {
            assert(community@.skip(i as int).drop_first() =~= community@.skip(i as int + 1));
        }
        match community[i] {
            Some(card) => {
                prefix.push(card);
            },
            None => {
                return prefix;
            },
        }
        i += 1;
    }
    prefix
}

/// A list of `n` unknown hand ranks.
fn unknown_ranks(n: usize) -> (ranks: Vec<Option<HandRank>>)
    ensures
        ranks@ == Seq::new(n as nat, |i: int| None::<HandRank>),
{
    let mut ranks: Vec<Option<HandRank>> = Vec::with_capacity(n);
    let mut i: usize = 0;
    while i < n
        invariant
            i <= n,
            ranks@.len() == i,
            forall|j: int| 0 <= j < i ==> ranks@[j] == None::<HandRank>,
        decreases n - i,
    {
        ranks.push(None);
        i += 1;
    }
    ranks
}

/// A list of `n` stacks of nothing.
fn no_stacks(n: usize) -> (stacks: Vec<u32>)
    ensures
        stacks@ == Seq::new(n as nat, |i: int| 0u32),
{
    let mut stacks: Vec<u32> = Vec::with_capacity(n);
    let mut i: usize = 0;
    while i < n
        invariant
            i <= n,
            stacks@.len() == i,
            forall|j: int| 0 <= j < i ==> stacks@[j] == 0,
        decreases n - i,
    {
        stacks.push(0);
        i += 1;
    }
    stacks
}

impl GameState {
    /// The stack of each player of the hand; nothing for one who is no
    /// member.
    pub fn known_stacks(&self) -> (stacks: Vec<u32>)
        ensures
            stacks@ == self@.known_stacks(),
    {
        let n = self.hand_player_order.len();
        let mut stacks: Vec<u32> = Vec::with_capacity(n);
        let mut i: usize = 0;
        while i < n
            invariant
                i <= n,
                n == self@.n(),
                stacks@.len() == i,
                forall|j: int| 0 <= j < i ==> stacks@[j] == self@.known_stacks()[j],
            decreases n - i,
        {
            let stack = match find_player(&self.players, self.hand_player_order[i]) {
                Some(p) => p.stack,
                None => 0,
            };
            stacks.push(stack);
            i += 1;
        }
        stacks
    }

    /// Evaluates anew the hand of every player whose hole cards are known.
    pub fn update_known_ranks(&self, ranks: &mut Vec<Option<HandRank>>)
        ensures
            final(ranks)@ == self@.ranks_known(old(ranks)@, self@.player_cards.len() as int),
    {
        let prefix = board_prefix_of(&self.community_cards);
        let slots = self.player_cards.len();
        let mut i: usize = 0;
        while i < slots
            invariant
                i <= slots,
                slots == self@.player_cards.len(),
                prefix@ == board_prefix(self@.community_cards),
                ranks@ == self@.ranks_known(old(ranks)@, i as int),
            decreases slots - i,
        {
            match self.player_cards[i] {
                (Some(c1), Some(c2)) => {
                    let mut cards = copy_vec(&prefix);
                    cards.push(c1);
                    cards.push(c2);
                    match find_best_hand(cards.as_slice()) {
                        Ok(rank) => {
                            if i < ranks.len() {
                                ranks.set(i, Some(rank));
                            }
                        },
                        Err(_) => {},
                    }
                },
                _ => {},
            }
            i += 1;
        }
    }

    /// Takes the hands shown at a showdown into the known hand ranks.
    pub fn update_shown_ranks(&self, ranks: &mut Vec<Option<HandRank>>, results: &Vec<ShowdownResult>)
        ensures
            final(ranks)@ == self@.ranks_shown(old(ranks)@, results@, results@.len() as int),
    {
        let mut k: usize = 0;
        while k < results.len()
            invariant
                k <= results.len(),
                ranks@ == self@.ranks_shown(old(ranks)@, results@, k as int),
            decreases results.len() - k,
        {
            let r = results[k];
            match (r.cards, r.hand_rank) {
                (Some(_), Some(rank)) => {
                    match find_index(&self.player_indices, r.player_id) {
                        Some(i) => {
                            if i < ranks.len() {
                                ranks.set(i, Some(rank));
                            }
                        },
                        None => {},
                    }
                },
                _ => {},
            }
            k += 1;
        }
    }
}

/// Adds a line to a log.
fn log_line(log: &mut Vec<String>, line: String)
    ensures
        texts_of(final(log)@) == texts_of(old(log)@).push(line@),
{
    log.push(line);
}

impl ClientState {
    /// What a client knows before it has connected: nothing, and the
    /// screen is to be drawn.
    pub fn new() -> (fresh: ClientState)
        ensures
            fresh@ == (ClientView {
                in_room: false,
                game_state: None,
                server_addr: None,
                share_info: None,
                my_id: None,
                host_id: None,
                hand_ranks: Seq::empty(),
                last_stack: Seq::empty(),
                valid_actions: Seq::empty(),
                last_msg: None,
                log_messages: Seq::empty(),
                should_refresh: true,
            }),
    {
        let fresh = ClientState {
            in_room: false,
            game_state: None,
            server_addr: None,
            share_info: None,
            my_id: None,
            host_id: None,
            hand_ranks: Vec::new(),
            last_stack: Vec::new(),
            valid_actions: Vec::new(),
            last_msg: None,
            log_messages: Vec::new(),
            should_refresh: true,
        };
        assert(texts_of(fresh.log_messages@) =~= Seq::<Seq<char>>::empty());
        fresh
    }

    /// Takes in a welcome to a room.
    fn note_welcome(&mut self, your_id: PlayerId, game_state: GameState, host_id: PlayerId)
        ensures
            final(self)@ == old(self)@.welcomed(your_id, game_state@, host_id),
    {
        let n = game_state.hand_player_order.len();
        self.my_id = Some(your_id);
        self.host_id = Some(host_id);
        self.in_room = true;
        self.hand_ranks = unknown_ranks(n);
        self.last_stack = no_stacks(n);
        if your_id == host_id {
            let mut share = String::from_str("分享信息: join ");
            match &self.server_addr {
                Some(addr) => {
                    share.append(addr.as_str());
                },
                None => {
                },
            }
            share.append(" ");
            let id = write_id(game_state.room_id);
            share.append(id.as_str());
            self.share_info = Some(share);
        }
        self.game_state = Some(game_state);
    }

    /// Takes in whose turn it is, and what they may do.
    fn note_next_to_act(&mut self, player_id: PlayerId, valid_actions: Vec<PlayerActionType>)
        ensures
            final(self)@ == (ClientView {
                game_state: match old(self)@.game_state {
                    Some(g) => Some(g.with_turn_seen(player_id)),
                    None => None,
                },
                valid_actions: if old(self)@.my_id == Some(player_id) {
                    valid_actions@
                } else {
                    Seq::empty()
                },
                ..old(self)@
            }),
    {
        match self.game_state.take() {
            Some(mut g) => {
                g.note_turn(player_id);
                self.game_state = Some(g);
            },
            None => {},
        }
        if self.my_id == Some(player_id) {
            self.valid_actions = valid_actions;
        } else {
            self.valid_actions = Vec::new();
        }
    }

    /// Takes in that the record of a member changed.
    fn note_player_updated(&mut self, player: crate::state::Player)
        ensures
            final(self)@ == match old(self)@.game_state {
                Some(g) => old(self)@.member_updated(g, player),
                None => old(self)@,
            },
    {
        match self.game_state.take() {
            Some(mut g) => {
                if player.state == PlayerState::Waiting {
                    let mut line = String::from_str("玩家 ");
                    line.append(player.nickname.as_str());
                    line.append(" 已坐下准备游戏");
                    log_line(&mut self.log_messages, line);
                } else if player.state == PlayerState::SittingOut {
                    let mut line = String::from_str("玩家 ");
                    line.append(player.nickname.as_str());
                    line.append(" 离席");
                    log_line(&mut self.log_messages, line);
                }
                let id = player.id;
                let stack = player.stack;
                let known = find_index(&g.player_indices, id);
                proof {
                    crate::room::lemma_position_from(g@.seated_players, id, 0);
                }
                let was_at = g.note_member_updated(player);
                match (was_at, known) {
                    (Some(_), Some(i)) => {
                        if i < self.last_stack.len() {
                            self.last_stack.set(i, stack);
                        }
                    },
                    _ => {},
                }
                self.game_state = Some(g);
            },
            None => {},
        }
    }

    /// Takes in that a hand of the players `order` has started. Tells
    /// whether the client has a copy of the game.
    fn note_hand_started(&mut self, order: Vec<PlayerId>) -> (has_game: bool)
        ensures
            has_game == old(self)@.game_state.is_some(),
            final(self)@ == match old(self)@.game_state {
                Some(g) => ClientView {
                    game_state: Some(g.with_hand_started(order@)),
                    share_info: None,
                    hand_ranks: Seq::new(order@.len(), |i: int| None::<HandRank>),
                    last_stack: g.with_hand_started(order@).known_stacks(),
                    ..old(self)@
                },
                None => old(self)@,
            },
    {
        match self.game_state.take() {
            Some(mut g) => {
                let n = order.len();
                g.note_hand_started(order);
                self.share_info = None;
                self.hand_ranks = unknown_ranks(n);
                self.last_stack = g.known_stacks();
                self.game_state = Some(g);
                true
            },
            None => false,
        }
    }

    /// Takes in the cards of a street.
    fn note_street(&mut self, phase: GamePhase, cards: Vec<Card>)
        ensures
            final(self)@ == match old(self)@.game_state {
                Some(g) => ClientView {
                    game_state: Some(g.with_street_seen(phase, cards@)),
                    hand_ranks: if crate::mirror::street_start(phase).is_some() {
                        g.with_street_seen(phase, cards@).ranks_known(
                            old(self)@.hand_ranks,
                            g.with_street_seen(phase, cards@).player_cards.len() as int,
                        )
                    } else {
                        old(self)@.hand_ranks
                    },
                    ..old(self)@
                },
                None => old(self)@,
            },
    {
        match self.game_state.take() {
            Some(mut g) => {
                if g.note_street(phase, &cards) {
                    g.update_known_ranks(&mut self.hand_ranks);
                }
                self.game_state = Some(g);
            },
            None => {},
        }
    }

    /// Takes in the results of a showdown.
    fn note_showdown(&mut self, results: Vec<ShowdownResult>)
        ensures
            final(self)@ == match old(self)@.game_state {
                Some(g) => ClientView {
                    game_state: Some(g.with_showdown_seen(results@)),
                    hand_ranks: g.ranks_shown(
                        old(self)@.hand_ranks,
                        results@,
                        results@.len() as int,
                    ),
                    ..old(self)@
                },
                None => old(self)@,
            },
    {
        match self.game_state.take() {
            Some(mut g) => {
                g.update_shown_ranks(&mut self.hand_ranks, &results);
                g.note_showdown(&results);
                self.game_state = Some(g);
            },
            None => {},
        }
    }

    /// Takes in a message that changes the copy of the game alone.
    fn note_game_event(&mut self, msg: ServerMessage)
        requires
            msg is PlayerJoined || msg is PlayerLeft || msg is PlayerHand || msg is PlayerActed
                || msg is BetReturned,
        ensures
            final(self)@ == old(self)@.received_plain(msg@),
    {
        match self.game_state.take() {
            Some(mut g) => {
                match msg {
                    ServerMessage::PlayerJoined { player } => {
                        g.note_member(player);
                    },
                    ServerMessage::PlayerLeft { player_id } => {
                        g.note_member_gone(player_id);
                    },
                    ServerMessage::PlayerHand { hands } => {
                        match self.my_id {
                            Some(me) => {
                                g.note_own_cards(me, hands);
                            },
                            None => {},
                        }
                    },
                    ServerMessage::PlayerActed {
                        player_id,
                        action,
                        total_bet_this_round,
                        new_stack,
                        new_pot,
                    } => {
                        g.note_action(player_id, action, total_bet_this_round, new_stack, new_pot);
                    },
                    ServerMessage::BetReturned { player_id, amount, new_stack } => {
                        g.note_return(player_id, amount, new_stack);
                    },
                    _ => {},
                }
                self.game_state = Some(g);
            },
            None => {},
        }
    }

    /// Takes in a message of the server, and tells what to send back.
    pub fn handle_server_message(&mut self, msg: ServerMessage) -> (replies: Vec<ClientMessage>)
        ensures
            final(self)@ == old(self)@.received(msg@).0,
            replies@ == old(self)@.received(msg@).1,
    {
        let mut replies: Vec<ClientMessage> = Vec::new();
        self.last_msg = None;
        self.should_refresh = true;
        match msg {
            ServerMessage::RoomJoined { your_id, game_state, host_id, .. } => {
                self.note_welcome(your_id, game_state, host_id);
            },
            ServerMessage::Error { message } => {
                self.last_msg = Some(message);
            },
            ServerMessage::Info { message } => {
                self.last_msg = Some(message);
            },
            ServerMessage::GameStateSnapshot(game) => {
                self.game_state = Some(game);
            },
            ServerMessage::NextToAct { player_id, valid_actions } => {
                self.note_next_to_act(player_id, valid_actions);
            },
            ServerMessage::PlayerUpdated { player } => {
                self.note_player_updated(player);
            },
            ServerMessage::HandStarted { hand_player_order, .. } => {
                if self.note_hand_started(hand_player_order) {
                    replies.push(ClientMessage::GetMyHand);
                }
            },
            ServerMessage::CommunityCardsDealt { phase, cards } => {
                self.note_street(phase, cards);
            },
            ServerMessage::Showdown { results } => {
                self.note_showdown(results);
            },
            other => {
                self.note_game_event(other);
            },
        }
        replies
    }
}

} // verus!
