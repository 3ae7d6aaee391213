//! A room: the game, its host, and the connected players. What the room
//! does with each message of a member, and whom it tells.

use crate::betting::RuleViolation;
use crate::card::Card;
use crate::message::{
    emit, emit_all, events, no_messages, ClientMessage, Event, PlayerSecret, ServerMessage,
};
use crate::seating::{seat_is_taken, seat_taken};
use crate::start::StartRefusal;
use crate::state::{
    copy_deque, find_index, find_player, replace_player, same_people, take_player, GamePhase, GameState,
    GameView, Player, PlayerAction, PlayerId, PlayerState,
};
use crate::streets::is_betting_phase;
use std::collections::HashMap;
use vstd::prelude::*;
use vstd::string::StringExecFns;

verus! {

/// The most steps the room plays in a row for players who are offline.
pub const MAX_AUTO_STEPS: usize = 32;

/// A room.
#[derive(Debug)]
pub struct Room {
    pub game_state: GameState,
    pub host_id: PlayerId,
    /// The connected players, each with their secret.
    pub players: HashMap<PlayerId, PlayerSecret>,
}

/// The model of a `Room`.
pub struct RoomView {
    pub game_state: GameView,
    pub host_id: PlayerId,
    pub players: Map<PlayerId, PlayerSecret>,
}

impl View for Room {
    type V = RoomView;

    open spec fn view(&self) -> RoomView {
        RoomView { game_state: self.game_state@, host_id: self.host_id, players: self.players@ }
    }
}

/// What the room answers to a message: messages for everyone connected, in
/// which an error is meant for the sender alone, and messages for the
/// sender alone.
#[derive(Debug)]
pub struct Outcome {
    pub broadcast: Vec<ServerMessage>,
    pub only: Vec<ServerMessage>,
}

/// The model of an `Outcome`.
pub struct OutcomeView {
    pub broadcast: Seq<Event>,
    pub only: Seq<Event>,
}

impl View for Outcome {
    type V = OutcomeView;

    open spec fn view(&self) -> OutcomeView {
        OutcomeView { broadcast: events(self.broadcast@), only: events(self.only@) }
    }
}

/// The outcome that tells everyone `told`.
pub open spec fn tell_all(told: Seq<Event>) -> OutcomeView {
    OutcomeView { broadcast: told, only: Seq::empty() }
}

/// The outcome that tells the sender `told`.
pub open spec fn tell_sender(told: Seq<Event>) -> OutcomeView {
    OutcomeView { broadcast: Seq::empty(), only: told }
}

/// The error event with the given text.
pub open spec fn error_event(text: Seq<char>) -> Event {
    Event::Error { message: text }
}

impl StartRefusal {
    /// The message shown to the host.
    pub open spec fn text(self) -> Seq<char> {
        match self {
            StartRefusal::HandRunning => "牌局进行中，无法开始新的一局"@,
            StartRefusal::BlindsOutOfOrder => "无法开始游戏：小盲注大于大盲注"@,
            StartRefusal::SeatedTwice => "无法开始游戏：有玩家重复入座"@,
            StartRefusal::TooManyPlayers => "无法开始游戏：参与玩家超过十人"@,
            StartRefusal::TooManyChips => "无法开始游戏：筹码总量过大"@,
            StartRefusal::CountersFull => "无法开始游戏：玩家胜负次数已达上限"@,
        }
    }

    /// Builds the message shown to the host.
    pub fn message(&self) -> (s: String)
        ensures
            s@ == self.text(),
    {
        match *self {
            StartRefusal::HandRunning => String::from_str("牌局进行中，无法开始新的一局"),
            StartRefusal::BlindsOutOfOrder => String::from_str("无法开始游戏：小盲注大于大盲注"),
            StartRefusal::SeatedTwice => String::from_str("无法开始游戏：有玩家重复入座"),
            StartRefusal::TooManyPlayers => String::from_str("无法开始游戏：参与玩家超过十人"),
            StartRefusal::TooManyChips => String::from_str("无法开始游戏：筹码总量过大"),
            StartRefusal::CountersFull => String::from_str("无法开始游戏：玩家胜负次数已达上限"),
        }
    }
}

/// The first position of `id` in `seated` from `k` on; -1 where it does not
/// occur.
pub open spec fn position_from(seated: Seq<PlayerId>, id: PlayerId, k: int) -> int
    decreases seated.len() - k,
{
    if k >= seated.len() {
        -1
    } else if seated[k] == id {
        k
    } else {
        position_from(seated, id, k + 1)
    }
}

/// The seated order without the first occurrence of `id`.
pub open spec fn unseated(seated: Seq<PlayerId>, id: PlayerId) -> Seq<PlayerId> {
    let k = position_from(seated, id, 0);
    if k >= 0 {
        seated.remove(k)
    } else {
        seated
    }
}

/// The seated order with the button moved on by one seat.
pub open spec fn button_moved(seated: Seq<PlayerId>) -> Seq<PlayerId> {
    if seated.len() == 0 {
        seated
    } else {
        seated.drop_first().push(seated[0])
    }
}

impl GameView {
    /// After a step taken from `before` the same player is still to act in
    /// the same betting round: the turn could not pass on, and another step
    /// would repeat this one.
    pub open spec fn waits_as(self, before: GameView) -> bool {
        self.phase == before.phase && self.cur_player_idx == before.cur_player_idx
    }

    /// The state and the events after the room played for offline players:
    /// up to `fuel` steps, as long as a step is taken. A step after which
    /// the same player is still to act is the last.
    pub open spec fn auto_played(self, fuel: nat) -> (GameView, Seq<Event>)
        decreases fuel,
    {
        if fuel == 0 {
            (self, Seq::empty())
        } else {
            let (did, stepped, told) = self.ticked();
            if !did {
                (self, Seq::empty())
            } else if stepped.waits_as(self) {
                (stepped, told)
            } else {
                let (done, more) = stepped.auto_played((fuel - 1) as nat);
                (done, told + more)
            }
        }
    }

    /// Playing for offline players with some steps left is one step and
    /// then the rest.
    pub proof fn lemma_auto_played_step(self, fuel: nat)
        requires
            fuel > 0,
        ensures
            !self.ticked().0 ==> self.auto_played(fuel) == (self, Seq::<Event>::empty()),
            self.ticked().0 && self.ticked().1.waits_as(self) ==> self.auto_played(fuel) == (
                self.ticked().1,
                self.ticked().2,
            ),
            self.ticked().0 && !self.ticked().1.waits_as(self) ==> self.auto_played(fuel) == (
                self.ticked().1.auto_played((fuel - 1) as nat).0,
                self.ticked().2 + self.ticked().1.auto_played((fuel - 1) as nat).1,
            ),
    {
    }

    /// The game after the member `player_id` sat down at `seat_id` with
    /// `stack` chips: they wait for the next hand, and stand in the seated
    /// order where their seat belongs.
    pub open spec fn seated_at(self, player_id: PlayerId, seat_id: u8, stack: u32) -> GameView {
        let p = Player {
            stack,
            seat_id: Some(seat_id),
            state: PlayerState::Waiting,
            ..self.players[player_id]
        };
        let cleared = GameView {
            players: self.players.insert(player_id, p),
            seated_players: unseated(self.seated_players, player_id),
            ..self
        };
        GameView {
            seated_players: cleared.seated_players.insert(cleared.insertion_index(seat_id), player_id),
            ..cleared
        }
    }
}

impl RoomView {
    /// What every operation of the room keeps: the blinds are in order,
    /// nobody is seated twice, every seated player is a member with a seat
    /// number, a running hand is fit for betting, and whoever is connected
    /// is a member.
    pub open spec fn well_formed(self) -> bool {
        let g = self.game_state;
        &&& g.small_blind <= g.big_blind
        &&& g.seated_players.no_duplicates()
        &&& g.seats_known()
        &&& is_betting_phase(g.phase) ==> g.betting_ready()
        &&& forall|id: PlayerId| #[trigger] self.players.contains_key(id) ==> g.players.contains_key(id)
    }

    /// The room and its answer after the member `player_id` asked for a
    /// seat. The request is refused during a hand, for a seat number the
    /// room does not have, and for a seat that another member has.
    pub open spec fn seat_requested(self, player_id: PlayerId, seat_id: u8, stack: u32) -> (
        RoomView,
        OutcomeView,
    ) {
        let g = self.game_state;
        if is_betting_phase(g.phase) {
            (self, tell_sender(seq![error_event("入座失败：请在等待阶段入座"@)]))
        } else if seat_id >= g.seats {
            (self, tell_sender(seq![error_event("入座失败：座位号超出最大座位数"@)]))
        } else if seat_is_taken(g.players, seat_id, player_id) {
            (self, tell_sender(seq![error_event("入座失败：该位置已有玩家入座"@)]))
        } else {
            let after = g.seated_at(player_id, seat_id, stack);
            (
                RoomView { game_state: after, ..self },
                tell_all(seq![Event::PlayerUpdated { player: after.players[player_id] }]),
            )
        }
    }

    /// The room and its answer after the member `player_id` sent an action.
    /// Outside a hand it is nobody's turn. In a hand the engine handles the
    /// action, and the room then plays for players who are offline.
    pub open spec fn action_performed(self, player_id: PlayerId, action: PlayerAction) -> (
        RoomView,
        OutcomeView,
    ) {
        let g = self.game_state;
        if !is_betting_phase(g.phase) {
            (self, tell_all(seq![error_event(RuleViolation::NotYourTurn.text())]))
        } else {
            let (acted, told) = g.action_handled(player_id, action);
            let (done, more) = acted.auto_played(MAX_AUTO_STEPS as nat);
            (RoomView { game_state: done, ..self }, tell_all(told + more))
        }
    }

    /// The answer to a member who asks for their hole cards: before the
    /// flop, a player of the hand who holds both cards is told them.
    pub open spec fn hand_asked(self, player_id: PlayerId) -> OutcomeView {
        let g = self.game_state;
        if g.phase == GamePhase::PreFlop && g.player_indices.contains_key(player_id)
            && g.player_indices[player_id] < g.player_cards.len() {
            match g.player_cards[g.player_indices[player_id] as int] {
                (Some(c1), Some(c2)) => tell_sender(seq![Event::PlayerHand { hands: (c1, c2) }]),
                _ => tell_sender(Seq::empty()),
            }
        } else {
            tell_sender(Seq::empty())
        }
    }

    /// The room and its answer after the member `player_id` asked to start
    /// a hand, where `deck` is the shuffled deck that the cards of the hand
    /// are drawn from. Only the host may start a hand, and not while one is
    /// running. The button moves on by one seat and the hand starts. Where
    /// something speaks against the start with the button moved, the
    /// request is refused and the room stays as it was.
    pub open spec fn hand_requested(self, player_id: PlayerId, deck: Seq<Card>) -> (
        RoomView,
        OutcomeView,
    ) {
        let g = self.game_state;
        if player_id != self.host_id {
            (self, tell_all(seq![error_event("只有房主可以开始游戏"@)]))
        } else if is_betting_phase(g.phase) {
            (self, tell_all(seq![error_event(StartRefusal::HandRunning.text())]))
        } else {
            let moved = GameView { seated_players: button_moved(g.seated_players), ..g };
            match moved.start_refusal() {
                Some(refusal) => (self, tell_all(seq![error_event(refusal.text())])),
                None => {
                    let (started, told) = moved.started_from(deck);
                    (RoomView { game_state: started, ..self }, tell_all(told))
                },
            }
        }
    }
}

/// The record of a member who has just come in: no chips, no seat, sitting
/// out.
pub open spec fn newcomer(id: PlayerId, nickname: String) -> Player {
    Player {
        id,
        nickname,
        stack: 0,
        wins: 0,
        losses: 0,
        state: PlayerState::SittingOut,
        seat_id: None,
    }
}

/// The text that names a new host.
pub open spec fn host_text(nickname: Seq<char>) -> Seq<char> {
    "房主已断开，新房主是 "@ + nickname
}

impl RoomView {
    /// The room that `host_id` has just created under `room_id`: a fresh
    /// game with the creator as its only member, connected, and host.
    pub open spec fn created(
        room_id: u128,
        host_id: PlayerId,
        secret: PlayerSecret,
        nickname: String,
    ) -> RoomView {
        let fresh = crate::state::fresh_game(room_id);
        RoomView {
            game_state: GameView {
                players: fresh.players.insert(host_id, newcomer(host_id, nickname)),
                ..fresh
            },
            host_id,
            players: Map::<PlayerId, PlayerSecret>::empty().insert(host_id, secret),
        }
    }

    /// The event that welcomes `player_id` to the room: their id and
    /// secret, the game as they may see it, and the host.
    pub open spec fn welcome(self, player_id: PlayerId, secret: PlayerSecret) -> Event {
        Event::RoomJoined {
            your_id: player_id,
            your_secret: secret,
            game_state: self.game_state.for_client(player_id),
            host_id: self.host_id,
        }
    }

    /// The room after `player_id` came in: a member, and connected.
    pub open spec fn joined(self, player_id: PlayerId, secret: PlayerSecret, nickname: String) -> RoomView {
        RoomView {
            game_state: GameView {
                players: self.game_state.players.insert(player_id, newcomer(player_id, nickname)),
                ..self.game_state
            },
            players: self.players.insert(player_id, secret),
            ..self
        }
    }

    /// The game after `player_id` lost their connection: if they are a
    /// member, they are offline.
    pub open spec fn gone_offline(self, player_id: PlayerId) -> GameView {
        let g = self.game_state;
        if g.players.contains_key(player_id) {
            GameView {
                players: g.players.insert(
                    player_id,
                    Player { state: PlayerState::Offline, ..g.players[player_id] },
                ),
                ..g
            }
        } else {
            g
        }
    }

    /// The host passes on when `player_id` leaves: they are the host, and
    /// somebody else is still connected.
    pub open spec fn host_passes_on(self, player_id: PlayerId) -> bool {
        player_id == self.host_id && !self.players.remove(player_id).dom().is_empty()
    }

    /// The room after `player_id` lost their connection, with `heir` as
    /// host if the host passes on. The room plays on for players who are
    /// offline.
    pub open spec fn disconnected(self, player_id: PlayerId, heir: PlayerId) -> RoomView {
        RoomView {
            game_state: self.gone_offline(player_id).auto_played(MAX_AUTO_STEPS as nat).0,
            host_id: if self.host_passes_on(player_id) {
                heir
            } else {
                self.host_id
            },
            players: self.players.remove(player_id),
        }
    }

    /// The event that names `heir` as the new host, by nickname where they
    /// are a member.
    pub open spec fn host_notice(self, heir: PlayerId) -> Event {
        Event::Info {
            message: if self.game_state.players.contains_key(heir) {
                host_text(self.game_state.players[heir].nickname@)
            } else {
                host_text("未知玩家"@)
            },
        }
    }

    /// Law of the host who leaves: in a room of two connected members where
    /// no hand is running, the host loses the connection. The host is
    /// offline, the other member is the host and alone connected, the notice
    /// names them, nothing is played, and the room is not empty.
    pub proof fn lemma_host_leaves(self, other: PlayerId, heir: PlayerId)
        requires
            self.well_formed(),
            other != self.host_id,
            self.players.dom() == set![self.host_id, other],
            !is_betting_phase(self.game_state.phase),
            self.players.remove(self.host_id).contains_key(heir),
        ensures
            self.host_passes_on(self.host_id),
            heir == other,
            self.disconnected(self.host_id, heir).host_id == other,
            self.disconnected(self.host_id, heir).players.dom() == set![other],
            self.disconnected(self.host_id, heir).game_state == self.gone_offline(self.host_id),
            self.disconnected(self.host_id, heir).game_state.players[self.host_id]
                == (Player { state: PlayerState::Offline, ..self.game_state.players[self.host_id] }),
            self.gone_offline(self.host_id).auto_played(MAX_AUTO_STEPS as nat).1
                == Seq::<Event>::empty(),
            self.disconnected(self.host_id, heir).host_notice(heir) == (Event::Info {
                message: host_text(self.game_state.players[other].nickname@),
            }),
    {
        let left = self.players.remove(self.host_id);
        assert(self.players.contains_key(self.host_id));
        assert(self.players.contains_key(other));
        assert(left.contains_key(other));
        assert(left.dom() =~= set![other]);
        assert(self.game_state.players.contains_key(self.host_id));
        assert(self.game_state.players.contains_key(other));
    }

    /// The room and its answer after the connected member `player_id` sent
    /// `msg`, where `deck` is the shuffled deck that the cards of a hand
    /// that starts are drawn from.
    /// A member who is not connected is told to join first; a connected
    /// member cannot create or join a room; nicknames and leaving a seat
    /// are not served.
    pub open spec fn message_handled(self, player_id: PlayerId, msg: ClientMessage, deck: Seq<Card>) -> (
        RoomView,
        OutcomeView,
    ) {
        if !self.players.contains_key(player_id) {
            (self, tell_sender(seq![error_event("请先加入或创建房间"@)]))
        } else {
            match msg {
                ClientMessage::CreateRoom { .. } | ClientMessage::JoinRoom { .. } => (
                    self,
                    tell_sender(seq![error_event("你已经在一个房间里了"@)]),
                ),
                ClientMessage::StartHand => self.hand_requested(player_id, deck),
                ClientMessage::RequestSeat { seat_id, stack } => self.seat_requested(
                    player_id,
                    seat_id,
                    stack,
                ),
                ClientMessage::PerformAction(action) => self.action_performed(player_id, action),
                ClientMessage::GetMyHand => (self, self.hand_asked(player_id)),
                ClientMessage::SetNickname(_) | ClientMessage::LeaveSeat => (
                    self,
                    tell_all(seq![error_event("该功能暂未实现"@)]),
                ),
            }
        }
    }
}

impl GameView {
    /// A new member who is in no hand leaves a hand fit for betting so.
    pub proof fn lemma_member_added(self, id: PlayerId, p: Player)
        requires
            self.betting_ready(),
            !self.players.contains_key(id),
        ensures
            (GameView { players: self.players.insert(id, p), ..self }).betting_ready(),
    {
        let after = GameView { players: self.players.insert(id, p), ..self };
        assert forall|i: int| 0 <= i < self.n() implies after.player_at(i) == #[trigger] self.player_at(
            i,
        ) by {
            assert(self.players.contains_key(self.hand_player_order[i]));
        }
        assert(after.stacks() =~= self.stacks()) by {
            assert forall|i: int| 0 <= i < self.n() implies after.stacks()[i] == self.stacks()[i] by {
                assert(after.player_at(i) == self.player_at(i));
            }
        }
        after.lemma_counters_fit(self);
        assert forall|i: int| 0 <= i < after.n() implies #[trigger] after.bets[i]
            <= after.max_bet by {
            assert(self.bets[i] <= self.max_bet);
        }
        assert forall|i: int| 0 <= i < after.n() implies after.players.contains_key(
            #[trigger] after.hand_player_order[i],
        ) by {
            assert(self.players.contains_key(self.hand_player_order[i]));
        }
    }

    /// A member whose state alone changes leaves a hand fit for betting so.
    pub proof fn lemma_member_state_changed(self, id: PlayerId, state: PlayerState)
        requires
            self.betting_ready(),
            self.players.contains_key(id),
        ensures
            (GameView {
                players: self.players.insert(id, (Player { state, ..self.players[id] })),
                ..self
            }).betting_ready(),
    {
        let after = GameView {
            players: self.players.insert(id, Player { state, ..self.players[id] }),
            ..self
        };
        assert(after.stacks() =~= self.stacks()) by {
            assert forall|i: int| 0 <= i < self.n() implies after.stacks()[i] == self.stacks()[i] by {
                assert(after.player_at(i).stack == self.player_at(i).stack);
            }
        }
        after.lemma_counters_fit(self);
        assert forall|i: int| 0 <= i < after.n() implies #[trigger] after.bets[i]
            <= after.max_bet by {
            assert(self.bets[i] <= self.max_bet);
        }
        assert forall|i: int| 0 <= i < after.n() implies after.players.contains_key(
            #[trigger] after.hand_player_order[i],
        ) by {
            assert(self.players.contains_key(self.hand_player_order[i]));
        }
    }
}

/// The position of `id` is the first at which it occurs.
pub proof fn lemma_position_from(seated: Seq<PlayerId>, id: PlayerId, k: int)
    requires
        0 <= k <= seated.len(),
    ensures
        position_from(seated, id, k) == -1 || (k <= position_from(seated, id, k) < seated.len()
            && seated[position_from(seated, id, k)] == id),
        position_from(seated, id, k) == -1 ==> forall|j: int|
            k <= j < seated.len() ==> seated[j] != id,
    decreases seated.len() - k,
{
    if k < seated.len() && seated[k] != id {
        lemma_position_from(seated, id, k + 1);
    }
}

/// Taking a player out of a seated order without duplicates leaves an order
/// without duplicates in which they do not occur; everyone in it was seated
/// before.
pub proof fn lemma_unseated(seated: Seq<PlayerId>, id: PlayerId)
    requires
        seated.no_duplicates(),
    ensures
        unseated(seated, id).no_duplicates(),
        !unseated(seated, id).contains(id),
        forall|j: int|
            0 <= j < unseated(seated, id).len() ==> seated.contains(#[trigger] unseated(seated, id)[j]),
{
    lemma_position_from(seated, id, 0);
    let k = position_from(seated, id, 0);
    let rest = unseated(seated, id);
    if k >= 0 {
        assert forall|j: int| 0 <= j < rest.len() implies seated.contains(#[trigger] rest[j])
            && rest[j] != id by {
            let from = if j < k {
                j
            } else {
                j + 1
            };
            assert(rest[j] == seated[from]);
        }
        assert forall|a: int, b: int|
            0 <= a < rest.len() && 0 <= b < rest.len() && a != b implies rest[a] != rest[b] by {
            let a2 = if a < k {
                a
            } else {
                a + 1
            };
            let b2 = if b < k {
                b
            } else {
                b + 1
            };
            assert(rest[a] == seated[a2] && rest[b] == seated[b2]);
        }
    } else {
        assert forall|j: int| 0 <= j < rest.len() implies seated.contains(#[trigger] rest[j]) by {
            assert(seated[j] == rest[j]);
        }
    }
}

/// Putting a player who is not seated into a seated order without
/// duplicates leaves it without duplicates.
pub proof fn lemma_insert_keeps_distinct(seated: Seq<PlayerId>, at: int, id: PlayerId)
    requires
        seated.no_duplicates(),
        !seated.contains(id),
        0 <= at <= seated.len(),
    ensures
        seated.insert(at, id).no_duplicates(),
{
    let all = seated.insert(at, id);
    assert forall|a: int, b: int|
        0 <= a < all.len() && 0 <= b < all.len() && a != b implies all[a] != all[b] by {
        if a == at {
            assert(all[b] == seated[if b < at {
                b
            } else {
                b - 1
            }]);
        } else if b == at {
            assert(all[a] == seated[if a < at {
                a
            } else {
                a - 1
            }]);
        } else {
            let a2 = if a < at {
                a
            } else {
                a - 1
            };
            let b2 = if b < at {
                b
            } else {
                b - 1
            };
            assert(all[a] == seated[a2] && all[b] == seated[b2]);
        }
    }
}

/// Moving the button keeps a seated order without duplicates so, with the
/// same players.
pub proof fn lemma_button_moved(seated: Seq<PlayerId>)
    requires
        seated.no_duplicates(),
    ensures
        button_moved(seated).no_duplicates(),
        button_moved(seated).len() == seated.len(),
        forall|j: int|
            0 <= j < seated.len() ==> seated.contains(#[trigger] button_moved(seated)[j]),
{
    let moved = button_moved(seated);
    if seated.len() > 0 {
        assert forall|a: int, b: int|
            0 <= a < moved.len() && 0 <= b < moved.len() && a != b implies moved[a] != moved[b] by {
            let a2 = if a < seated.len() - 1 {
                a + 1
            } else {
                0
            };
            let b2 = if b < seated.len() - 1 {
                b + 1
            } else {
                0
            };
            assert(moved[a] == seated[a2] && moved[b] == seated[b2]);
        }
    }
}

/// The message that reports an error with the given text.
pub fn error_message(text: &str) -> (m: ServerMessage)
    ensures
        m@ == error_event(text@),
{
    ServerMessage::Error { message: String::from_str(text) }
}

/// The outcome that tells the sender one message.
fn only_this(m: ServerMessage) -> (out: Outcome)
    ensures
        out@ == tell_sender(seq![m@]),
{
    let mut only = no_messages();
    emit(&mut only, m);
    let out = Outcome { broadcast: no_messages(), only };
    out
}

/// The outcome that tells everyone one message.
fn all_this(m: ServerMessage) -> (out: Outcome)
    ensures
        out@ == tell_all(seq![m@]),
{
    let mut broadcast = no_messages();
    emit(&mut broadcast, m);
    let out = Outcome { broadcast, only: no_messages() };
    out
}

/// Finds the first position of `id` in the seated order.
fn position_of(seated: &std::collections::VecDeque<PlayerId>, id: PlayerId) -> (found: Option<usize>)
    ensures
        match found {
            Some(k) => k == position_from(seated@, id, 0),
            None => position_from(seated@, id, 0) == -1,
        },
{
    let len = seated.len();
    let mut k: usize = 0;
    while k < len
        invariant
            k <= len,
            len == seated@.len(),
            position_from(seated@, id, k as int) == position_from(seated@, id, 0),
        decreases len - k,
    {
        if seated[k] == id {
            return Some(k);
        }
        k += 1;
    }
    None
}

impl GameState {
    /// Plays for players who are offline, step by step, until no step is
    /// taken, the turn stays where it was, or the limit of steps in a row is
    /// reached. The messages of the steps are added to `msgs`.
    pub fn auto_play(&mut self, msgs: &mut Vec<ServerMessage>)
        requires
            is_betting_phase(old(self)@.phase) ==> old(self)@.betting_ready(),
        ensures
            final(self)@ == old(self)@.auto_played(MAX_AUTO_STEPS as nat).0,
            events(final(msgs)@) == events(old(msgs)@) + old(self)@.auto_played(
                MAX_AUTO_STEPS as nat,
            ).1,
            is_betting_phase(final(self)@.phase) ==> final(self)@.betting_ready(),
            final(self)@.same_hand_as(old(self)@),
    {
        let mut fuel: usize = MAX_AUTO_STEPS;
        let ghost want = old(self)@.auto_played(MAX_AUTO_STEPS as nat);
        while fuel > 0
            invariant_except_break
                self@.auto_played(fuel as nat).0 == want.0,
                events(msgs@) + self@.auto_played(fuel as nat).1 == events(old(msgs)@) + want.1,
            invariant
                is_betting_phase(self@.phase) ==> self@.betting_ready(),
                self@.same_hand_as(old(self)@),
            ensures
                self@ == want.0,
                events(msgs@) == events(old(msgs)@) + want.1,
                is_betting_phase(self@.phase) ==> self@.betting_ready(),
                self@.same_hand_as(old(self)@),
            decreases fuel,
        {
            let ghost before = self@;
            let stalled = self.step(msgs, Ghost(fuel as nat));
            proof {
                crate::laws::lemma_same_people_transitive(
                    old(self)@.players,
                    before.players,
                    self@.players,
                );
            }
            if stalled {
                break;
            }
            fuel -= 1;
        }
    }

    /// Takes one step of play for an offline player and adds its messages
    /// to `msgs`. Tells whether this was the last step: none was taken, or
    /// the same player is still to act.
    fn step(&mut self, msgs: &mut Vec<ServerMessage>, Ghost(fuel): Ghost<nat>) -> (last: bool)
        requires
            fuel > 0,
            is_betting_phase(old(self)@.phase) ==> old(self)@.betting_ready(),
        ensures
            is_betting_phase(final(self)@.phase) ==> final(self)@.betting_ready(),
            final(self)@.same_hand_as(old(self)@),
            last ==> final(self)@ == old(self)@.auto_played(fuel).0 && events(final(msgs)@)
                == events(old(msgs)@) + old(self)@.auto_played(fuel).1,
            !last ==> final(self)@.auto_played((fuel - 1) as nat).0 == old(self)@.auto_played(
                fuel,
            ).0 && events(final(msgs)@) + final(self)@.auto_played((fuel - 1) as nat).1 == events(
                old(msgs)@,
            ) + old(self)@.auto_played(fuel).1,
    {
        proof {
            old(self)@.lemma_auto_played_step(fuel);
        }
        let phase = self.phase;
        let turn = self.cur_player_idx;
        let (did, more) = self.tick();
        if !did {
            assert(events(msgs@) + Seq::<Event>::empty() =~= events(msgs@));
            return true;
        }
        let ghost rest = self@.auto_played((fuel - 1) as nat).1;
        assert((events(msgs@) + events(more@)) + rest =~= events(msgs@) + (events(more@) + rest));
        emit_all(msgs, more);
        self.phase == phase && self.cur_player_idx == turn
    }
}

impl Room {
    /// Seats the member `player_id` at `seat_id` with `stack` chips, or
    /// refuses.
    pub fn request_seat(&mut self, player_id: PlayerId, seat_id: u8, stack: u32) -> (out: Outcome)
        requires
            old(self)@.well_formed(),
            old(self)@.game_state.players.contains_key(player_id),
        ensures
            final(self)@ == old(self)@.seat_requested(player_id, seat_id, stack).0,
            out@ == old(self)@.seat_requested(player_id, seat_id, stack).1,
            final(self)@.well_formed(),
    {
        match self.game_state.phase {
            GamePhase::WaitingForPlayers | GamePhase::Showdown => {},
            _ => {
                return only_this(error_message("入座失败：请在等待阶段入座"));
            },
        }
        if seat_id >= self.game_state.seats {
            return only_this(error_message("入座失败：座位号超出最大座位数"));
        }
        if seat_taken(&self.game_state.players, seat_id, player_id) {
            return only_this(error_message("入座失败：该位置已有玩家入座"));
        }
        let ghost g = old(self)@.game_state;
        proof {
            lemma_unseated(g.seated_players, player_id);
            lemma_position_from(g.seated_players, player_id, 0);
        }
        match position_of(&self.game_state.seated_players, player_id) {
            Some(k) => {
                self.game_state.seated_players.remove(k);
            },
            None => {},
        }
        match take_player(&mut self.game_state.players, player_id) {
            Some(p) => {
                let q = Player { stack, seat_id: Some(seat_id), state: PlayerState::Waiting, ..p };
                let told = q.clone();
                replace_player(&mut self.game_state.players, player_id, q);
                proof {
                    assert(self@.game_state.players =~= g.players.insert(player_id, q));
                    let cleared = self@.game_state;
                    assert forall|k: int|
                        0 <= k < cleared.seated_players.len() implies cleared.players.contains_key(
                        #[trigger] cleared.seated_players[k]) && cleared.players[cleared.seated_players[k]].seat_id.is_some() by {
                        let id = cleared.seated_players[k];
                        let j = choose|j: int|
                            0 <= j < g.seated_players.len() && g.seated_players[j] == id;
                        assert(g.players.contains_key(g.seated_players[j]));
                    }
                    cleared.lemma_insertion_index(seat_id, 0);
                }
                let index = self.game_state.find_insertion_index(seat_id);
                let ghost cleared = self@.game_state;
                self.game_state.seated_players.insert(index, player_id);
                proof {
                    lemma_insert_keeps_distinct(cleared.seated_players, index as int, player_id);
                }
                all_this(ServerMessage::PlayerUpdated { player: told })
            },
            None => Outcome { broadcast: no_messages(), only: no_messages() },
        }
    }

    /// Hands an action of the member `player_id` to the engine, and plays
    /// on for players who are offline.
    pub fn perform_action(&mut self, player_id: PlayerId, action: PlayerAction) -> (out: Outcome)
        requires
            old(self)@.well_formed(),
        ensures
            final(self)@ == old(self)@.action_performed(player_id, action).0,
            out@ == old(self)@.action_performed(player_id, action).1,
            final(self)@.well_formed(),
    {
        match self.game_state.phase {
            GamePhase::WaitingForPlayers | GamePhase::Showdown => {
                let m = ServerMessage::Error { message: RuleViolation::NotYourTurn.message() };
                return all_this(m);
            },
            _ => {},
        }
        let ghost g = old(self)@.game_state;
        let mut msgs = self.game_state.handle_player_action(player_id, action);
        let ghost acted = self@.game_state;
        self.game_state.auto_play(&mut msgs);
        proof {
            let done = self@.game_state;
            crate::laws::lemma_same_people_transitive(g.players, acted.players, done.players);
        }
        Outcome { broadcast: msgs, only: no_messages() }
    }

    /// Answers a member who asks for their hole cards.
    pub fn get_my_hand(&self, player_id: PlayerId) -> (out: Outcome)
        ensures
            out@ == self@.hand_asked(player_id),
    {
        let mut only = no_messages();
        if self.game_state.phase == GamePhase::PreFlop {
            match find_index(&self.game_state.player_indices, player_id) {
                Some(i) => {
                    if i < self.game_state.player_cards.len() {
                        match self.game_state.player_cards[i] {
                            (Some(c1), Some(c2)) => {
                                emit(&mut only, ServerMessage::PlayerHand { hands: (c1, c2) });
                            },
                            _ => {},
                        }
                    }
                },
                None => {},
            }
        }
        Outcome { broadcast: no_messages(), only }
    }

    /// Starts a hand at the request of the member `player_id`, or refuses.
    pub fn start_hand(&mut self, player_id: PlayerId) -> (out: Outcome)
        requires
            old(self)@.well_formed(),
        ensures
            exists|deck: Seq<Card>|
                {
                    &&& crate::deck::is_full_deck(deck)
                    &&& final(self)@ == #[trigger] old(self)@.hand_requested(player_id, deck).0
                    &&& out@ == old(self)@.hand_requested(player_id, deck).1
                },
            final(self)@.well_formed(),
    {
        let ghost g = old(self)@.game_state;
        if player_id != self.host_id {
            let out = all_this(error_message("只有房主可以开始游戏"));
            proof {
                let deck = crate::deck::fresh_deck();
                assert(self@ == old(self)@.hand_requested(player_id, deck).0);
            }
            return out;
        }
        match self.game_state.phase {
            GamePhase::WaitingForPlayers | GamePhase::Showdown => {},
            _ => {
                let out = all_this(
                    ServerMessage::Error { message: StartRefusal::HandRunning.message() },
                );
                proof {
                    let deck = crate::deck::fresh_deck();
                    assert(self@ == old(self)@.hand_requested(player_id, deck).0);
                }
                return out;
            },
        }
        proof {
            lemma_button_moved(g.seated_players);
        }
        let seated = copy_deque(&self.game_state.seated_players);
        match self.game_state.seated_players.pop_front() {
            Some(first) => {
                self.game_state.seated_players.push_back(first);
            },
            None => {},
        }
        let ghost moved = self@.game_state;
        proof {
            assert forall|k: int|
                0 <= k < moved.seated_players.len() implies moved.players.contains_key(
                #[trigger] moved.seated_players[k]) && moved.players[moved.seated_players[k]].seat_id.is_some() by {
            }
        }
        match self.game_state.check_start() {
            Some(refusal) => {
                self.game_state.seated_players = seated;
                let out = all_this(ServerMessage::Error { message: refusal.message() });
                proof {
                    let deck = crate::deck::fresh_deck();
                    assert(self@.game_state == g);
                    assert(self@ == old(self)@.hand_requested(player_id, deck).0);
                }
                out
            },
            None => {
                let msgs = self.game_state.start_new_hand();
                let out = Outcome { broadcast: msgs, only: no_messages() };
                proof {
                    let started = self@.game_state;
                    let deck = choose|deck: Seq<Card>|
                        {
                            &&& crate::deck::is_full_deck(deck)
                            &&& started == #[trigger] moved.started_from(deck).0
                            &&& events(msgs@) == moved.started_from(deck).1
                        };
                    assert(self@ == old(self)@.hand_requested(player_id, deck).0);
                }
                out
            },
        }
    }
}

/// What the room tells when a player has come in: the welcome for them,
/// and the announcement for the others.
#[derive(Debug)]
pub struct Arrival {
    pub welcome: ServerMessage,
    pub announcement: ServerMessage,
}

/// What the room tells when a player has lost their connection, and
/// whether the room is to be deleted.
#[derive(Debug)]
pub struct Departure {
    /// The player's record, offline, for everyone still connected.
    pub update: Option<ServerMessage>,
    /// The notice of a new host, for everyone still connected.
    pub host_transfer: Option<ServerMessage>,
    /// What happened in the hand because the room played on for players
    /// who are offline, for everyone still connected.
    pub played: Vec<ServerMessage>,
    /// Nobody is connected any more.
    pub delete_room: bool,
}

/// Picks a connected player, if there is one.
fn any_connected(players: &HashMap<PlayerId, PlayerSecret>) -> (found: Option<PlayerId>)
    ensures
        match found {
            Some(id) => players@.contains_key(id),
            None => players@.dom().is_empty(),
        },
{
    broadcast use vstd::std_specs::hash::group_hash_axioms;

    let mut found: Option<PlayerId> = None;
    for k in it: players.keys()
        invariant
            it.seq().unref().to_set() == players@.dom(),
            match found {
                Some(id) => players@.contains_key(id),
                None => it.index() == 0,
            },
            it.index() == it.seq().len() && found.is_none() ==> players@.dom().is_empty(),
    {
        if found.is_none() {
            found = Some(*k);
        }
    }
    found
}

impl Room {
    /// Creates a room under `room_id` for the player `player_id`, who
    /// becomes its host, and welcomes them.
    pub fn create_with_ids(
        nickname: String,
        room_id: u128,
        player_id: PlayerId,
        player_secret: PlayerSecret,
    ) -> (made: (Room, ServerMessage))
        ensures
            made.0@ == RoomView::created(room_id, player_id, player_secret, nickname),
            made.1@ == made.0@.welcome(player_id, player_secret),
            made.0@.well_formed(),
    {
        broadcast use vstd::std_specs::hash::group_hash_axioms;

        let mut game_state = GameState::default();
        game_state.room_id = room_id;
        let player = Player {
            id: player_id,
            nickname,
            stack: 0,
            wins: 0,
            losses: 0,
            state: PlayerState::SittingOut,
            seat_id: None,
        };
        replace_player(&mut game_state.players, player_id, player);
        let seen = game_state.for_client(&player_id);
        let mut players: HashMap<PlayerId, PlayerSecret> = HashMap::new();
        players.insert(player_id, player_secret);
        let room = Room { game_state, host_id: player_id, players };
        let welcome = ServerMessage::RoomJoined {
            your_id: player_id,
            your_secret: player_secret,
            game_state: seen,
            host_id: player_id,
        };
        (room, welcome)
    }

    /// Creates a room for a player under fresh random ids.
    pub fn create(nickname: String) -> (made: (Room, ServerMessage))
        ensures
            made.0@.players.contains_key(made.0@.host_id),
            made.0@ == RoomView::created(
                made.0@.game_state.room_id,
                made.0@.host_id,
                made.0@.players[made.0@.host_id],
                nickname,
            ),
            made.1@ == made.0@.welcome(made.0@.host_id, made.0@.players[made.0@.host_id]),
            made.0@.well_formed(),
    {
        let room_id = crate::ids::fresh_id();
        let player_id = crate::ids::fresh_id();
        let player_secret = crate::ids::fresh_id();
        Room::create_with_ids(nickname, room_id, player_id, player_secret)
    }

    /// Lets the player `player_id` into the room, welcomes them and
    /// announces them to the others.
    pub fn join_with_ids(&mut self, nickname: String, player_id: PlayerId, player_secret: PlayerSecret) -> (told:
        Arrival)
        requires
            old(self)@.well_formed(),
            !old(self)@.game_state.players.contains_key(player_id),
        ensures
            final(self)@ == old(self)@.joined(player_id, player_secret, nickname),
            told.welcome@ == final(self)@.welcome(player_id, player_secret),
            told.announcement@ == (Event::PlayerJoined { player: newcomer(player_id, nickname) }),
            final(self)@.well_formed(),
    {
        broadcast use vstd::std_specs::hash::group_hash_axioms;

        let ghost g = old(self)@.game_state;
        let player = Player {
            id: player_id,
            nickname,
            stack: 0,
            wins: 0,
            losses: 0,
            state: PlayerState::SittingOut,
            seat_id: None,
        };
        let announced = player.clone();
        replace_player(&mut self.game_state.players, player_id, player);
        self.players.insert(player_id, player_secret);
        proof {
            if is_betting_phase(g.phase) {
                g.lemma_member_added(player_id, player);
            }
        }
        let seen = self.game_state.for_client(&player_id);
        Arrival {
            welcome: ServerMessage::RoomJoined {
                your_id: player_id,
                your_secret: player_secret,
                game_state: seen,
                host_id: self.host_id,
            },
            announcement: ServerMessage::PlayerJoined { player: announced },
        }
    }

    /// Lets a player into the room under a fresh random id and secret.
    /// Should the id be taken already, nothing changes and the player is
    /// asked to try again.
    pub fn join(&mut self, nickname: String) -> (told: Result<Arrival, ServerMessage>)
        requires
            old(self)@.well_formed(),
        ensures
            final(self)@.well_formed(),
            match told {
                Ok(arrival) => exists|player_id: PlayerId, secret: PlayerSecret|
                    {
                        &&& !old(self)@.game_state.players.contains_key(player_id)
                        &&& final(self)@ == #[trigger] old(self)@.joined(player_id, secret, nickname)
                        &&& arrival.welcome@ == final(self)@.welcome(player_id, secret)
                        &&& arrival.announcement@ == (Event::PlayerJoined {
                            player: newcomer(player_id, nickname),
                        })
                    },
                Err(refused) => final(self)@ == old(self)@ && refused@ == error_event(
                    "加入失败，请重试"@,
                ),
            },
    {
        let player_id = crate::ids::fresh_id();
        let player_secret = crate::ids::fresh_id();
        self.join_as(nickname, player_id, player_secret)
    }

    /// Lets a player into the room under the id and secret drawn for them.
    /// Where the id belongs to a member already, nothing changes and the
    /// player is asked to try again; else they are let in, welcomed and
    /// announced to the others.
    pub fn join_as(&mut self, nickname: String, player_id: PlayerId, player_secret: PlayerSecret) -> (told:
        Result<Arrival, ServerMessage>)
        requires
            old(self)@.well_formed(),
        ensures
            final(self)@.well_formed(),
            match told {
                Ok(arrival) => {
                    &&& !old(self)@.game_state.players.contains_key(player_id)
                    &&& final(self)@ == old(self)@.joined(player_id, player_secret, nickname)
                    &&& arrival.welcome@ == final(self)@.welcome(player_id, player_secret)
                    &&& arrival.announcement@ == (Event::PlayerJoined {
                        player: newcomer(player_id, nickname),
                    })
                },
                Err(refused) => {
                    &&& old(self)@.game_state.players.contains_key(player_id)
                    &&& final(self)@ == old(self)@
                    &&& refused@ == error_event("加入失败，请重试"@)
                },
            },
    {
        if find_player(&self.game_state.players, player_id).is_some() {
            return Err(error_message("加入失败，请重试"));
        }
        let arrival = self.join_with_ids(nickname, player_id, player_secret);
        Ok(arrival)
    }

    /// Handles the loss of the connection of `player_id`: they are offline,
    /// the host passes on if they were the host and somebody is left, and
    /// the room is to be deleted if nobody is.
    pub fn disconnect(&mut self, player_id: PlayerId) -> (told: Departure)
        requires
            old(self)@.well_formed(),
        ensures
            final(self)@ == old(self)@.disconnected(player_id, final(self)@.host_id),
            old(self)@.host_passes_on(player_id) ==> final(self)@.players.contains_key(
                final(self)@.host_id,
            ),
            match told.update {
                Some(m) => old(self)@.game_state.players.contains_key(player_id) && m@
                    == (Event::PlayerUpdated {
                    player: old(self)@.gone_offline(player_id).players[player_id],
                }),
                None => !old(self)@.game_state.players.contains_key(player_id),
            },
            events(told.played@) == old(self)@.gone_offline(player_id).auto_played(
                MAX_AUTO_STEPS as nat,
            ).1,
            match told.host_transfer {
                Some(m) => old(self)@.host_passes_on(player_id) && m@ == final(self)@.host_notice(
                    final(self)@.host_id,
                ),
                None => !old(self)@.host_passes_on(player_id),
            },
            told.delete_room == final(self)@.players.dom().is_empty(),
            final(self)@.well_formed(),
    {
        broadcast use vstd::std_specs::hash::group_hash_axioms;

        let ghost g = old(self)@.game_state;
        self.players.remove(&player_id);
        let mut update: Option<ServerMessage> = None;
        match take_player(&mut self.game_state.players, player_id) {
            Some(p) => {
                let q = Player { state: PlayerState::Offline, ..p };
                update = Some(ServerMessage::PlayerUpdated { player: q.clone() });
                replace_player(&mut self.game_state.players, player_id, q);
                proof {
                    assert(self@.game_state.players =~= g.players.insert(player_id, q));
                    if is_betting_phase(g.phase) {
                        g.lemma_member_state_changed(player_id, PlayerState::Offline);
                    }
                }
            },
            None => {},
        }
        let mut played = no_messages();
        self.game_state.auto_play(&mut played);
        let mut host_transfer: Option<ServerMessage> = None;
        if player_id == self.host_id {
            match any_connected(&self.players) {
                Some(heir) => {
                    self.host_id = heir;
                    let mut message = String::from_str("房主已断开，新房主是 ");
                    match find_player(&self.game_state.players, heir) {
                        Some(p) => {
                            message.append(p.nickname.as_str());
                        },
                        None => {
                            message.append("未知玩家");
                        },
                    }
                    host_transfer = Some(ServerMessage::Info { message });
                },
                None => {},
            }
        }
        let delete_room = self.players.is_empty();
        Departure { update, host_transfer, played, delete_room }
    }

    /// Handles a message of the member `player_id`.
    pub fn handle_client_message(&mut self, player_id: PlayerId, msg: ClientMessage) -> (out: Outcome)
        requires
            old(self)@.well_formed(),
        ensures
            exists|deck: Seq<Card>|
                {
                    &&& crate::deck::is_full_deck(deck)
                    &&& final(self)@ == #[trigger] old(self)@.message_handled(player_id, msg, deck).0
                    &&& out@ == old(self)@.message_handled(player_id, msg, deck).1
                },
            final(self)@.well_formed(),
    {
        broadcast use vstd::std_specs::hash::group_hash_axioms;

        let ghost none = crate::deck::fresh_deck();
        if !self.players.contains_key(&player_id) {
            let out = only_this(error_message("请先加入或创建房间"));
            proof {
                assert(self@ == old(self)@.message_handled(player_id, msg, none).0);
            }
            return out;
        }
        match msg {
            ClientMessage::CreateRoom { .. } | ClientMessage::JoinRoom { .. } => {
                let out = only_this(error_message("你已经在一个房间里了"));
                proof {
                    assert(self@ == old(self)@.message_handled(player_id, msg, none).0);
                }
                out
            },
            ClientMessage::StartHand => {
                let out = self.start_hand(player_id);
                proof {
                    let deck = choose|deck: Seq<Card>|
                        {
                            &&& crate::deck::is_full_deck(deck)
                            &&& self@ == #[trigger] old(self)@.hand_requested(player_id, deck).0
                            &&& out@ == old(self)@.hand_requested(player_id, deck).1
                        };
                    assert(self@ == old(self)@.message_handled(player_id, msg, deck).0);
                }
                out
            },
            ClientMessage::RequestSeat { seat_id, stack } => {
                assert(old(self)@.players.contains_key(player_id));
                let out = self.request_seat(player_id, seat_id, stack);
                proof {
                    assert(self@ == old(self)@.message_handled(player_id, msg, none).0);
                }
                out
            },
            ClientMessage::PerformAction(action) => {
                let out = self.perform_action(player_id, action);
                proof {
                    assert(self@ == old(self)@.message_handled(player_id, msg, none).0);
                }
                out
            },
            ClientMessage::GetMyHand => {
                let out = self.get_my_hand(player_id);
                proof {
                    assert(self@ == old(self)@.message_handled(player_id, msg, none).0);
                }
                out
            },
            ClientMessage::SetNickname(_) | ClientMessage::LeaveSeat => {
                let out = all_this(error_message("该功能暂未实现"));
                proof {
                    assert(self@ == old(self)@.message_handled(player_id, msg, none).0);
                }
                out
            },
        }
    }
}

} // verus!
