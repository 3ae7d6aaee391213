//! The messages between clients and the server, and their model.

use crate::card::{Card, HandRank};
use crate::state::{
    copy_vec, GamePhase, GameState, GameView, Player, PlayerAction, PlayerId, RoomId,
};
use vstd::prelude::*;

verus! {

/// The secret a player gets when joining a room: a 128-bit number.
pub type PlayerSecret = u128;

/// What a client asks of the server.
#[derive(Debug)]
pub enum ClientMessage {
    CreateRoom { nickname: String },
    JoinRoom { room_id: RoomId, nickname: String },
    SetNickname(String),
    RequestSeat { seat_id: u8, stack: u32 },
    LeaveSeat,
    StartHand,
    PerformAction(PlayerAction),
    GetMyHand,
}

/// An action open to the player whose turn it is.
#[derive(Debug, Clone, Copy, PartialEq, Eq, Structural)]
pub enum PlayerActionType {
    Fold,
    Check,
    /// The chips owed to stay in.
    Call(u32),
    /// The smallest bet.
    Bet(u32),
    /// The smallest raise.
    Raise(u32),
}

/// The outcome of a showdown for one player.
#[derive(Debug, Clone, Copy, PartialEq, Eq)]
pub struct ShowdownResult {
    pub player_id: PlayerId,
    /// The player's best hand, where cards were shown.
    pub hand_rank: Option<HandRank>,
    /// The player's hole cards, where they were shown.
    pub cards: Option<(Card, Card)>,
    pub winnings: u32,
}

/// What the server tells clients.
#[derive(Debug)]
pub enum ServerMessage {
    /// To the player who created or joined a room.
    RoomJoined { your_id: PlayerId, your_secret: PlayerSecret, game_state: GameState, host_id: PlayerId },
    /// The whole state, as its recipient may see it.
    GameStateSnapshot(GameState),
    PlayerJoined { player: Player },
    PlayerLeft { player_id: PlayerId },
    PlayerUpdated { player: Player },
    HandStarted { hand_player_order: Vec<PlayerId>, dealer_id: PlayerId },
    PlayerActed {
        player_id: PlayerId,
        action: PlayerAction,
        /// What the player has committed after the action.
        total_bet_this_round: u32,
        new_stack: u32,
        new_pot: u32,
    },
    NextToAct { player_id: PlayerId, valid_actions: Vec<PlayerActionType> },
    CommunityCardsDealt { phase: GamePhase, cards: Vec<Card> },
    BetReturned { player_id: PlayerId, amount: u32, new_stack: u32 },
    Showdown { results: Vec<ShowdownResult> },
    /// To one player: their own hole cards.
    PlayerHand { hands: (Card, Card) },
    Info { message: String },
    Error { message: String },
}

/// The model of a `ServerMessage`.
pub enum Event {
    RoomJoined { your_id: PlayerId, your_secret: PlayerSecret, game_state: GameView, host_id: PlayerId },
    GameStateSnapshot(GameView),
    PlayerJoined { player: Player },
    PlayerLeft { player_id: PlayerId },
    PlayerUpdated { player: Player },
    HandStarted { hand_player_order: Seq<PlayerId>, dealer_id: PlayerId },
    PlayerActed {
        player_id: PlayerId,
        action: PlayerAction,
        total_bet_this_round: u32,
        new_stack: u32,
        new_pot: u32,
    },
    NextToAct { player_id: PlayerId, valid_actions: Seq<PlayerActionType> },
    CommunityCardsDealt { phase: GamePhase, cards: Seq<Card> },
    BetReturned { player_id: PlayerId, amount: u32, new_stack: u32 },
    Showdown { results: Seq<ShowdownResult> },
    PlayerHand { hands: (Card, Card) },
    Info { message: Seq<char> },
    Error { message: Seq<char> },
}

impl View for ServerMessage {
    type V = Event;

    open spec fn view(&self) -> Event {
        match *self {
            ServerMessage::RoomJoined { your_id, your_secret, game_state, host_id } => {
                Event::RoomJoined { your_id, your_secret, game_state: game_state@, host_id }
            },
            ServerMessage::GameStateSnapshot(game_state) => Event::GameStateSnapshot(game_state@),
            ServerMessage::PlayerJoined { player } => Event::PlayerJoined { player },
            ServerMessage::PlayerLeft { player_id } => Event::PlayerLeft { player_id },
            ServerMessage::PlayerUpdated { player } => Event::PlayerUpdated { player },
            ServerMessage::HandStarted { hand_player_order, dealer_id } => Event::HandStarted {
                hand_player_order: hand_player_order@,
                dealer_id,
            },
            ServerMessage::PlayerActed {
                player_id,
                action,
                total_bet_this_round,
                new_stack,
                new_pot,
            } => Event::PlayerActed { player_id, action, total_bet_this_round, new_stack, new_pot },
            ServerMessage::NextToAct { player_id, valid_actions } => Event::NextToAct {
                player_id,
                valid_actions: valid_actions@,
            },
            ServerMessage::CommunityCardsDealt { phase, cards } => Event::CommunityCardsDealt {
                phase,
                cards: cards@,
            },
            ServerMessage::BetReturned { player_id, amount, new_stack } => Event::BetReturned {
                player_id,
                amount,
                new_stack,
            },
            ServerMessage::Showdown { results } => Event::Showdown { results: results@ },
            ServerMessage::PlayerHand { hands } => Event::PlayerHand { hands },
            ServerMessage::Info { message } => Event::Info { message: message@ },
            ServerMessage::Error { message } => Event::Error { message: message@ },
        }
    }
}

impl Clone for ClientMessage {
    fn clone(&self) -> (m: ClientMessage)
        ensures
            m == *self,
    {
        match self {
            ClientMessage::CreateRoom { nickname } => ClientMessage::CreateRoom {
                nickname: nickname.clone(),
            },
            ClientMessage::JoinRoom { room_id, nickname } => ClientMessage::JoinRoom {
                room_id: *room_id,
                nickname: nickname.clone(),
            },
            ClientMessage::SetNickname(nickname) => ClientMessage::SetNickname(nickname.clone()),
            ClientMessage::RequestSeat { seat_id, stack } => ClientMessage::RequestSeat {
                seat_id: *seat_id,
                stack: *stack,
            },
            ClientMessage::LeaveSeat => ClientMessage::LeaveSeat,
            ClientMessage::StartHand => ClientMessage::StartHand,
            ClientMessage::PerformAction(action) => ClientMessage::PerformAction(*action),
            ClientMessage::GetMyHand => ClientMessage::GetMyHand,
        }
    }
}

impl Clone for ServerMessage {
    fn clone(&self) -> (m: ServerMessage)
        ensures
            m@ == self@,
    {
        match self {
            ServerMessage::RoomJoined { your_id, your_secret, game_state, host_id } => {
                ServerMessage::RoomJoined {
                    your_id: *your_id,
                    your_secret: *your_secret,
                    game_state: game_state.clone(),
                    host_id: *host_id,
                }
            },
            ServerMessage::GameStateSnapshot(game_state) => ServerMessage::GameStateSnapshot(
                game_state.clone(),
            ),
            ServerMessage::PlayerJoined { player } => ServerMessage::PlayerJoined {
                player: player.clone(),
            },
            ServerMessage::PlayerLeft { player_id } => ServerMessage::PlayerLeft {
                player_id: *player_id,
            },
            ServerMessage::PlayerUpdated { player } => ServerMessage::PlayerUpdated {
                player: player.clone(),
            },
            ServerMessage::HandStarted { hand_player_order, dealer_id } => {
                ServerMessage::HandStarted {
                    hand_player_order: copy_vec(hand_player_order),
                    dealer_id: *dealer_id,
                }
            },
            ServerMessage::PlayerActed {
                player_id,
                action,
                total_bet_this_round,
                new_stack,
                new_pot,
            } => ServerMessage::PlayerActed {
                player_id: *player_id,
                action: *action,
                total_bet_this_round: *total_bet_this_round,
                new_stack: *new_stack,
                new_pot: *new_pot,
            },
            ServerMessage::NextToAct { player_id, valid_actions } => ServerMessage::NextToAct {
                player_id: *player_id,
                valid_actions: copy_vec(valid_actions),
            },
            ServerMessage::CommunityCardsDealt { phase, cards } => {
                ServerMessage::CommunityCardsDealt { phase: *phase, cards: copy_vec(cards) }
            },
            ServerMessage::BetReturned { player_id, amount, new_stack } => {
                ServerMessage::BetReturned {
                    player_id: *player_id,
                    amount: *amount,
                    new_stack: *new_stack,
                }
            },
            ServerMessage::Showdown { results } => ServerMessage::Showdown {
                results: copy_vec(results),
            },
            ServerMessage::PlayerHand { hands } => ServerMessage::PlayerHand { hands: *hands },
            ServerMessage::Info { message } => ServerMessage::Info { message: message.clone() },
            ServerMessage::Error { message } => ServerMessage::Error { message: message.clone() },
        }
    }
}

/// The events that a list of messages stands for.
pub open spec fn events(msgs: Seq<ServerMessage>) -> Seq<Event> {
    msgs.map_values(|m: ServerMessage| m@)
}

/// Adds a message at the end of a list.
pub fn emit(msgs: &mut Vec<ServerMessage>, m: ServerMessage)
    ensures
        events(final(msgs)@) == events(old(msgs)@).push(m@),
{
    msgs.push(m);
}

/// Adds a list of messages at the end of another.
pub fn emit_all(msgs: &mut Vec<ServerMessage>, more: Vec<ServerMessage>)
    ensures
        events(final(msgs)@) == events(old(msgs)@) + events(more@),
{
    let mut more = more;
    msgs.append(&mut more);
}

/// A list without messages.
pub fn no_messages() -> (msgs: Vec<ServerMessage>)
    ensures
        events(msgs@) == Seq::<Event>::empty(),
{
    let msgs: Vec<ServerMessage> = Vec::new();
    msgs
}

impl From<PlayerAction> for ClientMessage {
    fn from(action: PlayerAction) -> (msg: ClientMessage) {
        ClientMessage::PerformAction(action)
    }
}

impl vstd::std_specs::convert::FromSpecImpl<PlayerAction> for ClientMessage {
    open spec fn obeys_from_spec() -> bool {
        true
    }

    open spec fn from_spec(action: PlayerAction) -> ClientMessage {
        ClientMessage::PerformAction(action)
    }
}

} // verus!
