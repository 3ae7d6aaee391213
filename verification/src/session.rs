//! One connection: where its messages go, who gets to see an answer, and
//! what a recipient may see of it.

use crate::message::{ClientMessage, Event, ServerMessage};
use crate::room::{error_event, error_message};
use crate::state::{PlayerId, RoomId};
use vstd::prelude::*;

verus! {

/// What a connection is bound to once it has created or joined a room.
pub type Binding = (RoomId, PlayerId);

/// Where a message of a connection goes.
#[derive(Debug)]
pub enum Route {
    /// Nowhere: the sender is told why.
    Refuse(ServerMessage),
    /// To the making of a new room.
    Create { nickname: String },
    /// To the room to be joined.
    Join { room_id: RoomId, nickname: String },
    /// To the room the connection is bound to.
    Forward { room_id: RoomId, player_id: PlayerId, msg: ClientMessage },
}

/// Who gets a message that a room hands out for everyone.
#[derive(Debug, Clone, Copy, PartialEq, Eq, Structural)]
pub enum Audience {
    /// The sender of the request alone.
    Sender,
    /// Everyone connected to the room.
    Everyone,
}

/// Where a message goes, given what its connection is bound to: a bound
/// connection can neither create nor join a room, and an unbound one can do
/// nothing else.
pub open spec fn routed(context: Option<Binding>, msg: ClientMessage, route: Route) -> bool {
    match (context, msg) {
        (Some(_), ClientMessage::CreateRoom { .. }) | (Some(_), ClientMessage::JoinRoom { .. }) => {
            route matches Route::Refuse(m) && m@ == error_event("你已经在一个房间里了"@)
        },
        (None, ClientMessage::CreateRoom { nickname }) => route == (Route::Create { nickname }),
        (None, ClientMessage::JoinRoom { room_id, nickname }) => route == (Route::Join {
            room_id,
            nickname,
        }),
        (Some((room_id, player_id)), _) => route == (Route::Forward { room_id, player_id, msg }),
        (None, _) => route matches Route::Refuse(m) && m@ == error_event("请先加入或创建房间"@),
    }
}

/// Decides where a message of a connection goes.
pub fn route(context: Option<Binding>, msg: ClientMessage) -> (route: Route)
    ensures
        routed(context, msg, route),
{
    match context {
        Some((room_id, player_id)) => match msg {
            ClientMessage::CreateRoom { .. } | ClientMessage::JoinRoom { .. } => Route::Refuse(
                error_message("你已经在一个房间里了"),
            ),
            other => Route::Forward { room_id, player_id, msg: other },
        },
        None => match msg {
            ClientMessage::CreateRoom { nickname } => Route::Create { nickname },
            ClientMessage::JoinRoom { room_id, nickname } => Route::Join { room_id, nickname },
            _ => Route::Refuse(error_message("请先加入或创建房间")),
        },
    }
}

/// The answer to a message for a room that does not exist.
pub fn room_not_found() -> (m: ServerMessage)
    ensures
        m@ == error_event("房间不存在"@),
{
    error_message("房间不存在")
}

/// Who gets an event that a room hands out for everyone: an error is for
/// the sender alone.
pub open spec fn audience_of(e: Event) -> Audience {
    if e is Error {
        Audience::Sender
    } else {
        Audience::Everyone
    }
}

/// Decides who gets a message that a room hands out for everyone.
pub fn audience(m: &ServerMessage) -> (who: Audience)
    ensures
        who == audience_of(m@),
{
    match m {
        ServerMessage::Error { .. } => Audience::Sender,
        _ => Audience::Everyone,
    }
}

/// An event as `recipient` may see it: a state in it is seen through their
/// eyes.
pub open spec fn seen_by(e: Event, recipient: PlayerId) -> Event {
    match e {
        Event::RoomJoined { your_id, your_secret, game_state, host_id } => Event::RoomJoined {
            your_id,
            your_secret,
            game_state: game_state.for_client(recipient),
            host_id,
        },
        Event::GameStateSnapshot(game_state) => Event::GameStateSnapshot(
            game_state.for_client(recipient),
        ),
        _ => e,
    }
}

/// Law of the view: an event seen through a recipient's eyes twice is what
/// it is seen through them once.
pub proof fn lemma_seen_by_idempotent(e: Event, recipient: PlayerId)
    ensures
        seen_by(seen_by(e, recipient), recipient) == seen_by(e, recipient),
{
    match e {
        Event::RoomJoined { game_state, .. } => {
            game_state.lemma_for_client_idempotent(recipient);
        },
        Event::GameStateSnapshot(game_state) => {
            game_state.lemma_for_client_idempotent(recipient);
        },
        _ => {},
    }
}

/// Prepares a message for `recipient`: a state in it is cut down to what
/// they may see.
pub fn for_recipient(m: &ServerMessage, recipient: PlayerId) -> (seen: ServerMessage)
    ensures
        seen@ == seen_by(m@, recipient),
{
    match m {
        ServerMessage::RoomJoined { your_id, your_secret, game_state, host_id } => {
            ServerMessage::RoomJoined {
                your_id: *your_id,
                your_secret: *your_secret,
                game_state: game_state.for_client(&recipient),
                host_id: *host_id,
            }
        },
        ServerMessage::GameStateSnapshot(game_state) => ServerMessage::GameStateSnapshot(
            game_state.for_client(&recipient),
        ),
        _ => m.clone(),
    }
}

} // verus!
