use poker_eden_core::{
    audience, for_recipient, room_not_found, route, seat_taken, Audience, ClientMessage,
    GamePhase, PlayerAction, PlayerState, Room, Route, ServerMessage,
};

fn text_of(m: &ServerMessage) -> String {
    match m {
        ServerMessage::Error { message } | ServerMessage::Info { message } => message.clone(),
        other => panic!("expected a text message, got {:?}", other),
    }
}

fn seated_room() -> (Room, Vec<u128>) {
    let (mut room, _) = Room::create_with_ids("host".to_string(), 1, 10, 100);
    assert!(room.is_well_formed());
    room.join_with_ids("bob".to_string(), 11, 101);
    room.join_with_ids("cat".to_string(), 12, 102);
    for (id, seat) in [(10u128, 3u8), (11, 5), (12, 1)] {
        let out = room.handle_client_message(id, ClientMessage::RequestSeat { seat_id: seat, stack: 1000 });
        assert_eq!(out.broadcast.len(), 1);
        assert!(matches!(&out.broadcast[0], ServerMessage::PlayerUpdated { player } if player.id == id && player.seat_id == Some(seat)));
    }
    (room, vec![10, 11, 12])
}

#[test]
fn creating_a_room_makes_the_creator_host() {
    let (room, welcome) = Room::create("ann".to_string());
    assert_eq!(room.players.len(), 1);
    let host = room.host_id;
    assert!(room.players.contains_key(&host));
    assert_eq!(room.game_state.players[&host].nickname, "ann");
    assert_eq!(room.game_state.players[&host].state, PlayerState::SittingOut);
    assert_eq!(room.game_state.small_blind, 100);
    assert_eq!(room.game_state.big_blind, 200);
    assert_eq!(room.game_state.seats, 10);
    match welcome {
        ServerMessage::RoomJoined { your_id, your_secret, host_id, game_state } => {
            assert_eq!(your_id, host);
            assert_eq!(host_id, host);
            assert_eq!(your_secret, room.players[&host]);
            assert_eq!(game_state.room_id, room.game_state.room_id);
        },
        other => panic!("expected RoomJoined, got {:?}", other),
    }
}

#[test]
fn fresh_ids_differ() {
    let (a, _) = Room::create("a".to_string());
    let (b, _) = Room::create("b".to_string());
    assert_ne!(a.game_state.room_id, b.game_state.room_id);
    assert_ne!(a.host_id, b.host_id);
    assert_ne!(a.host_id, a.game_state.room_id);
    assert_ne!(a.players[&a.host_id], a.host_id);
}

#[test]
fn joining_announces_the_newcomer() {
    let (mut room, _) = Room::create_with_ids("host".to_string(), 1, 10, 100);
    let arrival = room.join("bob".to_string()).unwrap();
    assert_eq!(room.players.len(), 2);
    match (&arrival.welcome, &arrival.announcement) {
        (
            ServerMessage::RoomJoined { your_id, host_id, game_state, .. },
            ServerMessage::PlayerJoined { player },
        ) => {
            assert_eq!(*host_id, 10);
            assert_eq!(player.id, *your_id);
            assert_eq!(player.nickname, "bob");
            assert_eq!(player.stack, 0);
            assert_eq!(game_state.players.len(), 2);
        },
        other => panic!("unexpected arrival {:?}", other),
    }
}

#[test]
fn seats_are_ordered_around_the_table() {
    let (room, _) = seated_room();
    assert_eq!(room.game_state.seated_players, vec![12, 10, 11]);
    let (mut room, _) = Room::create_with_ids("host".to_string(), 1, 10, 100);
    for id in 11..15u128 {
        room.join_with_ids(format!("p{}", id), id, id + 100);
    }
    for (id, seat) in [(10u128, 3u8), (11, 5), (12, 7), (13, 4), (14, 9)] {
        room.request_seat(id, seat, 500);
    }
    assert_eq!(room.game_state.seated_players, vec![10, 13, 11, 12, 14]);
    assert_eq!(room.game_state.find_insertion_index(6), 3);
    assert_eq!(room.game_state.find_insertion_index(2), 0);
    assert_eq!(room.game_state.find_insertion_index(8), 4);
    let out = room.request_seat(12, 6, 700);
    assert_eq!(out.broadcast.len(), 1);
    assert_eq!(room.game_state.seated_players, vec![10, 13, 11, 12, 14]);
    assert_eq!(room.game_state.players[&12].stack, 700);
    assert_eq!(room.game_state.players[&12].state, PlayerState::Waiting);
}

#[test]
fn seat_requests_are_refused() {
    let (mut room, _) = seated_room();
    let out = room.request_seat(11, 10, 100);
    assert!(out.broadcast.is_empty());
    assert_eq!(text_of(&out.only[0]), "入座失败：座位号超出最大座位数");
    let out = room.request_seat(11, 3, 100);
    assert_eq!(text_of(&out.only[0]), "入座失败：该位置已有玩家入座");
    assert!(seat_taken(&room.game_state.players, 3, 11));
    assert!(!seat_taken(&room.game_state.players, 3, 10));
    assert!(!seat_taken(&room.game_state.players, 4, 11));
    room.handle_client_message(10, ClientMessage::StartHand);
    assert_eq!(room.game_state.phase, GamePhase::PreFlop);
    let out = room.request_seat(11, 8, 100);
    assert_eq!(text_of(&out.only[0]), "入座失败：请在等待阶段入座");
    assert_eq!(room.game_state.players[&11].seat_id, Some(5));
}

#[test]
fn only_the_host_starts_a_hand_and_the_button_moves() {
    let (mut room, _) = seated_room();
    let out = room.handle_client_message(11, ClientMessage::StartHand);
    assert_eq!(text_of(&out.broadcast[0]), "只有房主可以开始游戏");
    assert_eq!(audience(&out.broadcast[0]), Audience::Sender);
    assert_eq!(room.game_state.phase, GamePhase::WaitingForPlayers);
    let out = room.handle_client_message(10, ClientMessage::StartHand);
    assert_eq!(out.broadcast.len(), 4);
    assert_eq!(room.game_state.seated_players, vec![10, 11, 12]);
    assert_eq!(room.game_state.hand_player_order, vec![10, 11, 12]);
    assert!(matches!(&out.broadcast[0], ServerMessage::HandStarted { dealer_id: 10, .. }));
    assert_eq!(audience(&out.broadcast[0]), Audience::Everyone);
    let out = room.handle_client_message(10, ClientMessage::StartHand);
    assert_eq!(text_of(&out.broadcast[0]), "牌局进行中，无法开始新的一局");
    assert_eq!(room.game_state.seated_players, vec![10, 11, 12]);
}

#[test]
fn hole_cards_are_told_to_their_owner_before_the_flop() {
    let (mut room, _) = seated_room();
    let out = room.handle_client_message(11, ClientMessage::GetMyHand);
    assert!(out.only.is_empty() && out.broadcast.is_empty());
    room.handle_client_message(10, ClientMessage::StartHand);
    let out = room.handle_client_message(11, ClientMessage::GetMyHand);
    assert!(out.broadcast.is_empty());
    let cards = room.game_state.player_cards[1];
    assert!(matches!(&out.only[0], ServerMessage::PlayerHand { hands } if Some(hands.0) == cards.0 && Some(hands.1) == cards.1));
}

#[test]
fn actions_go_to_the_engine_and_offline_players_are_played_for() {
    let (mut room, _) = seated_room();
    let out = room.handle_client_message(10, ClientMessage::PerformAction(PlayerAction::Fold));
    assert_eq!(text_of(&out.broadcast[0]), "当前不该你行动");
    room.handle_client_message(10, ClientMessage::StartHand);
    assert_eq!(room.game_state.current_player_id(), Some(10));
    let out = room.handle_client_message(11, ClientMessage::PerformAction(PlayerAction::Call));
    assert_eq!(text_of(&out.broadcast[0]), "当前不该你行动");
    let left = room.disconnect(10);
    assert!(matches!(&left.update, Some(ServerMessage::PlayerUpdated { player }) if player.id == 10 && player.state == PlayerState::Offline));
    assert!(left.host_transfer.is_some());
    assert!(!left.delete_room);
    assert_eq!(left.played.len(), 2);
    assert!(matches!(&left.played[0], ServerMessage::PlayerActed { player_id: 10, action: PlayerAction::Fold, .. }));
    assert!(matches!(&left.played[1], ServerMessage::NextToAct { player_id: 11, .. }));
    assert_eq!(room.game_state.players[&10].state, PlayerState::Folded);
    let out = room.handle_client_message(11, ClientMessage::PerformAction(PlayerAction::Call));
    assert!(matches!(&out.broadcast[0], ServerMessage::PlayerActed { player_id: 11, .. }));
    let out = room.handle_client_message(12, ClientMessage::PerformAction(PlayerAction::Check));
    assert_eq!(room.game_state.phase, GamePhase::Flop);
    assert_eq!(room.game_state.current_player_id(), Some(11));
    assert_eq!(out.broadcast.len(), 3);
}

#[test]
fn offline_opener_is_played_for_at_once() {
    let (mut room, _) = Room::create_with_ids("host".to_string(), 1, 10, 100);
    room.join_with_ids("bob".to_string(), 11, 101);
    room.request_seat(10, 0, 1000);
    room.request_seat(11, 1, 1000);
    room.handle_client_message(10, ClientMessage::StartHand);
    assert_eq!(room.game_state.hand_player_order, vec![11, 10]);
    room.handle_client_message(11, ClientMessage::PerformAction(PlayerAction::Call));
    room.handle_client_message(10, ClientMessage::PerformAction(PlayerAction::Check));
    assert_eq!(room.game_state.phase, GamePhase::Flop);
    assert_eq!(room.game_state.current_player_id(), Some(10));
    let left = room.disconnect(10);
    assert_eq!(left.played.len(), 2);
    assert!(matches!(&left.played[0], ServerMessage::PlayerActed { player_id: 10, action: PlayerAction::Check, .. }));
    assert!(matches!(&left.played[1], ServerMessage::NextToAct { player_id: 11, .. }));
    assert_eq!(room.game_state.current_player_id(), Some(11));
    assert_eq!(room.host_id, 11);
    let out = room.handle_client_message(11, ClientMessage::PerformAction(PlayerAction::BetOrRaise(200)));
    assert!(matches!(&out.broadcast[0], ServerMessage::PlayerActed { player_id: 11, .. }));
}

#[test]
fn host_disconnect_passes_the_room_on() {
    let (mut room, _) = Room::create_with_ids("host".to_string(), 1, 10, 100);
    room.join_with_ids("bob".to_string(), 11, 101);
    let left = room.disconnect(10);
    assert!(matches!(&left.update, Some(ServerMessage::PlayerUpdated { player }) if player.id == 10 && player.state == PlayerState::Offline));
    assert_eq!(room.host_id, 11);
    assert_eq!(text_of(left.host_transfer.as_ref().unwrap()), "房主已断开，新房主是 bob");
    assert!(!left.delete_room);
    assert!(!room.players.contains_key(&10));
    assert!(room.is_well_formed());
    room.players.insert(99, 5);
    assert!(!room.is_well_formed());
    room.players.remove(&99);
    let left = room.disconnect(11);
    assert!(left.host_transfer.is_none());
    assert!(left.delete_room);
}

#[test]
fn messages_are_routed_by_the_binding_of_the_connection() {
    let create = ClientMessage::CreateRoom { nickname: "ann".to_string() };
    assert!(matches!(route(None, create.clone()), Route::Create { nickname } if nickname == "ann"));
    assert!(matches!(route(Some((1, 2)), create), Route::Refuse(m) if text_of(&m) == "你已经在一个房间里了"));
    let join = ClientMessage::JoinRoom { room_id: 9, nickname: "bob".to_string() };
    assert!(matches!(route(None, join.clone()), Route::Join { room_id: 9, nickname } if nickname == "bob"));
    assert!(matches!(route(Some((1, 2)), join), Route::Refuse(_)));
    assert!(matches!(route(None, ClientMessage::StartHand), Route::Refuse(m) if text_of(&m) == "请先加入或创建房间"));
    assert!(matches!(
        route(Some((1, 2)), ClientMessage::GetMyHand),
        Route::Forward { room_id: 1, player_id: 2, msg: ClientMessage::GetMyHand }
    ));
    assert_eq!(text_of(&room_not_found()), "房间不存在");
    let from_action: ClientMessage = PlayerAction::Fold.into();
    assert!(matches!(from_action, ClientMessage::PerformAction(PlayerAction::Fold)));
}

#[test]
fn members_who_are_not_connected_and_unserved_requests_are_refused() {
    let (mut room, _) = seated_room();
    let out = room.handle_client_message(99, ClientMessage::StartHand);
    assert_eq!(text_of(&out.only[0]), "请先加入或创建房间");
    let out = room.handle_client_message(10, ClientMessage::LeaveSeat);
    assert_eq!(text_of(&out.broadcast[0]), "该功能暂未实现");
    let out = room.handle_client_message(10, ClientMessage::SetNickname("x".to_string()));
    assert_eq!(text_of(&out.broadcast[0]), "该功能暂未实现");
    let out = room.handle_client_message(10, ClientMessage::CreateRoom { nickname: "x".to_string() });
    assert_eq!(text_of(&out.only[0]), "你已经在一个房间里了");
}

#[test]
fn snapshots_are_cut_down_for_their_recipient() {
    let (mut room, _) = seated_room();
    room.handle_client_message(10, ClientMessage::StartHand);
    let snapshot = ServerMessage::GameStateSnapshot(room.game_state.clone());
    match for_recipient(&snapshot, 11) {
        ServerMessage::GameStateSnapshot(seen) => {
            assert!(seen.deck.is_empty());
            assert_eq!(seen.player_cards[1], room.game_state.player_cards[1]);
            assert_eq!(seen.player_cards[0], (None, None));
            assert_eq!(seen.player_cards[2], (None, None));
        },
        other => panic!("expected a snapshot, got {:?}", other),
    }
    let info = ServerMessage::Info { message: "hello".to_string() };
    assert_eq!(text_of(&for_recipient(&info, 11)), "hello");
}

#[test]
fn joining_under_a_taken_id_is_refused() {
    let (mut room, _) = Room::create_with_ids("host".to_string(), 1, 10, 100);
    let refused = room.join_as("bob".to_string(), 10, 555);
    match refused {
        Err(m) => assert_eq!(text_of(&m), "加入失败，请重试"),
        Ok(_) => panic!("a taken id was let in"),
    }
    assert_eq!(room.players.len(), 1);
    assert_eq!(room.players[&10], 100);
    assert_eq!(room.game_state.players.len(), 1);
    assert_eq!(room.game_state.players[&10].nickname, "host");
    let arrival = room.join_as("bob".to_string(), 11, 101).unwrap();
    assert!(matches!(&arrival.welcome, ServerMessage::RoomJoined { your_id: 11, your_secret: 101, host_id: 10, .. }));
    assert!(matches!(&arrival.announcement, ServerMessage::PlayerJoined { player } if player.id == 11 && player.nickname == "bob" && player.stack == 0 && player.state == PlayerState::SittingOut));
    assert_eq!(room.players[&11], 101);
    assert!(room.is_well_formed());
}

#[test]
fn random_join_lets_the_player_in() {
    let (mut room, _) = Room::create("ann".to_string());
    let arrival = room.join("bob".to_string()).unwrap();
    assert_eq!(room.players.len(), 2);
    match arrival.welcome {
        ServerMessage::RoomJoined { your_id, your_secret, host_id, .. } => {
            assert_eq!(host_id, room.host_id);
            assert_ne!(your_id, room.host_id);
            assert_eq!(room.players[&your_id], your_secret);
            assert_eq!(room.game_state.players[&your_id].nickname, "bob");
        },
        other => panic!("expected RoomJoined, got {:?}", other),
    }
}

#[test]
fn refused_start_leaves_the_room_as_it_was() {
    let (mut room, _) = seated_room();
    room.request_seat(11, 5, 3_000_000_000);
    let seated = room.game_state.seated_players.clone();
    let out = room.handle_client_message(10, ClientMessage::StartHand);
    assert_eq!(out.broadcast.len(), 1);
    assert_eq!(text_of(&out.broadcast[0]), "无法开始游戏：筹码总量过大");
    assert_eq!(room.game_state.seated_players, seated);
    assert_eq!(room.game_state.phase, GamePhase::WaitingForPlayers);
    assert!(room.game_state.hand_player_order.is_empty());
    assert_eq!(room.game_state.players[&10].state, PlayerState::Waiting);
    room.request_seat(11, 5, 1000);
    let out = room.handle_client_message(10, ClientMessage::StartHand);
    assert!(matches!(&out.broadcast[0], ServerMessage::HandStarted { .. }));
}

#[test]
fn a_step_that_cannot_pass_the_turn_is_told_once() {
    let (mut room, _) = seated_room();
    room.handle_client_message(10, ClientMessage::StartHand);
    assert_eq!(room.game_state.current_player_id(), Some(10));
    room.handle_client_message(10, ClientMessage::PerformAction(PlayerAction::Fold));
    assert_eq!(room.game_state.current_player_id(), Some(11));
    let left = room.disconnect(12);
    assert!(left.played.is_empty());
    room.handle_client_message(11, ClientMessage::PerformAction(PlayerAction::Call));
    assert_eq!(room.game_state.phase, GamePhase::PreFlop);
    assert_eq!(room.game_state.current_player_id(), Some(11));
    let left = room.disconnect(11);
    assert!(!left.delete_room);
    let checks = left
        .played
        .iter()
        .filter(|m| matches!(m, ServerMessage::PlayerActed { player_id: 11, action: PlayerAction::Check, .. }))
        .count();
    assert_eq!(checks, 1);
    assert!(left.played.len() <= 2);
    assert_eq!(room.game_state.phase, GamePhase::PreFlop);
    assert_eq!(room.game_state.current_player_id(), Some(11));
    assert!(room.is_well_formed());
}
