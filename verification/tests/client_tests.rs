use poker_eden_core::{
    login_command, parse_in_room_input, parse_login_input, room_command, split_words, write_id,
    Card, ClientMessage, ClientState, GamePhase, GameState, HandRank, LoginCommand, Player,
    PlayerAction, PlayerActionType, PlayerState, Rank, ServerMessage, ShowdownResult, Suit,
};
use uuid::Uuid;

fn member(id: u128, name: &str, stack: u32, seat: Option<u8>, state: PlayerState) -> Player {
    Player { id, nickname: name.to_string(), stack, wins: 0, losses: 0, state, seat_id: seat }
}

fn joined_client() -> ClientState {
    let mut app = ClientState::new();
    app.server_addr = Some("127.0.0.1:25917".to_string());
    let mut game = GameState::default();
    game.room_id = 0xa1a2a3a4b1b2c1c2d1d2d3d4d5d6d7d8;
    game.players.insert(1, member(1, "ann", 0, None, PlayerState::SittingOut));
    let replies = app.handle_server_message(ServerMessage::RoomJoined {
        your_id: 1,
        your_secret: 77,
        game_state: game,
        host_id: 1,
    });
    assert!(replies.is_empty());
    app
}

fn seated_client() -> ClientState {
    let mut app = joined_client();
    app.handle_server_message(ServerMessage::PlayerJoined {
        player: member(2, "bob", 0, None, PlayerState::SittingOut),
    });
    app.handle_server_message(ServerMessage::PlayerJoined {
        player: member(3, "cat", 0, None, PlayerState::SittingOut),
    });
    for (id, name, seat) in [(1u128, "ann", 3u8), (2, "bob", 5), (3, "cat", 1)] {
        app.handle_server_message(ServerMessage::PlayerUpdated {
            player: member(id, name, 1000, Some(seat), PlayerState::Waiting),
        });
    }
    app
}

#[test]
fn ids_are_written_in_canonical_form() {
    for id in [0u128, 1, 0xa1a2a3a4b1b2c1c2d1d2d3d4d5d6d7d8, u128::MAX, 0x0123456789abcdef0011223344556677] {
        assert_eq!(write_id(id), Uuid::from_u128(id).to_string());
    }
    assert_eq!(write_id(0xa1a2a3a4b1b2c1c2d1d2d3d4d5d6d7d8), "a1a2a3a4-b1b2-c1c2-d1d2-d3d4d5d6d7d8");
}

#[test]
fn cards_hands_phases_and_states_have_labels() {
    assert_eq!(Card::new(Rank::Ten, Suit::Heart).label(), "♥️T");
    assert_eq!(Card::new(Rank::Ace, Suit::Spade).label(), "♠️A");
    assert_eq!(Suit::Club.label(), "♣️");
    assert_eq!(Suit::Diamond.label(), "♦️");
    assert_eq!(Rank::Two.label(), "2");
    assert_eq!(Rank::King.label(), "K");
    assert_eq!(HandRank::OnePair(Rank::Ace, Rank::King, Rank::Queen, Rank::Jack).label(), "一对(A)");
    assert_eq!(HandRank::TwoPair(Rank::Jack, Rank::Nine, Rank::Ten).label(), "两对(J,9)");
    assert_eq!(HandRank::ThreeOfAKind(Rank::Ten, Rank::Jack, Rank::Two).label(), "三条(T)");
    assert_eq!(HandRank::RoyalFlush.label(), "皇家同花顺");
    assert_eq!(HandRank::Straight(Rank::Five).label(), "顺子");
    assert_eq!(GamePhase::PreFlop.label(), "预发牌");
    assert_eq!(GamePhase::Showdown.label(), "摊牌");
    assert_eq!(PlayerState::AllIn.label(), "已全下");
    assert_eq!(PlayerState::Offline.label(), "掉线");
}

#[test]
fn welcome_binds_the_client_and_makes_the_invitation() {
    let app = joined_client();
    assert!(app.in_room);
    assert_eq!(app.my_id, Some(1));
    assert_eq!(app.host_id, Some(1));
    assert_eq!(
        app.share_info.as_deref(),
        Some("分享信息: join 127.0.0.1:25917 a1a2a3a4-b1b2-c1c2-d1d2-d3d4d5d6d7d8")
    );
    assert!(app.should_refresh);
    assert!(app.last_msg.is_none());
}

#[test]
fn notices_are_kept_until_the_next_message() {
    let mut app = joined_client();
    app.handle_server_message(ServerMessage::Error { message: "no".to_string() });
    assert_eq!(app.last_msg.as_deref(), Some("no"));
    app.handle_server_message(ServerMessage::Info { message: "yes".to_string() });
    assert_eq!(app.last_msg.as_deref(), Some("yes"));
    app.handle_server_message(ServerMessage::PlayerLeft { player_id: 1 });
    assert!(app.last_msg.is_none());
    assert_eq!(app.game_state.as_ref().unwrap().players[&1].state, PlayerState::Offline);
}

#[test]
fn seating_is_mirrored_in_seat_order() {
    let mut app = seated_client();
    let game = app.game_state.as_ref().unwrap();
    assert_eq!(game.seated_players, vec![3, 1, 2]);
    assert_eq!(game.players[&2].stack, 1000);
    assert_eq!(app.log_messages, vec!["玩家 ann 已坐下准备游戏", "玩家 bob 已坐下准备游戏", "玩家 cat 已坐下准备游戏"]);
    app.handle_server_message(ServerMessage::PlayerUpdated {
        player: member(2, "bob", 1000, Some(5), PlayerState::SittingOut),
    });
    let game = app.game_state.as_ref().unwrap();
    assert_eq!(game.seated_players, vec![3, 1]);
    assert_eq!(app.log_messages.last().unwrap(), "玩家 bob 离席");
    assert_eq!(game.players[&2].state, PlayerState::SittingOut);
}

#[test]
fn a_hand_is_mirrored_event_by_event() {
    let mut app = seated_client();
    let replies = app.handle_server_message(ServerMessage::HandStarted {
        hand_player_order: vec![3, 1, 2],
        dealer_id: 3,
    });
    assert!(matches!(replies.as_slice(), [ClientMessage::GetMyHand]));
    assert!(app.share_info.is_none());
    assert_eq!(app.last_stack, vec![1000, 1000, 1000]);
    assert_eq!(app.hand_ranks, vec![None, None, None]);
    {
        let game = app.game_state.as_ref().unwrap();
        assert_eq!(game.phase, GamePhase::PreFlop);
        assert_eq!(game.player_indices[&1], 1);
        assert_eq!(game.bets, vec![0, 0, 0]);
        assert_eq!(game.players[&1].state, PlayerState::Playing);
    }
    let (c1, c2) = (Card::new(Rank::Ace, Suit::Spade), Card::new(Rank::Ace, Suit::Heart));
    app.handle_server_message(ServerMessage::PlayerHand { hands: (c1, c2) });
    app.handle_server_message(ServerMessage::PlayerActed {
        player_id: 1,
        action: PlayerAction::BetOrRaise(100),
        total_bet_this_round: 100,
        new_stack: 900,
        new_pot: 100,
    });
    app.handle_server_message(ServerMessage::PlayerActed {
        player_id: 2,
        action: PlayerAction::BetOrRaise(200),
        total_bet_this_round: 200,
        new_stack: 800,
        new_pot: 300,
    });
    app.handle_server_message(ServerMessage::PlayerActed {
        player_id: 3,
        action: PlayerAction::Fold,
        total_bet_this_round: 0,
        new_stack: 1000,
        new_pot: 300,
    });
    app.handle_server_message(ServerMessage::NextToAct {
        player_id: 1,
        valid_actions: vec![PlayerActionType::Call(100), PlayerActionType::Raise(200), PlayerActionType::Fold],
    });
    assert_eq!(app.valid_actions.len(), 3);
    {
        let game = app.game_state.as_ref().unwrap();
        assert_eq!(game.player_cards[1], (Some(c1), Some(c2)));
        assert_eq!(game.pot, 300);
        assert_eq!(game.bets, vec![0, 100, 200]);
        assert_eq!(game.max_bet, 200);
        assert_eq!(game.players[&3].state, PlayerState::Folded);
        assert_eq!(game.players[&2].stack, 800);
        assert_eq!(game.cur_player_idx, 1);
    }
    app.handle_server_message(ServerMessage::NextToAct { player_id: 2, valid_actions: vec![PlayerActionType::Check] });
    assert!(app.valid_actions.is_empty());
    app.handle_server_message(ServerMessage::CommunityCardsDealt {
        phase: GamePhase::Flop,
        cards: vec![
            Card::new(Rank::Ace, Suit::Club),
            Card::new(Rank::King, Suit::Club),
            Card::new(Rank::Two, Suit::Diamond),
        ],
    });
    assert_eq!(app.hand_ranks[1], Some(HandRank::ThreeOfAKind(Rank::Ace, Rank::King, Rank::Two)));
    assert_eq!(app.hand_ranks[0], None);
    app.handle_server_message(ServerMessage::CommunityCardsDealt {
        phase: GamePhase::Turn,
        cards: vec![Card::new(Rank::King, Suit::Heart)],
    });
    assert_eq!(app.hand_ranks[1], Some(HandRank::FullHouse(Rank::Ace, Rank::King)));
    assert_eq!(app.game_state.as_ref().unwrap().phase, GamePhase::Turn);
    app.handle_server_message(ServerMessage::BetReturned { player_id: 2, amount: 100, new_stack: 900 });
    assert_eq!(app.game_state.as_ref().unwrap().pot, 200);
    app.handle_server_message(ServerMessage::Showdown {
        results: vec![
            ShowdownResult {
                player_id: 1,
                hand_rank: Some(HandRank::FullHouse(Rank::Ace, Rank::King)),
                cards: Some((c1, c2)),
                winnings: 200,
            },
            ShowdownResult {
                player_id: 2,
                hand_rank: Some(HandRank::OnePair(Rank::King, Rank::Ace, Rank::Queen, Rank::Two)),
                cards: Some((Card::new(Rank::Queen, Suit::Spade), Card::new(Rank::Three, Suit::Spade))),
                winnings: 0,
            },
        ],
    });
    let game = app.game_state.as_ref().unwrap();
    assert_eq!(game.phase, GamePhase::Showdown);
    assert_eq!(game.players[&1].stack, 1100);
    assert_eq!(game.players[&1].wins, 1);
    assert_eq!(game.players[&2].stack, 900);
    assert_eq!(game.players[&2].wins, 0);
    assert_eq!(game.player_cards[2].0, Some(Card::new(Rank::Queen, Suit::Spade)));
    assert_eq!(app.hand_ranks[2], Some(HandRank::OnePair(Rank::King, Rank::Ace, Rank::Queen, Rank::Two)));
}

#[test]
fn busted_players_are_seen_offline_after_a_showdown() {
    let mut app = seated_client();
    app.handle_server_message(ServerMessage::HandStarted { hand_player_order: vec![3, 1, 2], dealer_id: 3 });
    app.handle_server_message(ServerMessage::PlayerActed {
        player_id: 2,
        action: PlayerAction::BetOrRaise(1000),
        total_bet_this_round: 1000,
        new_stack: 0,
        new_pot: 1000,
    });
    assert_eq!(app.game_state.as_ref().unwrap().players[&2].state, PlayerState::AllIn);
    app.handle_server_message(ServerMessage::Showdown {
        results: vec![ShowdownResult { player_id: 1, hand_rank: None, cards: None, winnings: 2000 }],
    });
    let game = app.game_state.as_ref().unwrap();
    assert_eq!(game.players[&2].state, PlayerState::Offline);
    assert_eq!(game.players[&2].losses, 1);
    assert_eq!(game.players[&1].stack, 3000);
    assert_eq!(game.players[&1].state, PlayerState::Playing);
}

#[test]
fn lines_are_cut_into_words() {
    assert_eq!(split_words("  create   127.0.0.1:25917\tAlice \n"), vec!["create", "127.0.0.1:25917", "Alice"]);
    assert!(split_words("   ").is_empty());
    assert!(split_words("").is_empty());
    assert_eq!(split_words("a"), vec!["a"]);
    assert_eq!(split_words("a\u{3000}b"), vec!["a", "b"]);
}

#[test]
fn login_lines_are_read() {
    match parse_login_input("Create 127.0.0.1:25917 Alice") {
        Some(LoginCommand::Create { server_addr, nickname }) => {
            assert_eq!(server_addr, "127.0.0.1:25917");
            assert_eq!(nickname, "Alice");
        },
        other => panic!("unexpected {:?}", other),
    }
    match parse_login_input("join host:1 a1a2a3a4-b1b2-c1c2-d1d2-d3d4d5d6d7d8 Bob") {
        Some(LoginCommand::Join { server_addr, room_id, nickname }) => {
            assert_eq!(server_addr, "host:1");
            assert_eq!(room_id, 0xa1a2a3a4b1b2c1c2d1d2d3d4d5d6d7d8);
            assert_eq!(nickname, "Bob");
        },
        other => panic!("unexpected {:?}", other),
    }
    assert!(parse_login_input("create nocolon Alice").is_none());
    assert!(parse_login_input("create a:1").is_none());
    assert!(parse_login_input("create a:1 Alice extra").is_none());
    assert!(parse_login_input("join a:1 not-an-id Bob").is_none());
    assert!(parse_login_input("join nocolon a1a2a3a4-b1b2-c1c2-d1d2-d3d4d5d6d7d8 Bob").is_none());
    assert!(parse_login_input("leave a:1 Alice").is_none());
    assert!(login_command(&vec!["x", "a:1", "n"], "create", None).is_some());
    assert!(login_command(&vec!["x", "a:1", "y", "n"], "join", None).is_none());
    assert!(matches!(login_command(&vec!["x", "a:1", "y", "n"], "join", Some(5)), Some(LoginCommand::Join { room_id: 5, .. })));
}

#[test]
fn room_lines_are_read() {
    let mut app = joined_client();
    assert!(matches!(
        parse_in_room_input("seat 3 1000", &app),
        Some(ClientMessage::RequestSeat { seat_id: 3, stack: 1000 })
    ));
    assert!(matches!(
        parse_in_room_input("SEAT +3 +1000", &app),
        Some(ClientMessage::RequestSeat { seat_id: 3, stack: 1000 })
    ));
    assert!(parse_in_room_input("seat 256 1000", &app).is_none());
    assert!(parse_in_room_input("seat 3 4294967296", &app).is_none());
    assert!(parse_in_room_input("seat 3 -1", &app).is_none());
    assert!(parse_in_room_input("seat 3", &app).is_none());
    assert!(parse_in_room_input("fold", &app).is_none());
    assert!(parse_in_room_input("start", &app).is_none());
    assert!(parse_in_room_input("", &app).is_none());
    app = seated_client();
    assert!(matches!(parse_in_room_input("start", &app), Some(ClientMessage::StartHand)));
    assert!(matches!(parse_in_room_input("Start now", &app), Some(ClientMessage::StartHand)));
    assert!(parse_in_room_input("seat 3 1000", &app).is_none());
    assert!(matches!(parse_in_room_input("f", &app), Some(ClientMessage::PerformAction(PlayerAction::Fold))));
    assert!(matches!(parse_in_room_input("FOLD", &app), Some(ClientMessage::PerformAction(PlayerAction::Fold))));
    assert!(parse_in_room_input("c", &app).is_none());
    app.valid_actions = vec![PlayerActionType::Fold, PlayerActionType::Call(20), PlayerActionType::Check];
    assert!(matches!(parse_in_room_input("check", &app), Some(ClientMessage::PerformAction(PlayerAction::Call))));
    app.valid_actions = vec![PlayerActionType::Check, PlayerActionType::Bet(20)];
    assert!(matches!(parse_in_room_input("call", &app), Some(ClientMessage::PerformAction(PlayerAction::Check))));
    assert!(matches!(parse_in_room_input("b 60", &app), Some(ClientMessage::PerformAction(PlayerAction::BetOrRaise(60)))));
    assert!(matches!(parse_in_room_input("raise 4294967295", &app), Some(ClientMessage::PerformAction(PlayerAction::BetOrRaise(4294967295)))));
    assert!(parse_in_room_input("raise", &app).is_none());
    assert!(parse_in_room_input("raise x", &app).is_none());
    assert!(parse_in_room_input("dance", &app).is_none());
    assert!(matches!(room_command(&vec!["x", "7"], "r", &app), Some(ClientMessage::PerformAction(PlayerAction::BetOrRaise(7)))));
    app.handle_server_message(ServerMessage::PlayerLeft { player_id: 1 });
    assert!(matches!(
        parse_in_room_input("seat 3 1000", &app),
        Some(ClientMessage::RequestSeat { seat_id: 3, stack: 1000 })
    ));
}
