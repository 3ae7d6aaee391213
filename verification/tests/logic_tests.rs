use poker_eden_core::{
    Card, GamePhase, GameState, Player, PlayerAction, PlayerId, PlayerState, Rank, ServerMessage,
    Suit,
};
use std::collections::{HashMap, VecDeque};
use uuid::Uuid;

fn setup_test_game(player_stacks: &[u32]) -> (GameState, Vec<PlayerId>) {
    let mut players = HashMap::new();
    let mut seated_players = VecDeque::new();
    let mut player_ids = Vec::new();

    for &stack in player_stacks {
        let player_id = Uuid::new_v4().as_u128();
        let player = Player {
            id: player_id,
            nickname: format!("Player_{}", Uuid::from_u128(player_id).simple()),
            stack,
            wins: 0,
            losses: 0,
            state: PlayerState::Waiting,
            seat_id: None,
        };
        players.insert(player_id, player);
        seated_players.push_back(player_id);
        player_ids.push(player_id);
    }

    let state = GameState {
        players,
        seated_players,
        small_blind: 10,
        big_blind: 20,
        ..Default::default()
    };

    (state, player_ids)
}

#[test]
fn test_start_new_hand_normal() {
    let (mut state, _p_ids) = setup_test_game(&[1000, 1000, 1000, 1000]);
    state.start_new_hand();

    assert_eq!(state.hand_player_order.len(), 4);

    let sb_id = state.hand_player_order[1];
    let bb_id = state.hand_player_order[2];
    assert_eq!(state.players.get(&sb_id).unwrap().stack, 990);
    assert_eq!(state.players.get(&bb_id).unwrap().stack, 980);
    assert_eq!(state.pot, 30);
    assert_eq!(state.max_bet, 20);

    let first_actor_idx = state.cur_player_idx;
    assert_eq!(first_actor_idx, 3);
    let first_actor_id = state.hand_player_order[first_actor_idx];
    assert_eq!(
        state.players.get(&first_actor_id).unwrap().state,
        PlayerState::Playing
    );
}

#[test]
fn test_player_action_fold_and_win() {
    let (mut state, p_ids) = setup_test_game(&[1000, 1000, 1000]);
    state.start_new_hand();

    let p0_id = state.hand_player_order[0];
    let p1_id = state.hand_player_order[1];

    state.cur_player_idx = 0;
    state.handle_player_action(p0_id, PlayerAction::Fold);
    assert_eq!(
        state.players.get(&p0_id).unwrap().state,
        PlayerState::Folded
    );

    state.handle_player_action(p1_id, PlayerAction::Fold);
    assert_eq!(
        state.players.get(&p1_id).unwrap().state,
        PlayerState::Folded
    );

    assert_eq!(state.phase, GamePhase::Showdown);
    assert_eq!(state.players.get(&p_ids[2]).unwrap().stack, 1000 - 20 + 30);
}

#[test]
fn test_betting_round_ends_and_advances_to_flop() {
    let (mut state, _p_ids) = setup_test_game(&[1000, 1000, 1000]);
    state.start_new_hand();

    let p0_id = state.hand_player_order[0];
    let p1_id = state.hand_player_order[1];
    let p2_id = state.hand_player_order[2];

    assert_eq!(state.cur_player_idx, 0);
    state.handle_player_action(p0_id, PlayerAction::Call);
    state.handle_player_action(p1_id, PlayerAction::Call);
    state.handle_player_action(p2_id, PlayerAction::Check);

    assert_eq!(state.phase, GamePhase::Flop);
    assert_eq!(state.pot, 60);
    assert_eq!(state.community_cards.iter().flatten().count(), 3);

    assert_eq!(state.current_player_id(), Some(p1_id));
}

#[test]
fn test_showdown_logic_simple_winner() {
    let (mut state, p_ids) = setup_test_game(&[1000, 1000]);
    state.start_new_hand();

    let p0_id = p_ids[0];
    let p1_id = p_ids[1];

    state.handle_player_action(p0_id, PlayerAction::Call);
    state.handle_player_action(p1_id, PlayerAction::Check);

    state.phase = GamePhase::Showdown;
    assert_eq!(state.pot, 40);

    state.community_cards = vec![
        Some(Card::new(Rank::Ace, Suit::Spade)),
        Some(Card::new(Rank::King, Suit::Spade)),
        Some(Card::new(Rank::Queen, Suit::Spade)),
        Some(Card::new(Rank::Two, Suit::Heart)),
        Some(Card::new(Rank::Three, Suit::Heart)),
    ];
    state.player_cards[0] = (
        Some(Card::new(Rank::Jack, Suit::Spade)),
        Some(Card::new(Rank::Ten, Suit::Spade)),
    );
    state.player_cards[1] = (
        Some(Card::new(Rank::Ace, Suit::Club)),
        Some(Card::new(Rank::Ace, Suit::Diamond)),
    );

    state.players.get_mut(&p0_id).unwrap().state = PlayerState::Playing;
    state.players.get_mut(&p1_id).unwrap().state = PlayerState::Playing;

    state.handle_showdown();

    assert_eq!(state.phase, GamePhase::Showdown);
    let p0_stack = state.players.get(&p0_id).unwrap().stack;
    let p1_stack = state.players.get(&p1_id).unwrap().stack;

    assert_eq!(p0_stack, 1000 - 20 + 40);
    assert_eq!(p1_stack, 1000 - 20);
}

#[test]
fn test_start_new_hand_heads_up_rules() {
    let (mut state, p_ids) = setup_test_game(&[1000, 1000]);
    state.start_new_hand();

    let dealer_id = p_ids[0];
    let bb_id = p_ids[1];

    assert_eq!(state.players.get(&dealer_id).unwrap().stack, 990);
    assert_eq!(state.players.get(&bb_id).unwrap().stack, 980);

    assert_eq!(state.cur_player_idx, 0);
    assert_eq!(state.current_player_id(), Some(dealer_id));

    state.handle_player_action(dealer_id, PlayerAction::Call);
    assert_eq!(state.current_player_id(), Some(bb_id));

    state.handle_player_action(bb_id, PlayerAction::Check);
    assert_eq!(state.phase, GamePhase::Flop);

    assert_eq!(state.current_player_id(), Some(bb_id));
}

#[test]
fn test_walk_bb_wins_blinds() {
    let (mut state, p_ids) = setup_test_game(&[1000, 1000, 1000]);
    state.start_new_hand();

    let p0_id = p_ids[0];
    let p1_id = p_ids[1];
    let p2_id = p_ids[2];

    state.cur_player_idx = 0;
    state.handle_player_action(p0_id, PlayerAction::Fold);
    state.handle_player_action(p1_id, PlayerAction::Fold);

    assert_eq!(state.phase, GamePhase::Showdown);
    assert_eq!(state.players.get(&p2_id).unwrap().stack, 1000 - 20 + 30);
    assert_eq!(state.pot, 0);
}

#[test]
fn test_full_betting_round_with_raise_and_reraise() {
    let (mut state, p_ids) = setup_test_game(&[1000, 1000, 1000, 1000]);
    state.start_new_hand();

    let p1_id = p_ids[1];
    let p2_id = p_ids[2];
    let p3_id = p_ids[3];
    let p0_id = p_ids[0];

    state.handle_player_action(p3_id, PlayerAction::BetOrRaise(60));
    assert_eq!(state.max_bet, 60);
    assert_eq!(state.players.get(&p3_id).unwrap().stack, 940);

    state.handle_player_action(p0_id, PlayerAction::Call);
    assert_eq!(state.players.get(&p0_id).unwrap().stack, 940);

    state.handle_player_action(p1_id, PlayerAction::BetOrRaise(170));
    assert_eq!(state.max_bet, 180);
    assert_eq!(state.players.get(&p1_id).unwrap().stack, 820);

    state.handle_player_action(p2_id, PlayerAction::Fold);
    assert_eq!(
        state.players.get(&p2_id).unwrap().state,
        PlayerState::Folded
    );

    assert_eq!(state.current_player_id(), Some(p3_id));
    state.handle_player_action(p3_id, PlayerAction::Call);
    assert_eq!(state.players.get(&p3_id).unwrap().stack, 940 - 120);

    assert_eq!(state.current_player_id(), Some(p0_id));
    state.handle_player_action(p0_id, PlayerAction::Call);
    assert_eq!(state.players.get(&p0_id).unwrap().stack, 940 - 120);

    assert_eq!(state.phase, GamePhase::Flop);
    assert_eq!(state.pot, 180 + 20 + 180 + 180);
}

#[test]
fn test_player_all_in_on_blind() {
    let (mut state, p_ids) = setup_test_game(&[1000, 15, 1000]);
    state.start_new_hand();

    let p1_id = p_ids[1];
    assert_eq!(state.players.get(&p1_id).unwrap().stack, 5);

    let p0_id = p_ids[0];
    state.handle_player_action(p0_id, PlayerAction::Call);

    state.handle_player_action(p1_id, PlayerAction::Call);
    assert_eq!(state.players.get(&p1_id).unwrap().stack, 0);
    assert_eq!(state.players.get(&p1_id).unwrap().state, PlayerState::AllIn);
    assert_eq!(state.bets[1], 15);
}

#[test]
fn test_multiple_all_ins_auto_showdown() {
    let (mut state, p_ids) = setup_test_game(&[50, 100, 1000]);
    state.start_new_hand();

    let p0_id = p_ids[0];
    let p1_id = p_ids[1];
    let p2_id = p_ids[2];

    state.handle_player_action(p0_id, PlayerAction::BetOrRaise(50));
    assert_eq!(state.players.get(&p0_id).unwrap().state, PlayerState::AllIn);

    state.handle_player_action(p1_id, PlayerAction::BetOrRaise(90));
    assert_eq!(state.players.get(&p1_id).unwrap().state, PlayerState::AllIn);

    state.handle_player_action(p2_id, PlayerAction::Call);

    assert_eq!(state.phase, GamePhase::Showdown);
    assert_eq!(state.community_cards.iter().all(|c| c.is_some()), true);
    assert_eq!(state.community_cards.iter().flatten().count(), 5);
}

#[test]
fn test_full_multi_stage_hand_flow() {
    let (mut state, p_ids) = setup_test_game(&[2000, 2000, 2000, 2000]);
    state.start_new_hand();

    let p0_id = p_ids[0];
    let p1_id = p_ids[1];
    let p2_id = p_ids[2];
    let p3_id = p_ids[3];

    state.handle_player_action(p3_id, PlayerAction::BetOrRaise(60));
    state.handle_player_action(p0_id, PlayerAction::Fold);
    state.handle_player_action(p1_id, PlayerAction::Call);
    state.handle_player_action(p2_id, PlayerAction::Call);

    assert_eq!(state.phase, GamePhase::Flop);
    assert_eq!(state.pot, 180);
    assert_eq!(state.current_player_id(), Some(p1_id));

    state.handle_player_action(p1_id, PlayerAction::Check);
    state.handle_player_action(p2_id, PlayerAction::Check);
    state.handle_player_action(p3_id, PlayerAction::BetOrRaise(90));
    state.handle_player_action(p1_id, PlayerAction::Fold);
    state.handle_player_action(p2_id, PlayerAction::Call);

    assert_eq!(state.phase, GamePhase::Turn);
    assert_eq!(state.pot, 180 + 90 + 90);
    assert_eq!(state.current_player_id(), Some(p2_id));

    state.handle_player_action(p2_id, PlayerAction::Check);
    state.handle_player_action(p3_id, PlayerAction::Check);

    assert_eq!(state.phase, GamePhase::River);
    assert_eq!(state.pot, 360);
    assert_eq!(state.current_player_id(), Some(p2_id));

    state.community_cards = vec![
        Some(Card::new(Rank::Ace, Suit::Spade)),
        Some(Card::new(Rank::King, Suit::Spade)),
        Some(Card::new(Rank::Two, Suit::Heart)),
        Some(Card::new(Rank::Three, Suit::Heart)),
        Some(Card::new(Rank::Four, Suit::Club)),
    ];
    state.player_cards[2] = (
        Some(Card::new(Rank::Ace, Suit::Club)),
        Some(Card::new(Rank::Queen, Suit::Diamond)),
    );
    state.player_cards[3] = (
        Some(Card::new(Rank::King, Suit::Club)),
        Some(Card::new(Rank::Queen, Suit::Spade)),
    );

    state.handle_player_action(p2_id, PlayerAction::BetOrRaise(200));
    state.handle_player_action(p3_id, PlayerAction::Call);

    assert_eq!(state.phase, GamePhase::Showdown);
    let p2_final_stack = state.players.get(&p2_id).unwrap().stack;
    let p3_final_stack = state.players.get(&p3_id).unwrap().stack;

    assert_eq!(p2_final_stack, 2000 - 350 + 760);
    assert_eq!(p3_final_stack, 2000 - 350);
}

#[test]
fn test_side_pot_distribution_logic_corrected() {
    let (mut state, p_ids) = setup_test_game(&[50, 200, 500]);
    let p0_id = p_ids[0];
    let p1_id = p_ids[1];
    let p2_id = p_ids[2];

    state.phase = GamePhase::Showdown;
    state.hand_player_order = p_ids.clone();
    state.player_indices = p_ids.iter().enumerate().map(|(i, id)| (*id, i)).collect();
    state.player_cards = vec![(None, None); 3];

    state.pot = 450;
    state.bets = vec![50, 200, 200];
    state.players.get_mut(&p0_id).unwrap().stack = 0;
    state.players.get_mut(&p1_id).unwrap().stack = 0;
    state.players.get_mut(&p2_id).unwrap().stack = 300;

    state.players.get_mut(&p0_id).unwrap().state = PlayerState::AllIn;
    state.players.get_mut(&p1_id).unwrap().state = PlayerState::AllIn;
    state.players.get_mut(&p2_id).unwrap().state = PlayerState::Playing;

    state.community_cards = vec![
        Some(Card::new(Rank::Ace, Suit::Spade)),
        Some(Card::new(Rank::Ace, Suit::Heart)),
        Some(Card::new(Rank::King, Suit::Club)),
        Some(Card::new(Rank::Queen, Suit::Diamond)),
        Some(Card::new(Rank::Two, Suit::Spade)),
    ];
    state.player_cards[0] = (
        Some(Card::new(Rank::King, Suit::Spade)),
        Some(Card::new(Rank::King, Suit::Heart)),
    );
    state.player_cards[1] = (
        Some(Card::new(Rank::Queen, Suit::Spade)),
        Some(Card::new(Rank::Jack, Suit::Club)),
    );
    state.player_cards[2] = (
        Some(Card::new(Rank::Ace, Suit::Diamond)),
        Some(Card::new(Rank::Ten, Suit::Club)),
    );

    state.handle_showdown();

    assert_eq!(state.players.get(&p0_id).unwrap().stack, 150);
    assert_eq!(state.players.get(&p0_id).unwrap().wins, 1);

    assert_eq!(state.players.get(&p2_id).unwrap().stack, 300 + 300);
    assert_eq!(state.players.get(&p2_id).unwrap().wins, 1);

    assert_eq!(state.players.get(&p1_id).unwrap().stack, 0);
    assert_eq!(state.players.get(&p1_id).unwrap().wins, 0);

    assert_eq!(state.pot, 0);
}

#[test]
fn test_uncalled_bet_is_returned() {
    let (mut state, p_ids) = setup_test_game(&[1000, 300]);
    let p0_id = p_ids[0];
    let p1_id = p_ids[1];

    state.phase = GamePhase::Showdown;
    state.hand_player_order = p_ids.clone();
    state.player_indices = p_ids.iter().enumerate().map(|(i, id)| (*id, i)).collect();
    state.player_cards = vec![(None, None); 2];

    state.pot = 500 + 300;
    state.bets = vec![500, 300];
    state.players.get_mut(&p0_id).unwrap().stack = 500;
    state.players.get_mut(&p1_id).unwrap().stack = 0;
    state.players.get_mut(&p0_id).unwrap().state = PlayerState::Playing;
    state.players.get_mut(&p1_id).unwrap().state = PlayerState::AllIn;
    state.community_cards = vec![
        Some(Card::new(Rank::Ten, Suit::Spade)),
        Some(Card::new(Rank::Jack, Suit::Spade)),
        Some(Card::new(Rank::Queen, Suit::Spade)),
        Some(Card::new(Rank::Two, Suit::Heart)),
        Some(Card::new(Rank::Three, Suit::Club)),
    ];
    state.player_cards[0] = (
        Some(Card::new(Rank::Ace, Suit::Spade)),
        Some(Card::new(Rank::Ace, Suit::Heart)),
    );
    state.player_cards[1] = (
        Some(Card::new(Rank::King, Suit::Spade)),
        Some(Card::new(Rank::King, Suit::Heart)),
    );

    state.return_uncalled_bets();
    assert_eq!(state.pot, 600);
    assert_eq!(state.bets, vec![300, 300]);
    assert_eq!(state.players.get(&p0_id).unwrap().stack, 700);

    state.distribute_pots();
    assert_eq!(state.players.get(&p0_id).unwrap().stack, 700 + 600);
    assert_eq!(state.players.get(&p1_id).unwrap().stack, 0);
}

#[test]
fn test_side_pot_with_split_pot() {
    let (mut state, p_ids) = setup_test_game(&[50, 500, 500]);
    let p0_id = p_ids[0];
    let p1_id = p_ids[1];
    let p2_id = p_ids[2];

    state.phase = GamePhase::Showdown;
    state.hand_player_order = p_ids.clone();
    state.player_indices = p_ids.iter().enumerate().map(|(i, id)| (*id, i)).collect();
    state.player_cards = vec![(None, None); 3];

    state.pot = 50 + 500 + 500;
    state.bets = vec![50, 500, 500];
    state.players.get_mut(&p0_id).unwrap().stack = 0;
    state.players.get_mut(&p1_id).unwrap().stack = 0;
    state.players.get_mut(&p2_id).unwrap().stack = 0;
    state.players.get_mut(&p0_id).unwrap().state = PlayerState::AllIn;
    state.players.get_mut(&p1_id).unwrap().state = PlayerState::Playing;
    state.players.get_mut(&p2_id).unwrap().state = PlayerState::Playing;

    state.community_cards = vec![
        Some(Card::new(Rank::Ten, Suit::Spade)),
        Some(Card::new(Rank::Jack, Suit::Spade)),
        Some(Card::new(Rank::Queen, Suit::Spade)),
        Some(Card::new(Rank::Two, Suit::Heart)),
        Some(Card::new(Rank::Three, Suit::Club)),
    ];
    state.player_cards[0] = (
        Some(Card::new(Rank::Ace, Suit::Spade)),
        Some(Card::new(Rank::King, Suit::Spade)),
    );
    state.player_cards[1] = (
        Some(Card::new(Rank::Nine, Suit::Spade)),
        Some(Card::new(Rank::Eight, Suit::Spade)),
    );
    state.player_cards[2] = (
        Some(Card::new(Rank::Nine, Suit::Spade)),
        Some(Card::new(Rank::Eight, Suit::Spade)),
    );

    state.handle_showdown();

    assert_eq!(state.players.get(&p0_id).unwrap().stack, 150);

    assert_eq!(state.players.get(&p1_id).unwrap().stack, 450);
    assert_eq!(state.players.get(&p2_id).unwrap().stack, 450);
}

#[test]
fn test_big_blind_option_to_raise() {
    let (mut state, p_ids) = setup_test_game(&[1000, 1000, 1000]);
    state.start_new_hand();

    let p0_id = p_ids[0];
    let p1_id = p_ids[1];
    let p2_id = p_ids[2];

    state.handle_player_action(p0_id, PlayerAction::Call);
    assert_eq!(state.current_player_id(), Some(p1_id));

    state.handle_player_action(p1_id, PlayerAction::Call);
    assert_eq!(state.current_player_id(), Some(p2_id));

    assert_eq!(state.check_betting_round_over(), false);

    state.handle_player_action(p2_id, PlayerAction::BetOrRaise(40));
    assert_eq!(state.max_bet, 60);

    assert_eq!(state.current_player_id(), Some(p0_id));
    assert_eq!(
        state.players.get(&p0_id).unwrap().state,
        PlayerState::Playing
    );

    state.handle_player_action(p0_id, PlayerAction::Fold);
    state.handle_player_action(p1_id, PlayerAction::Call);

    assert_eq!(state.phase, GamePhase::Flop);
    assert_eq!(state.pot, 60 + 60 + 20);
}

#[test]
fn test_game_ends_when_one_player_has_chips() {
    let (mut state, p_ids) = setup_test_game(&[2000, 0, 0]);
    let p0_id = p_ids[0];
    let p1_id = p_ids[1];
    let p2_id = p_ids[2];

    state.players.get_mut(&p0_id).unwrap().state = PlayerState::Playing;
    state.players.get_mut(&p1_id).unwrap().state = PlayerState::Playing;
    state.players.get_mut(&p2_id).unwrap().state = PlayerState::Playing;

    state.start_new_hand();

    assert_eq!(state.hand_player_order.len(), 1);
    assert_eq!(state.phase, GamePhase::WaitingForPlayers);
}

#[test]
fn test_tick_for_offline_player_folds_when_facing_a_bet() {
    let (mut state, _p_ids) = setup_test_game(&[1000, 1000, 1000]);

    state.seated_players.rotate_left(0);
    state.start_new_hand();

    let p0_id = state.hand_player_order[0];
    let p1_id = state.hand_player_order[1];
    assert_eq!(state.current_player_id(), Some(p0_id));

    state.players.get_mut(&p0_id).unwrap().state = PlayerState::Offline;

    assert_eq!(state.tick().0, true);

    assert_eq!(
        state.players.get(&p0_id).unwrap().state,
        PlayerState::Folded
    );

    assert_eq!(state.current_player_id(), Some(p1_id));

    assert_eq!(state.tick().0, false);
}

#[test]
fn test_scenario_fold_to_win() {
    let (mut state, p_ids) = setup_test_game(&[10000, 10000, 10000]);
    state.small_blind = 100;
    state.big_blind = 200;
    let p_dealer = p_ids[0];
    let p_sb = p_ids[1];
    let p_bb = p_ids[2];

    let messages = state.start_new_hand();
    assert_eq!(messages.len(), 4);
    assert!(matches!(messages[0], ServerMessage::HandStarted { .. }));
    assert!(
        matches!(messages[1], ServerMessage::PlayerActed { player_id, action: PlayerAction::BetOrRaise(100), .. } if player_id == p_sb)
    );
    assert!(
        matches!(messages[2], ServerMessage::PlayerActed { player_id, action: PlayerAction::BetOrRaise(200), .. } if player_id == p_bb)
    );
    assert!(
        matches!(messages[3], ServerMessage::NextToAct { player_id, .. } if player_id == p_dealer)
    );
    assert_eq!(state.pot, 300);

    let messages = state.handle_player_action(p_dealer, PlayerAction::Fold);
    assert_eq!(messages.len(), 2);
    assert!(
        matches!(messages[0], ServerMessage::PlayerActed { player_id, action: PlayerAction::Fold, .. } if player_id == p_dealer)
    );
    assert!(matches!(messages[1], ServerMessage::NextToAct { player_id, .. } if player_id == p_sb));

    let messages = state.handle_player_action(p_sb, PlayerAction::Fold);
    assert_eq!(messages.len(), 2);
    assert!(
        matches!(messages[0], ServerMessage::PlayerActed { player_id, action: PlayerAction::Fold, .. } if player_id == p_sb)
    );

    if let ServerMessage::Showdown { results } = &messages[1] {
        assert_eq!(results.len(), 1);
        let winner_result = &results[0];
        assert_eq!(winner_result.player_id, p_bb);
        assert_eq!(winner_result.winnings, 300);
        assert!(winner_result.cards.is_none());
        assert!(winner_result.hand_rank.is_none());
    } else {
        panic!("Expected a Showdown message");
    }

    assert_eq!(state.players.get(&p_bb).unwrap().stack, 9800 + 300);
}

#[test]
fn test_scenario_preflop_all_in_and_call() {
    let (mut state, p_ids) = setup_test_game(&[10000, 150]);
    state.small_blind = 100;
    state.big_blind = 200;
    let p_sb = p_ids[0];
    let p_bb = p_ids[1];

    state.players.get_mut(&p_bb).unwrap().stack = 150;

    let messages = state.start_new_hand();
    assert_eq!(messages.len(), 4);
    assert!(
        matches!(messages[1], ServerMessage::PlayerActed { player_id, new_stack: 9900, .. } if player_id == p_sb)
    );
    assert!(
        matches!(messages[2], ServerMessage::PlayerActed { player_id, new_stack: 0, total_bet_this_round: 150, .. } if player_id == p_bb)
    );
    assert!(matches!(messages[3], ServerMessage::NextToAct { player_id, .. } if player_id == p_sb));
    assert_eq!(state.pot, 250);
    assert_eq!(state.max_bet, 200);

    let messages = state.handle_player_action(p_sb, PlayerAction::Call);
    assert_eq!(messages.len(), 6);

    assert!(
        matches!(messages[0], ServerMessage::PlayerActed { player_id, action: PlayerAction::Call, new_stack: 9800, .. } if player_id == p_sb)
    );
    assert!(
        matches!(messages[1].clone(), ServerMessage::CommunityCardsDealt { phase: GamePhase::Flop, cards } if cards.len() == 3)
    );
    assert!(
        matches!(messages[2].clone(), ServerMessage::CommunityCardsDealt { phase: GamePhase::Turn, cards } if cards.len() == 1)
    );
    assert!(
        matches!(messages[3].clone(), ServerMessage::CommunityCardsDealt { phase: GamePhase::River, cards } if cards.len() == 1)
    );
    assert!(
        matches!(messages[4].clone(), ServerMessage::BetReturned { player_id, amount: 50, new_stack: 9850 } if player_id == p_sb)
    );

    if let ServerMessage::Showdown { results } = &messages[5] {
        assert_eq!(results.len(), 2);
        assert!(results.iter().any(|r| r.player_id == p_sb));
        assert!(results.iter().any(|r| r.player_id == p_bb));
        let total_winnings: u32 = results.iter().map(|r| r.winnings).sum();
        assert_eq!(total_winnings, 300);

        for res in results {
            assert!(res.cards.is_some());
            assert!(res.hand_rank.is_some());
        }
    } else {
        panic!("Expected a Showdown message");
    }
}
