use poker_eden_core::{
    create_deck, deal_from_deck, find_best_hand, generate_random_hand, side_pot_winnings, Card,
    GamePhase, GameState, HandError, HandRank, Player, PlayerAction, PlayerActionType, PlayerId,
    PlayerState, Rank, RuleViolation, ServerMessage, StartRefusal, Suit,
};
use std::collections::{HashMap, VecDeque};

fn table(stacks: &[u32], small_blind: u32, big_blind: u32) -> (GameState, Vec<PlayerId>) {
    let mut players = HashMap::new();
    let mut seated_players = VecDeque::new();
    let mut ids = Vec::new();
    for (i, &stack) in stacks.iter().enumerate() {
        let id = 1000 + i as u128;
        players.insert(
            id,
            Player {
                id,
                nickname: format!("p{}", i),
                stack,
                wins: 0,
                losses: 0,
                state: PlayerState::Waiting,
                seat_id: Some(i as u8),
            },
        );
        seated_players.push_back(id);
        ids.push(id);
    }
    let state = GameState { players, seated_players, small_blind, big_blind, ..Default::default() };
    (state, ids)
}

fn chips(state: &GameState) -> u64 {
    let stacks: u64 =
        state.hand_player_order.iter().map(|id| state.players[id].stack as u64).sum();
    stacks + state.pot as u64
}

fn error_text(msgs: &[ServerMessage]) -> String {
    assert_eq!(msgs.len(), 1);
    match &msgs[0] {
        ServerMessage::Error { message } => message.clone(),
        other => panic!("expected an error, got {:?}", other),
    }
}

fn ordered_deck(k: usize) -> Vec<Card> {
    deal_from_deck(&create_deck(), k)
}

fn check_invariants(state: &GameState, total: u64) {
    assert_eq!(chips(state), total);
    assert!(state.is_showdown_ready());
    assert!(state.is_betting_ready());
    let n = state.hand_player_order.len();
    assert_eq!(state.bets.len(), n);
    assert_eq!(state.pot as u64, state.bets.iter().map(|b| *b as u64).sum::<u64>());
    for i in 0..n {
        assert!(state.bets[i] <= state.max_bet);
        assert!(state.player_cards[i].0.is_some() && state.player_cards[i].1.is_some());
    }
    assert!(state.last_raise_amount >= state.big_blind);
    if matches!(
        state.phase,
        GamePhase::PreFlop | GamePhase::Flop | GamePhase::Turn | GamePhase::River
    ) {
        let cur = state.hand_player_order[state.cur_player_idx];
        assert_eq!(state.players[&cur].state, PlayerState::Playing);
    }
}

#[test]
fn invariants_hold_through_a_hand() {
    let (mut state, ids) = table(&[2000, 1500, 1000, 500], 10, 20);
    state.start_new_hand_with_deck(ordered_deck(4));
    let total = 5000u64;
    check_invariants(&state, total);
    let script: Vec<(usize, PlayerAction)> = vec![
        (3, PlayerAction::BetOrRaise(60)),
        (0, PlayerAction::Call),
        (1, PlayerAction::Fold),
        (2, PlayerAction::Call),
        (2, PlayerAction::Check),
        (3, PlayerAction::BetOrRaise(100)),
        (0, PlayerAction::BetOrRaise(300)),
        (2, PlayerAction::Fold),
        (3, PlayerAction::Call),
        (3, PlayerAction::Check),
        (0, PlayerAction::Check),
    ];
    for (who, action) in script {
        let msgs = state.handle_player_action(ids[who], action);
        assert!(!matches!(msgs[0], ServerMessage::Error { .. }), "{:?}", msgs);
        check_invariants(&state, total);
    }
    assert_eq!(state.phase, GamePhase::River);
    assert_eq!(state.current_player_id(), Some(ids[3]));
}

#[test]
fn chips_are_kept_at_a_showdown_with_side_pots() {
    let (mut state, ids) = table(&[50, 200, 500], 10, 20);
    state.start_new_hand_with_deck(ordered_deck(3));
    state.handle_player_action(ids[0], PlayerAction::BetOrRaise(50));
    state.handle_player_action(ids[1], PlayerAction::BetOrRaise(190));
    state.handle_player_action(ids[2], PlayerAction::Call);
    assert_eq!(state.phase, GamePhase::Showdown);
    assert_eq!(state.pot, 0);
    let stacks: u64 = ids.iter().map(|id| state.players[id].stack as u64).sum();
    assert_eq!(stacks, 750);
}

#[test]
fn chips_of_a_player_who_folded_stay_in_the_pot() {
    let (mut state, ids) = table(&[1000, 5, 1000], 10, 20);
    state.start_new_hand_with_deck(ordered_deck(3));
    assert_eq!(state.players[&ids[1]].state, PlayerState::AllIn);
    state.handle_player_action(ids[0], PlayerAction::Call);
    assert_eq!(state.current_player_id(), Some(ids[2]));
    let msgs = state.handle_player_action(ids[2], PlayerAction::Fold);
    assert_eq!(state.phase, GamePhase::Showdown);
    assert!(!msgs.iter().any(|m| matches!(m, ServerMessage::BetReturned { .. })));
    assert_eq!(state.pot, 0);
    let stacks: u64 = ids.iter().map(|id| state.players[id].stack as u64).sum();
    assert_eq!(stacks, 2005);
    assert_eq!(state.players[&ids[2]].stack, 980);
}

fn three_way_showdown(states: [PlayerState; 3], bets: [u32; 3], stacks: [u32; 3]) -> (GameState, Vec<PlayerId>) {
    let (mut state, ids) = table(&stacks, 10, 20);
    state.phase = GamePhase::Showdown;
    state.hand_player_order = ids.clone();
    state.player_indices = ids.iter().enumerate().map(|(i, id)| (*id, i)).collect();
    state.bets = bets.to_vec();
    state.pot = bets.iter().sum();
    state.max_bet = *bets.iter().max().unwrap();
    state.player_has_acted = vec![true; 3];
    for i in 0..3 {
        state.players.get_mut(&ids[i]).unwrap().state = states[i];
    }
    state.community_cards = vec![
        Some(Card::new(Rank::Ten, Suit::Spade)),
        Some(Card::new(Rank::Jack, Suit::Spade)),
        Some(Card::new(Rank::Queen, Suit::Spade)),
        Some(Card::new(Rank::Two, Suit::Heart)),
        Some(Card::new(Rank::Three, Suit::Club)),
    ];
    state.player_cards = vec![
        (Some(Card::new(Rank::Ace, Suit::Club)), Some(Card::new(Rank::Ace, Suit::Heart))),
        (Some(Card::new(Rank::King, Suit::Club)), Some(Card::new(Rank::King, Suit::Heart))),
        (Some(Card::new(Rank::Nine, Suit::Club)), Some(Card::new(Rank::Nine, Suit::Heart))),
    ];
    (state, ids)
}

#[test]
fn uncalled_bet_is_measured_against_a_player_who_folded() {
    let (mut state, ids) = three_way_showdown(
        [PlayerState::AllIn, PlayerState::Folded, PlayerState::Playing],
        [50, 200, 500],
        [0, 300, 500],
    );
    assert!(state.is_showdown_ready());
    let msgs = state.return_uncalled_bets();
    assert_eq!(msgs.len(), 1);
    assert!(matches!(
        &msgs[0],
        ServerMessage::BetReturned { player_id, amount: 300, new_stack: 800 } if *player_id == ids[2]
    ));
    assert_eq!(state.pot, 450);
    assert_eq!(state.bets, vec![50, 200, 200]);
    state.distribute_pots();
    assert_eq!(state.pot, 0);
    assert_eq!(state.players[&ids[0]].stack, 150);
    assert_eq!(state.players[&ids[1]].stack, 300);
    assert_eq!(state.players[&ids[2]].stack, 800 + 300);
}

#[test]
fn tied_highest_commitments_return_nothing() {
    let (mut state, _) = three_way_showdown(
        [PlayerState::AllIn, PlayerState::Folded, PlayerState::Playing],
        [50, 500, 500],
        [0, 0, 500],
    );
    let msgs = state.return_uncalled_bets();
    assert!(msgs.is_empty());
    assert_eq!(state.pot, 1050);
    assert_eq!(state.bets, vec![50, 500, 500]);
}

#[test]
fn fold_on_the_river_keeps_the_chips() {
    let (mut state, ids) = three_way_showdown(
        [PlayerState::AllIn, PlayerState::Playing, PlayerState::Playing],
        [50, 200, 500],
        [0, 300, 500],
    );
    state.phase = GamePhase::River;
    state.cur_player_idx = 1;
    state.last_raise_amount = 300;
    state.player_has_acted = vec![true, true, true];
    assert!(state.is_betting_ready());
    let before = chips(&state);
    let msgs = state.handle_player_action(ids[1], PlayerAction::Fold);
    assert_eq!(state.phase, GamePhase::Showdown);
    assert!(msgs.iter().any(|m| matches!(
        m,
        ServerMessage::BetReturned { player_id, amount: 300, new_stack: 800 } if *player_id == ids[2]
    )));
    assert_eq!(chips(&state), before);
    assert_eq!(state.players[&ids[0]].stack, 150);
    assert_eq!(state.players[&ids[1]].stack, 300);
    assert_eq!(state.players[&ids[2]].stack, 1100);
}

#[test]
fn hand_built_states_are_tested_for_fitness() {
    let (mut state, ids) = table(&[1000, 1000, 1000], 10, 20);
    assert!(!state.is_betting_ready());
    state.start_new_hand_with_deck(ordered_deck(3));
    assert!(state.is_betting_ready());
    state.bets[0] = 1;
    assert!(!state.is_showdown_ready());
    state.bets[0] = 0;
    assert!(state.is_betting_ready());
    state.max_bet = 5;
    assert!(state.is_showdown_ready());
    assert!(!state.is_betting_ready());
    state.max_bet = 20;
    state.player_indices.insert(5, 1);
    assert!(!state.is_showdown_ready());
    state.player_indices.remove(&5);
    state.hand_player_order[2] = ids[0];
    assert!(!state.is_showdown_ready());
    state.hand_player_order[2] = ids[2];
    state.deck.clear();
    assert!(!state.is_betting_ready());
    assert!(state.is_showdown_ready());
}

#[test]
fn same_seven_cards_give_the_same_rank_twice() {
    let cards = [
        Card::new(Rank::Ace, Suit::Heart),
        Card::new(Rank::King, Suit::Heart),
        Card::new(Rank::Ten, Suit::Heart),
        Card::new(Rank::Two, Suit::Heart),
        Card::new(Rank::Five, Suit::Heart),
        Card::new(Rank::Ace, Suit::Spade),
        Card::new(Rank::Ten, Suit::Club),
    ];
    assert_eq!(find_best_hand(&cards), find_best_hand(&cards));
}

#[test]
fn best_hand_does_not_depend_on_the_order_of_the_cards() {
    let cards = vec![
        Card::new(Rank::Ten, Suit::Spade),
        Card::new(Rank::Ten, Suit::Heart),
        Card::new(Rank::Jack, Suit::Club),
        Card::new(Rank::Jack, Suit::Diamond),
        Card::new(Rank::Ten, Suit::Diamond),
        Card::new(Rank::Two, Suit::Club),
        Card::new(Rank::Three, Suit::Spade),
    ];
    let want = Ok(HandRank::FullHouse(Rank::Ten, Rank::Jack));
    for shift in 0..7 {
        let mut turned = cards.clone();
        turned.rotate_left(shift);
        assert_eq!(find_best_hand(&turned), want);
        turned.reverse();
        assert_eq!(find_best_hand(&turned), want);
        turned.swap(1, 5);
        assert_eq!(find_best_hand(&turned), want);
    }
}

#[test]
fn hand_ranks_are_totally_ordered() {
    let ranks = [
        HandRank::HighCard(Rank::King, Rank::Queen, Rank::Jack, Rank::Nine, Rank::Seven),
        HandRank::HighCard(Rank::Ace, Rank::Queen, Rank::Jack, Rank::Nine, Rank::Seven),
        HandRank::OnePair(Rank::Two, Rank::Ace, Rank::King, Rank::Queen),
        HandRank::TwoPair(Rank::Three, Rank::Two, Rank::Ace),
        HandRank::ThreeOfAKind(Rank::Two, Rank::Ace, Rank::King),
        HandRank::Straight(Rank::Five),
        HandRank::Straight(Rank::Six),
        HandRank::Flush(Rank::Seven, Rank::Five, Rank::Four, Rank::Three, Rank::Two),
        HandRank::FullHouse(Rank::Two, Rank::Three),
        HandRank::FourOfAKind(Rank::Two, Rank::Three),
        HandRank::StraightFlush(Rank::Five),
        HandRank::RoyalFlush,
    ];
    for i in 0..ranks.len() {
        assert!(ranks[i] == ranks[i]);
        assert!(!(ranks[i] < ranks[i]));
        for j in (i + 1)..ranks.len() {
            assert!(ranks[i] < ranks[j], "{:?} < {:?}", ranks[i], ranks[j]);
            assert!(ranks[j] > ranks[i]);
            assert!(ranks[i].strength() < ranks[j].strength());
            assert!(ranks[j].beats(&ranks[i]));
            assert!(!ranks[i].beats(&ranks[j]));
        }
    }
}

#[test]
fn invalid_hand_input_is_refused() {
    let c = |r, s| Card::new(r, s);
    let four = [
        c(Rank::Two, Suit::Spade),
        c(Rank::Three, Suit::Spade),
        c(Rank::Four, Suit::Spade),
        c(Rank::Five, Suit::Spade),
    ];
    assert_eq!(find_best_hand(&four), Err(HandError::InvalidInput));
    let eight = [
        c(Rank::Two, Suit::Spade),
        c(Rank::Three, Suit::Spade),
        c(Rank::Four, Suit::Spade),
        c(Rank::Five, Suit::Spade),
        c(Rank::Six, Suit::Heart),
        c(Rank::Seven, Suit::Heart),
        c(Rank::Eight, Suit::Heart),
        c(Rank::Nine, Suit::Heart),
    ];
    assert_eq!(find_best_hand(&eight), Err(HandError::InvalidInput));
    let twice = [
        c(Rank::Two, Suit::Spade),
        c(Rank::Three, Suit::Spade),
        c(Rank::Four, Suit::Spade),
        c(Rank::Five, Suit::Spade),
        c(Rank::Two, Suit::Spade),
    ];
    assert_eq!(find_best_hand(&twice), Err(HandError::InvalidInput));
    let five = [
        c(Rank::Two, Suit::Spade),
        c(Rank::Three, Suit::Spade),
        c(Rank::Four, Suit::Spade),
        c(Rank::Five, Suit::Spade),
        c(Rank::Seven, Suit::Heart),
    ];
    assert_eq!(
        find_best_hand(&five),
        Ok(HandRank::HighCard(Rank::Seven, Rank::Five, Rank::Four, Rank::Three, Rank::Two))
    );
}

#[test]
fn replay_with_the_same_deck_tells_the_same_events() {
    let run = || {
        let (mut state, ids) = table(&[1000, 1000, 1000], 10, 20);
        let mut log = Vec::new();
        log.push(format!("{:?}", state.start_new_hand_with_deck(ordered_deck(3))));
        for (who, action) in [
            (0, PlayerAction::Call),
            (1, PlayerAction::BetOrRaise(50)),
            (2, PlayerAction::Fold),
            (0, PlayerAction::Call),
            (1, PlayerAction::Check),
            (0, PlayerAction::Check),
            (1, PlayerAction::Check),
            (0, PlayerAction::Check),
            (1, PlayerAction::BetOrRaise(100)),
            (0, PlayerAction::Call),
        ] {
            log.push(format!("{:?}", state.handle_player_action(ids[who], action)));
        }
        assert_eq!(state.phase, GamePhase::Showdown);
        log
    };
    assert_eq!(run(), run());
}

#[test]
fn heads_up_dealer_acts_last_after_the_flop() {
    let (mut state, ids) = table(&[1000, 1000], 10, 20);
    let msgs = state.start_new_hand_with_deck(ordered_deck(2));
    assert!(matches!(msgs[1], ServerMessage::PlayerActed { player_id, total_bet_this_round: 10, .. } if player_id == ids[0]));
    assert!(matches!(msgs[2], ServerMessage::PlayerActed { player_id, total_bet_this_round: 20, .. } if player_id == ids[1]));
    assert_eq!(state.current_player_id(), Some(ids[0]));
    state.handle_player_action(ids[0], PlayerAction::Call);
    state.handle_player_action(ids[1], PlayerAction::Check);
    assert_eq!(state.phase, GamePhase::Flop);
    assert_eq!(state.current_player_id(), Some(ids[1]));
    let msgs = state.handle_player_action(ids[1], PlayerAction::Check);
    assert!(matches!(msgs[1], ServerMessage::NextToAct { player_id, .. } if player_id == ids[0]));
    state.handle_player_action(ids[0], PlayerAction::Check);
    assert_eq!(state.phase, GamePhase::Turn);
}

#[test]
fn short_all_in_does_not_reopen_the_betting() {
    let (mut state, ids) = table(&[1000, 1000, 200], 10, 20);
    state.start_new_hand_with_deck(ordered_deck(3));
    state.handle_player_action(ids[0], PlayerAction::Call);
    state.handle_player_action(ids[1], PlayerAction::Call);
    state.handle_player_action(ids[2], PlayerAction::Check);
    assert_eq!(state.phase, GamePhase::Flop);
    assert_eq!(state.current_player_id(), Some(ids[1]));
    state.handle_player_action(ids[1], PlayerAction::BetOrRaise(60));
    assert_eq!(state.max_bet, 80);
    assert_eq!(state.last_raise_amount, 60);
    let msgs = state.handle_player_action(ids[2], PlayerAction::BetOrRaise(180));
    assert!(matches!(msgs[0], ServerMessage::PlayerActed { new_stack: 0, total_bet_this_round: 200, .. }));
    assert_eq!(state.max_bet, 200);
    assert_eq!(state.last_raise_amount, 120);
    assert_eq!(state.players[&ids[2]].state, PlayerState::AllIn);
    assert_eq!(state.current_player_id(), Some(ids[0]));
    let msgs = state.handle_player_action(ids[0], PlayerAction::BetOrRaise(400));
    assert!(matches!(msgs[0], ServerMessage::PlayerActed { total_bet_this_round: 420, .. }));
    assert_eq!(state.last_raise_amount, 220);
    state.handle_player_action(ids[1], PlayerAction::Call);
    assert_eq!(state.phase, GamePhase::Turn);
}

#[test]
fn player_who_matched_may_only_call_a_short_all_in() {
    let (mut state, ids) = table(&[1000, 1000, 220], 10, 20);
    state.start_new_hand_with_deck(ordered_deck(3));
    state.handle_player_action(ids[0], PlayerAction::Call);
    state.handle_player_action(ids[1], PlayerAction::Call);
    state.handle_player_action(ids[2], PlayerAction::Check);
    assert_eq!(state.phase, GamePhase::Flop);
    state.handle_player_action(ids[1], PlayerAction::Check);
    state.handle_player_action(ids[2], PlayerAction::Check);
    state.handle_player_action(ids[0], PlayerAction::BetOrRaise(60));
    let msgs = state.handle_player_action(ids[1], PlayerAction::BetOrRaise(180));
    assert!(matches!(msgs[0], ServerMessage::PlayerActed { total_bet_this_round: 200, .. }));
    assert_eq!(state.last_raise_amount, 120);
    let msgs = state.handle_player_action(ids[2], PlayerAction::BetOrRaise(200));
    assert!(matches!(msgs[0], ServerMessage::PlayerActed { total_bet_this_round: 220, new_stack: 0, .. }));
    assert_eq!(state.max_bet, 220);
    assert_eq!(state.last_raise_amount, 120);
    assert_eq!(state.current_player_id(), Some(ids[0]));
    let msgs = state.handle_player_action(ids[0], PlayerAction::Call);
    match &msgs[1] {
        ServerMessage::NextToAct { player_id, valid_actions } => {
            assert_eq!(*player_id, ids[1]);
            assert_eq!(valid_actions, &vec![PlayerActionType::Call(20), PlayerActionType::Fold]);
        },
        other => panic!("expected NextToAct, got {:?}", other),
    }
    let before_pot = state.pot;
    let msgs = state.handle_player_action(ids[1], PlayerAction::BetOrRaise(200));
    assert_eq!(error_text(&msgs), RuleViolation::RaiseNotOpen.message());
    assert_eq!(state.pot, before_pot);
    assert_eq!(state.current_player_id(), Some(ids[1]));
    state.handle_player_action(ids[1], PlayerAction::Call);
    assert_eq!(state.phase, GamePhase::Turn);
    assert_eq!(state.pot, 3 * 220);
}

#[test]
fn each_rule_violation_is_reported() {
    let (mut state, ids) = table(&[1000, 1000, 1000], 10, 20);
    state.start_new_hand_with_deck(ordered_deck(3));
    let msgs = state.handle_player_action(ids[1], PlayerAction::Call);
    assert_eq!(error_text(&msgs), "当前不该你行动");
    assert_eq!(error_text(&msgs), RuleViolation::NotYourTurn.message());
    let msgs = state.handle_player_action(ids[0], PlayerAction::Check);
    assert_eq!(error_text(&msgs), "当前有人下注 20，你至少要下注和他相等");
    let msgs = state.handle_player_action(ids[0], PlayerAction::BetOrRaise(0));
    assert_eq!(error_text(&msgs), "你只能下注你剩余的筹码 1000 或更少");
    let msgs = state.handle_player_action(ids[0], PlayerAction::BetOrRaise(1001));
    assert_eq!(error_text(&msgs), "你只能下注你剩余的筹码 1000 或更少");
    let msgs = state.handle_player_action(ids[0], PlayerAction::BetOrRaise(20));
    assert_eq!(error_text(&msgs), "你只能加注 40 或更多");
    let msgs = state.handle_player_action(ids[0], PlayerAction::BetOrRaise(39));
    assert_eq!(error_text(&msgs), "你只能加注 40 或更多");
    assert_eq!(state.pot, 30);
    assert_eq!(state.players[&ids[0]].stack, 1000);
    state.handle_player_action(ids[0], PlayerAction::Call);
    state.handle_player_action(ids[1], PlayerAction::Call);
    let msgs = state.handle_player_action(ids[2], PlayerAction::BetOrRaise(19));
    assert_eq!(error_text(&msgs), "你只能下注大盲注 20 或更多");
    assert_eq!(
        RuleViolation::RaiseBelowMinimum { minimum: 4294967295 }.message(),
        "你只能加注 4294967295 或更多"
    );
    assert_eq!(RuleViolation::CheckFacingBet { owed: 0 }.message(), "当前有人下注 0，你至少要下注和他相等");
}

#[test]
fn side_pots_are_split_by_layers() {
    let top = Some(HandRank::RoyalFlush);
    let mid = Some(HandRank::Straight(Rank::Ten));
    let low = Some(HandRank::OnePair(Rank::Two, Rank::Five, Rank::Four, Rank::Three));
    assert_eq!(side_pot_winnings(&vec![50, 200, 200], &vec![top, low, mid]), vec![150, 0, 300]);
    assert_eq!(side_pot_winnings(&vec![50, 500, 500], &vec![top, mid, mid]), vec![150, 450, 450]);
    assert_eq!(side_pot_winnings(&vec![100, 100, 101], &vec![mid, mid, None]), vec![150, 150, 0]);
    assert_eq!(side_pot_winnings(&vec![100, 100, 101], &vec![mid, mid, low]), vec![150, 150, 1]);
    assert_eq!(side_pot_winnings(&vec![5, 5, 20], &vec![mid, low, None]), vec![15, 0, 0]);
    assert_eq!(side_pot_winnings(&vec![0, 0], &vec![mid, mid]), vec![0, 0]);
    assert_eq!(side_pot_winnings(&vec![10, 10, 10], &vec![low, None, low]), vec![15, 0, 15]);
    assert_eq!(side_pot_winnings(&vec![7, 7, 7], &vec![low, low, None]), vec![11, 10, 0]);
}

#[test]
fn dealt_cards_follow_the_deal() {
    let deck = create_deck();
    assert_eq!(deck.len(), 52);
    assert_eq!(deck[0], Card::new(Rank::Two, Suit::Spade));
    assert_eq!(deck[12], Card::new(Rank::Ace, Suit::Spade));
    assert_eq!(deck[13], Card::new(Rank::Two, Suit::Heart));
    assert_eq!(deck[51], Card::new(Rank::Ace, Suit::Diamond));
    let cards = deal_from_deck(&deck, 2);
    assert_eq!(cards.len(), 9);
    assert_eq!(cards[0], deck[51]);
    assert_eq!(cards[2], deck[50]);
    assert_eq!(cards[1], deck[49]);
    assert_eq!(cards[3], deck[48]);
    assert_eq!(cards[4], deck[46]);
    assert_eq!(cards[5], deck[45]);
    assert_eq!(cards[6], deck[44]);
    assert_eq!(cards[7], deck[42]);
    assert_eq!(cards[8], deck[40]);
}

#[test]
fn random_hands_are_shuffled_and_hold_no_card_twice() {
    let unshuffled = deal_from_deck(&create_deck(), 10);
    let mut differs = false;
    for _ in 0..8 {
        let cards = generate_random_hand(10);
        assert_eq!(cards.len(), 25);
        for i in 0..cards.len() {
            for j in (i + 1)..cards.len() {
                assert_ne!(cards[i], cards[j]);
            }
        }
        if cards != unshuffled {
            differs = true;
        }
    }
    assert!(differs);
}

#[test]
fn hands_cannot_start_when_something_speaks_against_it() {
    let (mut state, _) = table(&[1000, 1000], 10, 20);
    assert_eq!(state.check_start(), None);
    state.start_new_hand();
    assert_eq!(state.check_start(), Some(StartRefusal::HandRunning));
    let (state, _) = table(&[1000, 1000], 30, 20);
    assert_eq!(state.check_start(), Some(StartRefusal::BlindsOutOfOrder));
    let (mut state, ids) = table(&[1000, 1000], 10, 20);
    state.seated_players.push_back(ids[0]);
    assert_eq!(state.check_start(), Some(StartRefusal::SeatedTwice));
    let (state, _) = table(&[10; 11], 10, 20);
    assert_eq!(state.check_start(), Some(StartRefusal::TooManyPlayers));
    let (state, _) = table(&[2_000_000_000, 2_000_000_000], 10, 20);
    assert_eq!(state.check_start(), Some(StartRefusal::TooManyChips));
    let (mut state, ids) = table(&[1000, 1000], 10, 20);
    state.players.get_mut(&ids[1]).unwrap().wins = u32::MAX;
    assert_eq!(state.check_start(), Some(StartRefusal::CountersFull));
    assert_eq!(StartRefusal::HandRunning.message(), "牌局进行中，无法开始新的一局");
}

#[test]
fn offline_and_broke_players_sit_out_the_next_hand() {
    let (mut state, ids) = table(&[1000, 0, 1000, 1000], 10, 20);
    state.players.get_mut(&ids[2]).unwrap().state = PlayerState::Offline;
    let msgs = state.start_new_hand();
    assert_eq!(msgs.len(), 4);
    assert_eq!(state.hand_player_order, vec![ids[0], ids[3]]);
    assert_eq!(state.players[&ids[1]].state, PlayerState::SittingOut);
    assert_eq!(state.players[&ids[2]].state, PlayerState::SittingOut);
    assert_eq!(state.player_indices[&ids[3]], 1);
    assert_eq!(state.player_indices.len(), 2);
    assert_eq!(state.deck.len(), 5);
    assert_eq!(state.phase, GamePhase::PreFlop);
}

#[test]
fn view_hides_the_cards_of_others_and_the_deck() {
    let (mut state, ids) = table(&[1000, 1000, 1000], 10, 20);
    state.start_new_hand_with_deck(ordered_deck(3));
    let seen = state.for_client(&ids[1]);
    assert!(seen.deck.is_empty());
    assert_eq!(seen.player_cards[1], state.player_cards[1]);
    assert_eq!(seen.player_cards[0], (None, None));
    assert_eq!(seen.player_cards[2], (None, None));
    let again = seen.for_client(&ids[1]);
    assert_eq!(format!("{:?}", again.player_cards), format!("{:?}", seen.player_cards));
    assert_eq!(again.deck, seen.deck);
    assert_eq!(again.pot, seen.pot);
    let stranger = state.for_client(&7);
    assert!(stranger.player_cards.iter().all(|c| *c == (None, None)));
    state.handle_player_action(ids[0], PlayerAction::Fold);
    state.handle_player_action(ids[1], PlayerAction::Call);
    state.handle_player_action(ids[2], PlayerAction::Check);
    for _ in 0..3 {
        state.handle_player_action(ids[1], PlayerAction::Check);
        state.handle_player_action(ids[2], PlayerAction::Check);
    }
    assert_eq!(state.phase, GamePhase::Showdown);
    let seen = state.for_client(&ids[0]);
    assert_eq!(seen.player_cards[0], state.player_cards[0]);
    assert_eq!(seen.player_cards[1], state.player_cards[1]);
    assert_eq!(seen.player_cards[2], state.player_cards[2]);
    let seen = state.for_client(&ids[1]);
    assert_eq!(seen.player_cards[0], (None, None));
    assert_eq!(state.get_players_in_hand(), vec![ids[1], ids[2]]);
}

#[test]
fn tick_checks_for_an_offline_player_who_owes_nothing() {
    let (mut state, ids) = table(&[1000, 1000, 1000], 10, 20);
    state.start_new_hand_with_deck(ordered_deck(3));
    state.handle_player_action(ids[0], PlayerAction::Call);
    state.handle_player_action(ids[1], PlayerAction::Call);
    state.players.get_mut(&ids[2]).unwrap().state = PlayerState::Offline;
    let (did, msgs) = state.tick();
    assert!(did);
    assert!(matches!(msgs[0], ServerMessage::PlayerActed { action: PlayerAction::Check, .. }));
    assert_eq!(state.phase, GamePhase::Flop);
    let (mut idle, _) = table(&[1000, 1000], 10, 20);
    let (did, msgs) = idle.tick();
    assert!(!did);
    assert!(msgs.is_empty());
}

#[test]
fn uncalled_part_of_the_highest_commitment_goes_back_to_whoever_made_it() {
    let (mut state, ids) = three_way_showdown(
        [PlayerState::AllIn, PlayerState::Folded, PlayerState::Playing],
        [50, 500, 200],
        [0, 100, 500],
    );
    let before = chips(&state);
    let msgs = state.handle_showdown();
    assert!(matches!(
        &msgs[0],
        ServerMessage::BetReturned { player_id, amount: 300, new_stack: 400 } if *player_id == ids[1]
    ));
    assert!(matches!(&msgs[1], ServerMessage::Showdown { results } if results.len() == 2));
    assert_eq!(msgs.len(), 2);
    assert_eq!(state.pot, 0);
    assert_eq!(chips(&state), before);
    assert_eq!(state.players[&ids[0]].stack, 150);
    assert_eq!(state.players[&ids[1]].stack, 400);
    assert_eq!(state.players[&ids[2]].stack, 500 + 300);
}
