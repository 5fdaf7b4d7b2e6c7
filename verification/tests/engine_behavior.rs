use poker_game::{
    bet, call, check, count_active_players, evaluate_poker_hand, fold, showdown, ErrorCode,
    PlayerState, Round, Table, TableStatus,
};

fn seat(player: u64, chips: u64) -> PlayerState {
    PlayerState {
        player,
        chips,
        is_active: true,
        is_folded: false,
        is_all_in: false,
        current_bet: 0,
        cards: (0, 0),
    }
}

fn empty_seat() -> PlayerState {
    PlayerState {
        player: 0,
        chips: 0,
        is_active: false,
        is_folded: false,
        is_all_in: false,
        current_bet: 0,
        cards: (0, 0),
    }
}

fn playing_table(players: Vec<u64>, seats: Vec<PlayerState>) -> Table {
    let count = players.iter().filter(|p| **p != 0).count() as u8;
    let max = players.len() as u8;
    Table {
        table_id: String::from("t"),
        host: players[0],
        buy_in: 1000,
        small_blind: 10,
        big_blind: 20,
        max_players: max,
        is_private: false,
        status: TableStatus::Playing,
        pot: 0,
        players,
        seats,
        player_count: count,
        current_player_index: 0,
        dealer_index: 0,
        round: Round::PreFlop,
        highest_bet: 0,
        community_cards: vec![0, 0, 0, 0, 0],
    }
}

fn total_funds(t: &Table) -> u128 {
    t.pot as u128 + t.seats.iter().map(|s| s.chips as u128).sum::<u128>()
}

#[test]
fn check_completes_round_and_advances_one_step() {
    // bets [A:0, B:0] with highest_bet 0: a check completes the round,
    // advances it exactly one step and leaves every bet at zero
    let mut t = playing_table(vec![1, 2], vec![seat(1, 500), seat(2, 500)]);
    assert_eq!(check(&mut t, 1), Ok(()));
    assert_eq!(t.round, Round::Flop);
    assert!(t.seats.iter().all(|s| s.current_bet == 0));
    assert_eq!(t.highest_bet, 0);
    // the turn went to the first occupied seat after the dealer
    assert_eq!(t.current_player_index, 1);
    // the next check advances the round exactly one more step
    assert_eq!(check(&mut t, 2), Ok(()));
    assert_eq!(t.round, Round::Turn);
}

#[test]
fn round_sequence_stops_at_showdown() {
    let mut t = playing_table(vec![1, 2], vec![seat(1, 500), seat(2, 500)]);
    t.round = Round::River;
    assert_eq!(check(&mut t, 1), Ok(()));
    assert_eq!(t.round, Round::Showdown);
    assert_eq!(check(&mut t, 2), Ok(()));
    assert_eq!(t.round, Round::Showdown);
}

#[test]
fn minimum_raise_rule() {
    // highest_bet 100 and big_blind 20: a bet of 110 fails, a bet of 120
    // succeeds
    let mut t = playing_table(
        vec![1, 2, 3],
        vec![seat(1, 500), seat(2, 500), seat(3, 500)],
    );
    t.highest_bet = 100;
    t.seats[2].current_bet = 100;
    let before = t.clone();
    assert_eq!(bet(&mut t, 1, 110), Err(ErrorCode::BetTooSmall));
    assert_eq!(t, before);
    assert_eq!(bet(&mut t, 1, 120), Ok(()));
    assert_eq!(t.seats[0].current_bet, 120);
    assert_eq!(t.seats[0].chips, 380);
    assert_eq!(t.pot, 120);
    assert_eq!(t.highest_bet, 120);
}

#[test]
fn bet_matching_highest_is_a_call_equivalent() {
    let mut t = playing_table(
        vec![1, 2, 3],
        vec![seat(1, 500), seat(2, 500), seat(3, 500)],
    );
    t.highest_bet = 100;
    t.seats[2].current_bet = 100;
    assert_eq!(bet(&mut t, 1, 100), Ok(()));
    assert_eq!(t.seats[0].current_bet, 100);
    assert_eq!(t.highest_bet, 100);
}

#[test]
fn bet_below_committed_bet_is_an_arithmetic_error() {
    let mut t = playing_table(
        vec![1, 2, 3],
        vec![seat(1, 500), seat(2, 500), seat(3, 500)],
    );
    t.highest_bet = 50;
    t.seats[0].current_bet = 50;
    t.seats[1].current_bet = 50;
    let before = t.clone();
    assert_eq!(bet(&mut t, 1, 10), Err(ErrorCode::ArithmeticError));
    assert_eq!(t, before);
}

#[test]
fn bet_without_enough_chips_fails() {
    let mut t = playing_table(
        vec![1, 2, 3],
        vec![seat(1, 30), seat(2, 500), seat(3, 500)],
    );
    let before = t.clone();
    assert_eq!(bet(&mut t, 1, 40), Err(ErrorCode::InsufficientChips));
    assert_eq!(t, before);
}

#[test]
fn all_in_on_call() {
    // a seat with 30 chips facing 50 ends with no chips, its bet grown by
    // 30, marked all-in, and excluded from the completion test afterwards
    let mut t = playing_table(
        vec![1, 2, 3],
        vec![seat(1, 500), seat(2, 30), seat(3, 500)],
    );
    t.highest_bet = 50;
    t.seats[0].current_bet = 50;
    t.pot = 50;
    t.current_player_index = 1;
    let funds = total_funds(&t);
    assert_eq!(call(&mut t, 2), Ok(()));
    assert_eq!(t.seats[1].chips, 0);
    assert_eq!(t.seats[1].current_bet, 30);
    assert!(t.seats[1].is_all_in);
    assert_eq!(t.pot, 80);
    assert_eq!(t.round, Round::PreFlop);
    assert_eq!(total_funds(&t), funds);
    // seat 3 matches the bet; the all-in seat's unmatched bet does not
    // block round completion
    assert_eq!(call(&mut t, 3), Ok(()));
    assert_eq!(t.round, Round::Flop);
    assert!(t.seats.iter().all(|s| s.current_bet == 0));
}

#[test]
fn call_with_exact_chips_is_not_all_in() {
    let mut t = playing_table(vec![1, 2], vec![seat(1, 500), seat(2, 50)]);
    t.highest_bet = 50;
    t.seats[0].current_bet = 50;
    t.current_player_index = 1;
    assert_eq!(call(&mut t, 2), Ok(()));
    assert!(!t.seats[1].is_all_in);
}

#[test]
fn fold_to_one_winner_awards_whole_pot() {
    // three seats, two fold in sequence: the remaining seat gains exactly
    // the whole pot and the table finishes without a showdown call
    let mut t = playing_table(
        vec![1, 2, 3],
        vec![seat(1, 100), seat(2, 100), seat(3, 100)],
    );
    t.pot = 90;
    let funds = total_funds(&t);
    assert_eq!(fold(&mut t, 1), Ok(()));
    assert_eq!(t.status, TableStatus::Playing);
    assert_eq!(count_active_players(&t), 2);
    assert_eq!(fold(&mut t, 2), Ok(()));
    assert_eq!(t.status, TableStatus::Finished);
    assert_eq!(t.seats[2].chips, 190);
    assert_eq!(t.pot, 0);
    assert_eq!(total_funds(&t), funds);
}

#[test]
fn showdown_split_with_remainder() {
    // pot 100 with three tied winners in scan order [0, 2, 3]: the first
    // receives 34, the others 33 each
    let mut t = playing_table(
        vec![1, 2, 3, 4],
        vec![seat(1, 0), seat(2, 0), seat(3, 0), seat(4, 0)],
    );
    t.seats[1].is_folded = true;
    t.pot = 100;
    t.round = Round::Showdown;
    let funds = total_funds(&t);
    assert_eq!(showdown(&mut t, 1), Ok(()));
    assert_eq!(t.seats[0].chips, 34);
    assert_eq!(t.seats[1].chips, 0);
    assert_eq!(t.seats[2].chips, 33);
    assert_eq!(t.seats[3].chips, 33);
    assert_eq!(t.pot, 0);
    assert_eq!(t.status, TableStatus::Finished);
    assert_eq!(total_funds(&t), funds);
}

#[test]
fn showdown_outside_showdown_round_fails() {
    let mut t = playing_table(vec![1, 2], vec![seat(1, 100), seat(2, 100)]);
    let before = t.clone();
    assert_eq!(showdown(&mut t, 1), Err(ErrorCode::NotShowdownRound));
    assert_eq!(t, before);
}

#[test]
fn showdown_requires_host() {
    let mut t = playing_table(vec![1, 2], vec![seat(1, 100), seat(2, 100)]);
    t.round = Round::Showdown;
    assert_eq!(showdown(&mut t, 2), Err(ErrorCode::NotTableHost));
}

#[test]
fn showdown_with_no_eligible_seat_is_rejected() {
    let mut t = playing_table(vec![1, 2], vec![seat(1, 100), seat(2, 100)]);
    t.round = Round::Showdown;
    t.seats[0].is_folded = true;
    t.seats[1].is_folded = true;
    let before = t.clone();
    assert_eq!(showdown(&mut t, 1), Err(ErrorCode::NoEligibleWinner));
    assert_eq!(t, before);
}

#[test]
fn turn_integrity_rejects_out_of_turn_actions() {
    // an action from any identity other than the seat at the turn index
    // always fails and never mutates state
    let mut t = playing_table(
        vec![1, 2, 3],
        vec![seat(1, 500), seat(2, 500), seat(3, 500)],
    );
    let before = t.clone();
    assert_eq!(bet(&mut t, 2, 40), Err(ErrorCode::NotPlayerTurn));
    assert_eq!(t, before);
    assert_eq!(check(&mut t, 3), Err(ErrorCode::NotPlayerTurn));
    assert_eq!(t, before);
    assert_eq!(call(&mut t, 2), Err(ErrorCode::NotPlayerTurn));
    assert_eq!(t, before);
    assert_eq!(fold(&mut t, 3), Err(ErrorCode::NotPlayerTurn));
    assert_eq!(t, before);
    // a stranger is rejected too
    assert_eq!(bet(&mut t, 99, 40), Err(ErrorCode::PlayerNotAtTable));
    assert_eq!(t, before);
}

#[test]
fn folded_seat_cannot_act() {
    let mut t = playing_table(vec![1, 2], vec![seat(1, 500), seat(2, 500)]);
    t.seats[0].is_folded = true;
    let before = t.clone();
    assert_eq!(check(&mut t, 1), Err(ErrorCode::PlayerFolded));
    assert_eq!(t, before);
}

#[test]
fn inactive_seat_cannot_act() {
    let mut t = playing_table(vec![1, 2], vec![seat(1, 500), seat(2, 500)]);
    t.seats[0].is_active = false;
    assert_eq!(check(&mut t, 1), Err(ErrorCode::PlayerNotActive));
}

#[test]
fn actions_require_a_game_in_progress() {
    let mut t = playing_table(vec![1, 2], vec![seat(1, 500), seat(2, 500)]);
    t.status = TableStatus::Waiting;
    t.round = Round::NotStarted;
    let before = t.clone();
    assert_eq!(bet(&mut t, 1, 40), Err(ErrorCode::GameNotInProgress));
    assert_eq!(t, before);
}

#[test]
fn check_against_outstanding_bet_fails() {
    let mut t = playing_table(vec![1, 2], vec![seat(1, 500), seat(2, 500)]);
    t.highest_bet = 50;
    t.seats[1].current_bet = 50;
    let before = t.clone();
    assert_eq!(check(&mut t, 1), Err(ErrorCode::CannotCheck));
    assert_eq!(t, before);
}

#[test]
fn check_after_matching_highest_bet_is_allowed() {
    let mut t = playing_table(
        vec![1, 2, 3],
        vec![seat(1, 500), seat(2, 500), seat(3, 500)],
    );
    t.highest_bet = 50;
    t.seats[0].current_bet = 50;
    assert_eq!(check(&mut t, 1), Ok(()));
}

#[test]
fn conservation_across_a_betting_sequence() {
    // pot plus all chips is invariant across every accepted or rejected
    // action
    let mut t = playing_table(
        vec![1, 2, 3],
        vec![seat(1, 500), seat(2, 500), seat(3, 500)],
    );
    let funds = total_funds(&t);
    assert_eq!(bet(&mut t, 1, 40), Ok(()));
    assert_eq!(total_funds(&t), funds);
    assert_eq!(call(&mut t, 2), Ok(()));
    assert_eq!(total_funds(&t), funds);
    assert_eq!(bet(&mut t, 3, 100), Ok(()));
    assert_eq!(total_funds(&t), funds);
    assert_eq!(bet(&mut t, 1, 90), Err(ErrorCode::BetTooSmall));
    assert_eq!(total_funds(&t), funds);
    assert_eq!(fold(&mut t, 1), Ok(()));
    assert_eq!(total_funds(&t), funds);
    assert_eq!(call(&mut t, 2), Ok(()));
    assert_eq!(total_funds(&t), funds);
}

#[test]
fn advance_skips_empty_seats() {
    let mut t = playing_table(
        vec![1, 0, 0, 2],
        vec![seat(1, 500), empty_seat(), empty_seat(), seat(2, 500)],
    );
    t.highest_bet = 20;
    t.seats[3].current_bet = 20;
    assert_eq!(bet(&mut t, 1, 20), Ok(()));
    // the round completed; the turn scan from the dealer skips the empty
    // slots and lands on the next occupied seat
    assert_eq!(t.current_player_index, 3);
}

#[test]
fn hand_evaluator_placeholder_value() {
    let cards = vec![0, 1, 2, 3, 4, 5, 6];
    assert_eq!(evaluate_poker_hand(&cards), 42);
}

#[test]
fn bet_overflowing_the_pot_is_rejected_without_mutation() {
    let mut t = playing_table(vec![1, 2], vec![seat(1, 500), seat(2, 500)]);
    t.pot = u64::MAX - 10;
    let before = t.clone();
    assert_eq!(bet(&mut t, 1, 40), Err(ErrorCode::ArithmeticError));
    assert_eq!(t, before);
}

#[test]
fn fold_award_overflow_is_rejected_without_mutation() {
    let mut t = playing_table(vec![1, 2], vec![seat(1, 100), seat(2, u64::MAX)]);
    t.pot = 1;
    let before = t.clone();
    assert_eq!(fold(&mut t, 1), Err(ErrorCode::ArithmeticError));
    assert_eq!(t, before);
}

#[test]
fn showdown_payout_overflow_is_rejected_without_mutation() {
    let mut t = playing_table(vec![1, 2], vec![seat(1, u64::MAX), seat(2, 0)]);
    t.round = Round::Showdown;
    t.pot = 100;
    let before = t.clone();
    assert_eq!(showdown(&mut t, 1), Err(ErrorCode::ArithmeticError));
    assert_eq!(t, before);
}

#[test]
fn raise_whose_minimum_overflows_is_rejected() {
    let mut t = playing_table(vec![1, 2], vec![seat(1, u64::MAX), seat(2, u64::MAX)]);
    t.highest_bet = u64::MAX - 5;
    t.seats[1].current_bet = u64::MAX - 5;
    let before = t.clone();
    // any raise above the highest bet would need at least highest plus the
    // big blind, which no longer fits
    assert_eq!(bet(&mut t, 1, u64::MAX), Err(ErrorCode::ArithmeticError));
    assert_eq!(t, before);
}

#[test]
fn call_with_bet_above_highest_is_an_arithmetic_error() {
    let mut t = playing_table(vec![1, 2], vec![seat(1, 100), seat(2, 100)]);
    t.highest_bet = 10;
    t.seats[0].current_bet = 30;
    t.seats[0].is_all_in = true;
    t.seats[1].current_bet = 10;
    let before = t.clone();
    assert_eq!(call(&mut t, 1), Err(ErrorCode::ArithmeticError));
    assert_eq!(t, before);
}

#[test]
fn count_active_players_counts_contenders() {
    let mut t = playing_table(
        vec![1, 2, 3, 0],
        vec![seat(1, 100), seat(2, 100), seat(3, 100), empty_seat()],
    );
    assert_eq!(count_active_players(&t), 3);
    t.seats[1].is_folded = true;
    assert_eq!(count_active_players(&t), 2);
}
