use poker_game::{
    create_table, generate_shuffled_deck, initialize, join_table, leave_table, reset_table,
    showdown, start_game, ErrorCode, GameAuthority, Round, Table, TableStatus,
};

fn authority() -> GameAuthority {
    initialize(7, 5).unwrap()
}

fn new_table(max_players: u8) -> (GameAuthority, Table) {
    let mut auth = authority();
    let t = create_table(
        &mut auth,
        1,
        String::from("main"),
        1000,
        10,
        20,
        max_players,
        false,
    )
    .unwrap();
    (auth, t)
}

fn total_funds(t: &Table) -> u128 {
    t.pot as u128 + t.seats.iter().map(|s| s.chips as u128).sum::<u128>()
}

#[test]
fn initialize_sets_global_settings() {
    let auth = initialize(42, 10).unwrap();
    assert_eq!(auth.authority, 42);
    assert_eq!(auth.fee_percentage, 10);
    assert_eq!(auth.total_games_played, 0);
    assert_eq!(auth.total_fees_collected, 0);
}

#[test]
fn initialize_rejects_high_fee() {
    assert_eq!(initialize(42, 11), Err(ErrorCode::FeeTooHigh));
}

#[test]
fn create_table_seats_host_and_counts_games() {
    let (auth, t) = new_table(5);
    assert_eq!(auth.total_games_played, 1);
    assert_eq!(t.host, 1);
    assert_eq!(t.players.len(), 5);
    assert_eq!(t.players[0], 1);
    assert!(t.players[1..].iter().all(|p| *p == 0));
    assert_eq!(t.player_count, 1);
    assert_eq!(t.status, TableStatus::Waiting);
    assert_eq!(t.round, Round::NotStarted);
    assert_eq!(t.seats[0].chips, 1000);
    assert!(t.seats[0].is_active);
    assert_eq!(t.pot, 0);
    assert_eq!(total_funds(&t), 1000);
}

#[test]
fn create_table_validates_configuration() {
    let mut auth = authority();
    assert_eq!(
        create_table(&mut auth, 1, String::from("a"), 1000, 10, 20, 1, false),
        Err(ErrorCode::InvalidPlayerCount)
    );
    assert_eq!(
        create_table(&mut auth, 1, String::from("a"), 1000, 10, 20, 10, false),
        Err(ErrorCode::InvalidPlayerCount)
    );
    assert_eq!(
        create_table(&mut auth, 1, String::from("a"), 1000, 30, 20, 5, false),
        Err(ErrorCode::InvalidBlinds)
    );
    assert_eq!(
        create_table(&mut auth, 1, String::from("a"), 199, 10, 20, 5, false),
        Err(ErrorCode::BuyInTooSmall)
    );
    assert_eq!(
        create_table(
            &mut auth,
            1,
            String::from("abcdefghijklmnopqrstuvwxyz0123456"),
            1000,
            10,
            20,
            5,
            false
        ),
        Err(ErrorCode::TableIdTooLong)
    );
    // a rejected creation leaves the counters untouched
    assert_eq!(auth.total_games_played, 0);
}

#[test]
fn join_takes_lowest_empty_slot() {
    let (_, mut t) = new_table(4);
    assert_eq!(join_table(&mut t, 2), Ok(()));
    assert_eq!(t.players[1], 2);
    assert_eq!(t.player_count, 2);
    assert_eq!(t.seats[1].chips, 1000);
    assert_eq!(total_funds(&t), 2000);
    assert_eq!(join_table(&mut t, 3), Ok(()));
    assert_eq!(t.players[2], 3);
}

#[test]
fn join_requires_waiting_and_space() {
    let (_, mut t) = new_table(2);
    assert_eq!(join_table(&mut t, 2), Ok(()));
    assert_eq!(join_table(&mut t, 3), Err(ErrorCode::TableFull));
    assert_eq!(start_game(&mut t, 1, 0), Ok(()));
    let mut t2 = t.clone();
    assert_eq!(join_table(&mut t2, 4), Err(ErrorCode::TableNotWaiting));
}

#[test]
fn seat_reuse_after_leave() {
    // the vacated index is the lowest-index candidate for the next join
    let (_, mut t) = new_table(3);
    assert_eq!(join_table(&mut t, 2), Ok(()));
    assert_eq!(join_table(&mut t, 3), Ok(()));
    assert_eq!(leave_table(&mut t, 2), Ok(1000));
    assert_eq!(t.players[1], 0);
    assert_eq!(t.player_count, 2);
    assert_eq!(join_table(&mut t, 4), Ok(()));
    assert_eq!(t.players[1], 4);
    assert_eq!(t.players, vec![1, 4, 3]);
}

#[test]
fn leave_returns_chips_and_vacates() {
    let (_, mut t) = new_table(3);
    assert_eq!(join_table(&mut t, 2), Ok(()));
    let funds = total_funds(&t);
    let payout = leave_table(&mut t, 2).unwrap();
    assert_eq!(payout, 1000);
    assert!(!t.seats[1].is_active);
    assert_eq!(t.seats[1].chips, 0);
    assert_eq!(total_funds(&t), funds - 1000);
}

#[test]
fn leave_transfers_host_role() {
    let (_, mut t) = new_table(3);
    assert_eq!(join_table(&mut t, 2), Ok(()));
    assert_eq!(join_table(&mut t, 3), Ok(()));
    assert_eq!(leave_table(&mut t, 1), Ok(1000));
    assert_eq!(t.host, 2);
}

#[test]
fn leave_is_rejected_mid_hand() {
    let (_, mut t) = new_table(2);
    assert_eq!(join_table(&mut t, 2), Ok(()));
    assert_eq!(start_game(&mut t, 1, 0), Ok(()));
    let before = t.clone();
    assert_eq!(leave_table(&mut t, 2), Err(ErrorCode::CannotLeaveActiveGame));
    assert_eq!(t, before);
}

#[test]
fn leave_by_stranger_fails() {
    let (_, mut t) = new_table(2);
    assert_eq!(leave_table(&mut t, 9), Err(ErrorCode::PlayerNotAtTable));
}

#[test]
fn start_game_posts_blinds_and_deals() {
    let (_, mut t) = new_table(2);
    assert_eq!(join_table(&mut t, 2), Ok(()));
    let funds = total_funds(&t);
    assert_eq!(start_game(&mut t, 99, 0), Err(ErrorCode::NotTableHost));
    assert_eq!(start_game(&mut t, 1, 0), Ok(()));
    assert_eq!(t.status, TableStatus::Playing);
    assert_eq!(t.round, Round::PreFlop);
    // seed 0 with two players: dealer 0, small blind at 1, big blind at 0,
    // first to act at 1
    assert_eq!(t.dealer_index, 0);
    assert_eq!(t.current_player_index, 1);
    assert_eq!(t.seats[1].current_bet, 10);
    assert_eq!(t.seats[1].chips, 990);
    assert_eq!(t.seats[0].current_bet, 20);
    assert_eq!(t.seats[0].chips, 980);
    assert_eq!(t.pot, 30);
    assert_eq!(t.highest_bet, 20);
    assert_eq!(total_funds(&t), funds);
    // dealing order: two cards per occupied seat in seat order, then five
    // community cards from the remainder of the permutation
    let deck = generate_shuffled_deck(0);
    assert_eq!(t.seats[0].cards, (deck[0], deck[1]));
    assert_eq!(t.seats[1].cards, (deck[2], deck[3]));
    assert_eq!(t.community_cards, deck[4..9].to_vec());
}

#[test]
fn start_game_requires_two_players() {
    let (_, mut t) = new_table(3);
    assert_eq!(start_game(&mut t, 1, 0), Err(ErrorCode::NotEnoughPlayers));
}

#[test]
fn start_game_requires_waiting_table() {
    let (_, mut t) = new_table(2);
    assert_eq!(join_table(&mut t, 2), Ok(()));
    assert_eq!(start_game(&mut t, 1, 0), Ok(()));
    assert_eq!(start_game(&mut t, 1, 0), Err(ErrorCode::TableNotWaiting));
}

#[test]
fn reset_table_returns_to_waiting_and_keeps_chips() {
    let (_, mut t) = new_table(2);
    assert_eq!(join_table(&mut t, 2), Ok(()));
    assert_eq!(start_game(&mut t, 1, 1), Ok(()));
    // play the hand to the showdown by calling and checking through the
    // four betting rounds
    let mut caller = t.players[t.current_player_index as usize];
    assert_eq!(poker_game::call(&mut t, caller), Ok(()));
    caller = t.players[t.current_player_index as usize];
    assert_eq!(poker_game::check(&mut t, caller), Ok(()));
    while t.round != Round::Showdown {
        caller = t.players[t.current_player_index as usize];
        assert_eq!(poker_game::check(&mut t, caller), Ok(()));
    }
    let funds = total_funds(&t);
    assert_eq!(reset_table(&mut t, 1), Err(ErrorCode::GameNotFinished));
    assert_eq!(showdown(&mut t, 1), Ok(()));
    assert_eq!(t.status, TableStatus::Finished);
    assert_eq!(total_funds(&t), funds);
    assert_eq!(reset_table(&mut t, 2), Err(ErrorCode::NotTableHost));
    assert_eq!(reset_table(&mut t, 1), Ok(()));
    assert_eq!(t.status, TableStatus::Waiting);
    assert_eq!(t.round, Round::NotStarted);
    assert_eq!(t.pot, 0);
    assert_eq!(t.highest_bet, 0);
    assert!(t.seats.iter().all(|s| s.current_bet == 0));
    assert!(t.seats.iter().all(|s| !s.is_folded && !s.is_all_in));
    assert_eq!(total_funds(&t), funds);
}

#[test]
fn create_table_boundary_configuration_is_accepted() {
    let mut auth = authority();
    // exactly ten big blinds, equal blinds, the largest seat count, and a
    // 32-character identifier are all on the allowed side of the bounds
    let id = String::from("abcdefghijklmnopqrstuvwxyz012345");
    let t = create_table(&mut auth, 1, id, 200, 20, 20, 9, true).unwrap();
    assert_eq!(t.max_players, 9);
    assert_eq!(t.players.len(), 9);
    assert!(t.is_private);
}

#[test]
fn full_nine_seat_table_fills_and_starts() {
    let mut auth = authority();
    let mut t = create_table(&mut auth, 1, String::from("big"), 1000, 10, 20, 9, false).unwrap();
    for p in 2..=9u64 {
        assert_eq!(join_table(&mut t, p), Ok(()));
    }
    assert_eq!(t.player_count, 9);
    assert_eq!(join_table(&mut t, 10), Err(ErrorCode::TableFull));
    let funds = total_funds(&t);
    assert_eq!(start_game(&mut t, 1, 7), Ok(()));
    assert_eq!(total_funds(&t), funds);
    // every seat got two distinct cards from one permutation
    let deck = generate_shuffled_deck(7);
    for (i, s) in t.seats.iter().enumerate() {
        assert_eq!(s.cards, (deck[2 * i], deck[2 * i + 1]));
    }
    assert_eq!(t.community_cards, deck[18..23].to_vec());
}

#[test]
fn games_counter_overflow_is_rejected() {
    let mut auth = GameAuthority {
        authority: 7,
        fee_percentage: 0,
        total_games_played: u64::MAX,
        total_fees_collected: 0,
    };
    assert_eq!(
        create_table(&mut auth, 1, String::from("x"), 1000, 10, 20, 5, false),
        Err(ErrorCode::ArithmeticError)
    );
    assert_eq!(auth.total_games_played, u64::MAX);
}

#[test]
fn start_with_blind_position_on_an_empty_slot_is_rejected() {
    // blind positions are derived modulo the occupant count, so with a
    // vacated low slot a blind can land on an empty seat; debiting it
    // fails as an arithmetic integrity error and nothing changes
    let (_, mut t) = new_table(3);
    assert_eq!(join_table(&mut t, 2), Ok(()));
    assert_eq!(join_table(&mut t, 3), Ok(()));
    assert_eq!(leave_table(&mut t, 2), Ok(1000));
    let before = t.clone();
    // seed 0: dealer 0, small blind at slot 1, which is empty
    assert_eq!(start_game(&mut t, 1, 0), Err(ErrorCode::ArithmeticError));
    assert_eq!(t, before);
}

#[test]
fn deck_is_deterministic_for_a_seed() {
    // an identical seed always yields the identical 52-element permutation
    let a = generate_shuffled_deck(12345);
    let b = generate_shuffled_deck(12345);
    assert_eq!(a, b);
    assert_eq!(a.len(), 52);
}

#[test]
fn deck_is_a_permutation_of_all_cards() {
    let mut deck = generate_shuffled_deck(98765);
    deck.sort();
    let expected: Vec<u8> = (0..52).collect();
    assert_eq!(deck, expected);
}

#[test]
fn different_seeds_reorder_the_deck() {
    // not a contract for every pair, but these two seeds must produce the
    // permutation deterministically, and each differs from the unshuffled
    // order
    let a = generate_shuffled_deck(1);
    let unshuffled: Vec<u8> = (0..52).collect();
    assert_ne!(a, unshuffled);
}
