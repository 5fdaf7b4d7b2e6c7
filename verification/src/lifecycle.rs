//! TableLifecycle: privileged initialization, table creation, joining,
//! game start (dealing and blind posting), reset for a new hand, and
//! leaving with a chip withdrawal.
//!
//! Value transfer itself is an external escrow concern: creation and
//! joining assume the buy-in has been escrowed for the table's vault, and
//! `leave_table` returns the amount the escrow must pay back out.

use vstd::prelude::*;

use crate::deck::{generate_shuffled_deck, spec_shuffle};
use crate::engine::seat_index_of;
use crate::state::{
    chips_sum, count_occupied, lemma_chips_sum_pointwise, lemma_chips_sum_update,
    lemma_count_occupied_bounds, lemma_count_occupied_pos, lemma_count_occupied_take_le,
    lemma_count_occupied_take_step, lemma_count_occupied_update, occupied, ErrorCode,
    GameAuthority, PlayerState, Round, Table, TableStatus, TableView, EMPTY_SEAT,
};

verus! {

/// State of an unoccupied seat slot.
pub open spec fn empty_seat() -> PlayerState {
    PlayerState {
        player: EMPTY_SEAT,
        chips: 0,
        is_active: false,
        is_folded: false,
        is_all_in: false,
        current_bet: 0,
        cards: (0u8, 0u8),
    }
}

/// State of a freshly seated player funded with the buy-in.
pub open spec fn funded_seat(player: u64, chips: u64) -> PlayerState {
    PlayerState {
        player,
        chips,
        is_active: true,
        is_folded: false,
        is_all_in: false,
        current_bet: 0,
        cards: (0u8, 0u8),
    }
}

// ---------------------------------------------------------------------------
// initialize
// ---------------------------------------------------------------------------

/// Outcome of privileged initialization: a fee above 10 percent is
/// rejected; otherwise the authority record starts with zeroed counters.
pub open spec fn spec_initialize(authority: u64, fee_percentage: u8) -> Result<
    GameAuthority,
    ErrorCode,
> {
    if fee_percentage > 10 {
        Result::Err(ErrorCode::FeeTooHigh)
    } else {
        Result::Ok(
            GameAuthority {
                authority,
                fee_percentage,
                total_games_played: 0,
                total_fees_collected: 0,
            },
        )
    }
}

/// Initialize the process-wide authority record with global settings.
pub fn initialize(authority: u64, fee_percentage: u8) -> (r: Result<GameAuthority, ErrorCode>)
    ensures
        r == spec_initialize(authority, fee_percentage),
{
    if fee_percentage > 10 {
        return Result::Err(ErrorCode::FeeTooHigh);
    }
    Result::Ok(
        GameAuthority { authority, fee_percentage, total_games_played: 0, total_fees_collected: 0 },
    )
}

// ---------------------------------------------------------------------------
// create_table
// ---------------------------------------------------------------------------

/// Outcome of table creation: configuration bounds are validated (2 to 9
/// seats, blind ordering, buy-in at least ten big blinds, identifier at
/// most 32 characters), the host is seated at index 0 funded with the
/// buy-in, and the global games-played counter grows by one.
pub open spec fn spec_create_table(
    auth: GameAuthority,
    host: u64,
    table_id: Seq<char>,
    buy_in: u64,
    small_blind: u64,
    big_blind: u64,
    max_players: u8,
    is_private: bool,
) -> Result<(GameAuthority, TableView), ErrorCode> {
    if !(max_players >= 2 && max_players <= 9) {
        Result::Err(ErrorCode::InvalidPlayerCount)
    } else if big_blind < small_blind {
        Result::Err(ErrorCode::InvalidBlinds)
    } else if buy_in < big_blind * 10 {
        Result::Err(ErrorCode::BuyInTooSmall)
    } else if table_id.len() > 32 {
        Result::Err(ErrorCode::TableIdTooLong)
    } else if auth.total_games_played == u64::MAX {
        Result::Err(ErrorCode::ArithmeticError)
    } else {
        Result::Ok(
            (
                GameAuthority {
                    total_games_played: (auth.total_games_played + 1) as u64,
                    ..auth
                },
                TableView {
                    table_id,
                    host,
                    buy_in,
                    small_blind,
                    big_blind,
                    max_players,
                    is_private,
                    status: TableStatus::Waiting,
                    pot: 0,
                    players: Seq::new(
                        max_players as nat,
                        |i: int|
                            if i == 0 {
                                host
                            } else {
                                EMPTY_SEAT
                            },
                    ),
                    seats: Seq::new(
                        max_players as nat,
                        |i: int|
                            if i == 0 {
                                funded_seat(host, buy_in)
                            } else {
                                empty_seat()
                            },
                    ),
                    player_count: 1,
                    current_player_index: 0,
                    dealer_index: 0,
                    round: Round::NotStarted,
                    highest_bet: 0,
                    community_cards: Seq::new(5, |i: int| 0u8),
                },
            ),
        )
    }
}

proof fn lemma_count_occupied_single(players: Seq<u64>)
    requires
        players.len() >= 1,
        players[0] != EMPTY_SEAT,
        forall|i: int| 1 <= i < players.len() ==> players[i] == EMPTY_SEAT,
    ensures
        count_occupied(players) == 1,
    decreases players.len(),
{
    if players.len() == 1 {
        assert(players.last() == players[0]);
        assert(count_occupied(players.drop_last()) == 0);
    } else {
        assert(players.drop_last()[0] == players[0]);
        lemma_count_occupied_single(players.drop_last());
        assert(players.last() == EMPTY_SEAT);
    }
}

proof fn lemma_chips_sum_single(seats: Seq<PlayerState>, chips: u64)
    requires
        seats.len() >= 1,
        seats[0].chips == chips,
        forall|i: int| 1 <= i < seats.len() ==> seats[i].chips == 0,
    ensures
        chips_sum(seats) == chips,
    decreases seats.len(),
{
    if seats.len() == 1 {
        assert(seats.last() == seats[0]);
        assert(chips_sum(seats.drop_last()) == 0);
    } else {
        assert(seats.drop_last()[0] == seats[0]);
        lemma_chips_sum_single(seats.drop_last(), chips);
        assert(seats.last().chips == 0);
    }
}

/// TableLifecycle: create a table. The caller escrows the buy-in for the
/// table's vault at this boundary; the new table custodies exactly that
/// buy-in as the host seat's chips. Applies exactly `spec_create_table`;
/// on rejection the authority record is untouched.
pub fn create_table(
    authority: &mut GameAuthority,
    host: u64,
    table_id: String,
    buy_in: u64,
    small_blind: u64,
    big_blind: u64,
    max_players: u8,
    is_private: bool,
) -> (r: Result<Table, ErrorCode>)
    requires
        host != EMPTY_SEAT,
    ensures
        (match r {
            Result::Ok(t) => spec_create_table(
                *old(authority),
                host,
                table_id@,
                buy_in,
                small_blind,
                big_blind,
                max_players,
                is_private,
            ) == Result::<(GameAuthority, TableView), ErrorCode>::Ok((*final(authority), t@))
                && t@.wf() && t@.funds() == buy_in,
            Result::Err(e) => spec_create_table(
                *old(authority),
                host,
                table_id@,
                buy_in,
                small_blind,
                big_blind,
                max_players,
                is_private,
            ) == Result::<(GameAuthority, TableView), ErrorCode>::Err(e) && *final(authority)
                == *old(authority),
        }),
{
    if !(max_players >= 2 && max_players <= 9) {
        return Result::Err(ErrorCode::InvalidPlayerCount);
    }
    if big_blind < small_blind {
        return Result::Err(ErrorCode::InvalidBlinds);
    }
    match big_blind.checked_mul(10) {
        Option::Some(m) => {
            if buy_in < m {
                return Result::Err(ErrorCode::BuyInTooSmall);
            }
        },
        Option::None => {
            return Result::Err(ErrorCode::BuyInTooSmall);
        },
    }
    if table_id.as_str().unicode_len() > 32 {
        return Result::Err(ErrorCode::TableIdTooLong);
    }
    let games = match authority.total_games_played.checked_add(1) {
        Option::Some(g) => g,
        Option::None => {
            return Result::Err(ErrorCode::ArithmeticError);
        },
    };
    let n = max_players as usize;
    let mut players: Vec<u64> = vec![EMPTY_SEAT; n];
    players[0] = host;
    let mut seats: Vec<PlayerState> = vec![PlayerState {
        player: EMPTY_SEAT,
        chips: 0,
        is_active: false,
        is_folded: false,
        is_all_in: false,
        current_bet: 0,
        cards: (0u8, 0u8),
    }; n];
    seats[0] = PlayerState {
        player: host,
        chips: buy_in,
        is_active: true,
        is_folded: false,
        is_all_in: false,
        current_bet: 0,
        cards: (0u8, 0u8),
    };
    let community_cards: Vec<u8> = vec![0u8; 5];
    authority.total_games_played = games;
    let table = Table {
        table_id,
        host,
        buy_in,
        small_blind,
        big_blind,
        max_players,
        is_private,
        status: TableStatus::Waiting,
        pot: 0,
        players,
        seats,
        player_count: 1,
        current_player_index: 0,
        dealer_index: 0,
        round: Round::NotStarted,
        highest_bet: 0,
        community_cards,
    };
    proof {
        assert(table@.players =~= Seq::new(
            max_players as nat,
            |i: int|
                if i == 0 {
                    host
                } else {
                    EMPTY_SEAT
                },
        ));
        assert(table@.seats =~= Seq::new(
            max_players as nat,
            |i: int|
                if i == 0 {
                    funded_seat(host, buy_in)
                } else {
                    empty_seat()
                },
        ));
        assert(table@.community_cards =~= Seq::new(5, |i: int| 0u8));
        lemma_count_occupied_single(table@.players);
        lemma_chips_sum_single(table@.seats, buy_in);
        assert(table@.wf());
    }
    Result::Ok(table)
}

// ---------------------------------------------------------------------------
// join_table
// ---------------------------------------------------------------------------

/// Outcome of a join: only a waiting table with an open seat accepts it;
/// the joining player takes the lowest-index empty slot, funded with the
/// buy-in.
pub open spec fn spec_join_table(t: TableView, player: u64) -> Result<TableView, ErrorCode> {
    if t.status != TableStatus::Waiting {
        Result::Err(ErrorCode::TableNotWaiting)
    } else if t.player_count >= t.max_players {
        Result::Err(ErrorCode::TableFull)
    } else {
        match seat_index_of(t.players, EMPTY_SEAT) {
            Option::None => Result::Err(ErrorCode::TableFull),
            Option::Some(i) => Result::Ok(
                TableView {
                    players: t.players.update(i, player),
                    seats: t.seats.update(i, funded_seat(player, t.buy_in)),
                    player_count: (t.player_count + 1) as u8,
                    ..t
                },
            ),
        }
    }
}

/// TableLifecycle: join a waiting table at the lowest-index empty slot.
/// The caller escrows the buy-in at this boundary; the storage layer
/// provisions one seat per identity and table, so the joining identity is
/// not yet seated here. Applies exactly `spec_join_table`; on rejection
/// the table is untouched; on success the table's funds grow by exactly
/// the escrowed buy-in.
pub fn join_table(table: &mut Table, player: u64) -> (r: Result<(), ErrorCode>)
    requires
        old(table)@.wf(),
        player != EMPTY_SEAT,
        seat_index_of(old(table)@.players, player) is None,
    ensures
        final(table)@.wf(),
        (match r {
            Result::Ok(()) => spec_join_table(old(table)@, player) == Result::<
                TableView,
                ErrorCode,
            >::Ok(final(table)@) && final(table)@.funds() == old(table)@.funds()
                + old(table)@.buy_in,
            Result::Err(e) => spec_join_table(old(table)@, player) == Result::<
                TableView,
                ErrorCode,
            >::Err(e) && final(table)@ == old(table)@,
        }),
{
    let ghost t0 = table@;
    if table.status != TableStatus::Waiting {
        return Result::Err(ErrorCode::TableNotWaiting);
    }
    if table.player_count >= table.max_players {
        return Result::Err(ErrorCode::TableFull);
    }
    let slot = match crate::engine::find_seat(&table.players, EMPTY_SEAT) {
        Option::Some(i) => i,
        Option::None => {
            return Result::Err(ErrorCode::TableFull);
        },
    };
    proof {
        crate::engine::lemma_seat_index_from(t0.players, player, 0);
        lemma_count_occupied_update(t0.players, slot as int, player);
        lemma_chips_sum_update(t0.seats, slot as int, funded_seat(player, t0.buy_in));
    }
    table.players[slot] = player;
    table.player_count = table.player_count + 1;
    table.seats[slot] = PlayerState {
        player,
        chips: table.buy_in,
        is_active: true,
        is_folded: false,
        is_all_in: false,
        current_bet: 0,
        cards: (0u8, 0u8),
    };
    proof {
        assert(table@.players == t0.players.update(slot as int, player));
        assert(table@.seats == t0.seats.update(slot as int, funded_seat(player, t0.buy_in)));
        assert forall|a: int, b: int|
            0 <= a < b < table@.players.len() && occupied(table@.players, a)
                implies table@.players[a] != table@.players[b] by {
            if a == slot as int {
                assert(t0.players[b] != player);
            } else if b == slot as int {
                assert(t0.players[a] != player);
            } else {
                assert(table@.players[a] == t0.players[a]);
                assert(table@.players[b] == t0.players[b]);
            }
        }
        let tv = table@;
        assert forall|i: int|
            0 <= i < tv.players.len() && !occupied(tv.players, i)
                implies !tv.seats[i].is_active && tv.seats[i].chips == 0 by {
            if i != slot as int {
                assert(tv.players[i] == t0.players[i]);
                assert(!occupied(t0.players, i));
                assert(tv.seats[i] == t0.seats[i]);
            }
        }
        assert forall|i: int|
            0 <= i < tv.players.len() && occupied(tv.players, i)
                implies tv.seats[i].is_active by {
            if i != slot as int {
                assert(tv.players[i] == t0.players[i]);
                assert(occupied(t0.players, i));
                assert(tv.seats[i] == t0.seats[i]);
            }
        }
        assert(tv.status == TableStatus::Waiting);
        assert forall|i: int|
            0 <= i < tv.players.len() && occupied(tv.players, i)
                implies tv.seats[i].current_bet == 0 by {
            if i != slot as int {
                assert(tv.players[i] == t0.players[i]);
                assert(occupied(t0.players, i));
                assert(tv.seats[i] == t0.seats[i]);
            }
        }
        assert(table@.wf());
    }
    Result::Ok(())
}

// ---------------------------------------------------------------------------
// start_game
// ---------------------------------------------------------------------------

/// Seats after dealing: each occupied seat, in seat-index order, takes the
/// next two cards of the shuffled deck; the offset of seat `i`'s first
/// card is twice the number of occupied seats before it.
pub open spec fn dealt_seats(t: TableView, deck: Seq<u8>) -> Seq<PlayerState> {
    Seq::new(
        t.seats.len(),
        |i: int|
            if occupied(t.players, i) {
                PlayerState {
                    cards: (
                        deck[2 * count_occupied(t.players.take(i))],
                        deck[2 * count_occupied(t.players.take(i)) + 1],
                    ),
                    ..t.seats[i]
                }
            } else {
                t.seats[i]
            },
    )
}

/// Outcome of a game start by `host` with `seed`: only the host may start
/// a waiting table with at least two players. The dealer is `seed` modulo
/// the player count; small and big blind sit at the next two positions
/// modulo the player count and the turn starts after the big blind. Cards
/// are dealt from the seeded shuffle (two per occupied seat in seat order,
/// then five community cards); the blinds are debited into the pot and
/// the big blind becomes the highest bet.
pub open spec fn spec_start_game(t: TableView, host: u64, seed: u64) -> Result<
    TableView,
    ErrorCode,
> {
    if host != t.host {
        Result::Err(ErrorCode::NotTableHost)
    } else if t.status != TableStatus::Waiting {
        Result::Err(ErrorCode::TableNotWaiting)
    } else if t.player_count < 2 {
        Result::Err(ErrorCode::NotEnoughPlayers)
    } else {
        let pc = t.player_count as int;
        let dealer = (seed as int) % pc;
        let sb = (dealer + 1) % pc;
        let bb = (dealer + 2) % pc;
        let cur = (bb + 1) % pc;
        let deck = spec_shuffle(seed);
        let dealt = dealt_seats(t, deck);
        if dealt[sb].chips < t.small_blind {
            Result::Err(ErrorCode::ArithmeticError)
        } else if dealt[bb].chips < t.big_blind {
            Result::Err(ErrorCode::ArithmeticError)
        } else if t.small_blind + t.big_blind > u64::MAX {
            Result::Err(ErrorCode::ArithmeticError)
        } else {
            let s1 = dealt.update(
                sb,
                PlayerState {
                    chips: (dealt[sb].chips - t.small_blind) as u64,
                    current_bet: t.small_blind,
                    ..dealt[sb]
                },
            );
            let s2 = s1.update(
                bb,
                PlayerState {
                    chips: (s1[bb].chips - t.big_blind) as u64,
                    current_bet: t.big_blind,
                    ..s1[bb]
                },
            );
            Result::Ok(
                TableView {
                    status: TableStatus::Playing,
                    round: Round::PreFlop,
                    dealer_index: dealer as u8,
                    current_player_index: cur as u8,
                    seats: s2,
                    community_cards: deck.subrange(
                        2 * count_occupied(t.players),
                        2 * count_occupied(t.players) + 5,
                    ),
                    pot: (t.small_blind + t.big_blind) as u64,
                    highest_bet: t.big_blind,
                    ..t
                },
            )
        }
    }
}

/// TableLifecycle: start the game. Applies exactly `spec_start_game`; on
/// rejection the table is untouched; on success the table's funds are
/// unchanged: the posted blinds move from the blind seats into the pot.
pub fn start_game(table: &mut Table, host: u64, seed: u64) -> (r: Result<(), ErrorCode>)
    requires
        old(table)@.wf(),
    ensures
        final(table)@.wf(),
        (match r {
            Result::Ok(()) => spec_start_game(old(table)@, host, seed) == Result::<
                TableView,
                ErrorCode,
            >::Ok(final(table)@) && final(table)@.funds() == old(table)@.funds(),
            Result::Err(e) => spec_start_game(old(table)@, host, seed) == Result::<
                TableView,
                ErrorCode,
            >::Err(e) && final(table)@ == old(table)@,
        }),
{
    let ghost t0 = table@;
    if host != table.host {
        return Result::Err(ErrorCode::NotTableHost);
    }
    if table.status != TableStatus::Waiting {
        return Result::Err(ErrorCode::TableNotWaiting);
    }
    if table.player_count < 2 {
        return Result::Err(ErrorCode::NotEnoughPlayers);
    }
    let pc = table.player_count;
    proof {
        lemma_count_occupied_bounds(t0.players);
        assert(0 <= (seed as int) % (pc as int) < pc as int) by (nonlinear_arith)
            requires pc >= 2;
    }
    let dealer_pos: usize = (seed % (pc as u64)) as usize;
    let sb_pos: usize = (dealer_pos + 1) % (pc as usize);
    let bb_pos: usize = (dealer_pos + 2) % (pc as usize);
    let cur_pos: usize = (bb_pos + 1) % (pc as usize);
    let dealer = dealer_pos as u8;
    let cur = cur_pos as u8;
    proof {
        assert(0 <= (dealer_pos as int + 1) % (pc as int) < pc as int
            && 0 <= (dealer_pos as int + 2) % (pc as int) < pc as int
            && 0 <= (bb_pos as int + 1) % (pc as int) < pc as int) by (nonlinear_arith)
            requires pc >= 2 && dealer_pos < pc && bb_pos < pc;
        assert(sb_pos != bb_pos) by (nonlinear_arith)
            requires
                pc >= 2,
                (dealer_pos as int) < pc as int,
                sb_pos as int == ((dealer_pos as int) + 1) % (pc as int),
                bb_pos as int == ((dealer_pos as int) + 2) % (pc as int),
        ;
    }
    let deck = generate_shuffled_deck(seed);
    // validate the blind debits and the pot before any mutation
    if table.seats[sb_pos].chips < table.small_blind {
        return Result::Err(ErrorCode::ArithmeticError);
    }
    if table.seats[bb_pos].chips < table.big_blind {
        return Result::Err(ErrorCode::ArithmeticError);
    }
    let pot = match table.small_blind.checked_add(table.big_blind) {
        Option::Some(p) => p,
        Option::None => {
            return Result::Err(ErrorCode::ArithmeticError);
        },
    };
    // commit: status, round and positions
    table.status = TableStatus::Playing;
    table.round = Round::PreFlop;
    table.dealer_index = dealer;
    table.current_player_index = cur;
    let ghost tc = table@;
    // deal two cards to each occupied seat in seat-index order
    let n = table.players.len();
    let mut ci: usize = 0;
    let mut i: usize = 0;
    while i < n
        invariant
            i <= n,
            n == table@.players.len(),
            table@.seats.len() == n as int,
            table@.players == t0.players,
            t0.wf(),
            t0.seats.len() == n as int,
            deck@ == spec_shuffle(seed),
            deck@.len() == 52,
            ci as int == 2 * count_occupied(t0.players.take(i as int)),
            forall|j: int| 0 <= j < i as int ==> table@.seats[j] == dealt_seats(t0, deck@)[j],
            forall|j: int| i as int <= j < n as int ==> table@.seats[j] == t0.seats[j],
            table@ == (TableView { seats: table@.seats, ..tc }),
        decreases n - i,
    {
        proof {
            lemma_count_occupied_take_step(t0.players, i as int);
            lemma_count_occupied_take_le(t0.players, i as int + 1);
            lemma_count_occupied_bounds(t0.players);
        }
        if table.players[i] != EMPTY_SEAT {
            let c0 = deck[ci];
            let c1 = deck[ci + 1];
            let mut s = table.seats[i];
            s.cards = (c0, c1);
            table.seats[i] = s;
            ci = ci + 2;
        }
        i = i + 1;
    }
    proof {
        assert(t0.players.take(n as int) =~= t0.players);
        assert(table@.seats =~= dealt_seats(t0, deck@));
    }
    // reveal the community cards: the next five cards of the deck
    let base = ci;
    let mut comm: Vec<u8> = Vec::new();
    comm.push(deck[base]);
    comm.push(deck[base + 1]);
    comm.push(deck[base + 2]);
    comm.push(deck[base + 3]);
    comm.push(deck[base + 4]);
    table.community_cards = comm;
    proof {
        assert(table@.community_cards =~= deck@.subrange(
            2 * count_occupied(t0.players),
            2 * count_occupied(t0.players) + 5,
        ));
    }
    // post the blinds
    let ghost dealt = table@.seats;
    let mut sbs = table.seats[sb_pos];
    sbs.current_bet = table.small_blind;
    sbs.chips = sbs.chips - table.small_blind;
    table.seats[sb_pos] = sbs;
    let mut bbs = table.seats[bb_pos];
    bbs.current_bet = table.big_blind;
    bbs.chips = bbs.chips - table.big_blind;
    table.seats[bb_pos] = bbs;
    table.pot = pot;
    table.highest_bet = table.big_blind;
    proof {
        lemma_chips_sum_pointwise(dealt, t0.seats);
        lemma_chips_sum_update(dealt, sb_pos as int, sbs);
        lemma_chips_sum_update(dealt.update(sb_pos as int, sbs), bb_pos as int, bbs);
        assert(table@.funds() == t0.funds());
        assert(spec_start_game(t0, host, seed) == Result::<TableView, ErrorCode>::Ok(table@));
        assert(table@.wf());
    }
    Result::Ok(())
}

// ---------------------------------------------------------------------------
// reset_table
// ---------------------------------------------------------------------------

/// Outcome of a reset by `caller`: only the host may reset a finished
/// table. The table returns to Waiting/NotStarted with an empty pot and
/// no highest bet; every active seat's fold and all-in flags and bet
/// marker clear, while chip balances carry over.
pub open spec fn spec_reset_table(t: TableView, caller: u64) -> Result<TableView, ErrorCode> {
    if caller != t.host {
        Result::Err(ErrorCode::NotTableHost)
    } else if t.status != TableStatus::Finished {
        Result::Err(ErrorCode::GameNotFinished)
    } else {
        Result::Ok(
            TableView {
                status: TableStatus::Waiting,
                pot: 0,
                round: Round::NotStarted,
                highest_bet: 0,
                seats: Seq::new(
                    t.seats.len(),
                    |i: int|
                        if t.seats[i].is_active {
                            PlayerState {
                                is_folded: false,
                                current_bet: 0,
                                is_all_in: false,
                                ..t.seats[i]
                            }
                        } else {
                            t.seats[i]
                        },
                ),
                ..t
            },
        )
    }
}

/// TableLifecycle: reset the table for a new hand. Applies exactly
/// `spec_reset_table`; on rejection the table is untouched; the table's
/// funds are always unchanged.
pub fn reset_table(table: &mut Table, caller: u64) -> (r: Result<(), ErrorCode>)
    requires
        old(table)@.wf(),
    ensures
        final(table)@.wf(),
        (match r {
            Result::Ok(()) => spec_reset_table(old(table)@, caller) == Result::<
                TableView,
                ErrorCode,
            >::Ok(final(table)@),
            Result::Err(e) => spec_reset_table(old(table)@, caller) == Result::<
                TableView,
                ErrorCode,
            >::Err(e) && final(table)@ == old(table)@,
        }),
        final(table)@.funds() == old(table)@.funds(),
{
    let ghost t0 = table@;
    if caller != table.host {
        return Result::Err(ErrorCode::NotTableHost);
    }
    if table.status != TableStatus::Finished {
        return Result::Err(ErrorCode::GameNotFinished);
    }
    table.status = TableStatus::Waiting;
    table.pot = 0;
    table.round = Round::NotStarted;
    table.highest_bet = 0;
    let ghost tc = table@;
    let n = table.seats.len();
    let mut i: usize = 0;
    while i < n
        invariant
            i <= n,
            n == table@.seats.len(),
            table@.seats.len() == t0.seats.len(),
            forall|j: int|
                0 <= j < i as int ==> table@.seats[j] == (if t0.seats[j].is_active {
                    (PlayerState {
                        is_folded: false,
                        current_bet: 0,
                        is_all_in: false,
                        ..t0.seats[j]
                    })
                } else {
                    t0.seats[j]
                }),
            forall|j: int| i as int <= j < n as int ==> table@.seats[j] == t0.seats[j],
            table@ == (TableView { seats: table@.seats, ..tc }),
        decreases n - i,
    {
        let mut s = table.seats[i];
        if s.is_active {
            s.is_folded = false;
            s.current_bet = 0;
            s.is_all_in = false;
            table.seats[i] = s;
        }
        i = i + 1;
    }
    proof {
        assert(table@.seats =~= spec_reset_table(t0, caller).unwrap().seats);
        lemma_chips_sum_pointwise(table@.seats, t0.seats);
        assert(spec_reset_table(t0, caller) == Result::<TableView, ErrorCode>::Ok(table@));
        assert(table@.wf());
    }
    Result::Ok(())
}

// ---------------------------------------------------------------------------
// leave_table
// ---------------------------------------------------------------------------

/// Lowest occupied slot index at or after `i`, if any.
pub open spec fn first_occupied_from(players: Seq<u64>, i: int) -> Option<int>
    decreases players.len() - i,
{
    if i < 0 || i >= players.len() {
        Option::None
    } else if players[i] != EMPTY_SEAT {
        Option::Some(i)
    } else {
        first_occupied_from(players, i + 1)
    }
}

fn find_first_occupied(players: &Vec<u64>) -> (r: Option<usize>)
    ensures
        (match r {
            Option::Some(j) => first_occupied_from(players@, 0) == Option::Some(j as int) && (
            j as int) < players@.len() && players@[j as int] != EMPTY_SEAT,
            Option::None => first_occupied_from(players@, 0) is None,
        }),
{
    let n = players.len();
    let mut i: usize = 0;
    while i < n
        invariant
            i <= n,
            n == players@.len(),
            first_occupied_from(players@, 0) == first_occupied_from(players@, i as int),
        decreases n - i,
    {
        if players[i] != EMPTY_SEAT {
            return Option::Some(i);
        }
        i = i + 1;
    }
    Option::None
}

/// Outcome of a leave by `player`: allowed only while the table is
/// waiting or finished, never mid-hand. The seat is vacated and zeroed,
/// the seat count drops, and the seat's whole chip balance is owed back
/// to the player. If the host leaves and seats remain, the host role
/// passes to the first remaining occupied seat in scan order.
pub open spec fn spec_leave_table(t: TableView, player: u64) -> Result<
    (TableView, u64),
    ErrorCode,
> {
    if t.status != TableStatus::Waiting && t.status != TableStatus::Finished {
        Result::Err(ErrorCode::CannotLeaveActiveGame)
    } else if player == EMPTY_SEAT {
        Result::Err(ErrorCode::PlayerNotAtTable)
    } else {
        match seat_index_of(t.players, player) {
            Option::None => Result::Err(ErrorCode::PlayerNotAtTable),
            Option::Some(i) => {
                let payout = t.seats[i].chips;
                let players1 = t.players.update(i, EMPTY_SEAT);
                let seats1 = t.seats.update(
                    i,
                    PlayerState { is_active: false, chips: 0, ..t.seats[i] },
                );
                let host1 = if player == t.host && t.player_count > 1 {
                    match first_occupied_from(players1, 0) {
                        Option::Some(j) => players1[j],
                        Option::None => t.host,
                    }
                } else {
                    t.host
                };
                Result::Ok(
                    (
                        TableView {
                            players: players1,
                            seats: seats1,
                            player_count: (t.player_count - 1) as u8,
                            host: host1,
                            ..t
                        },
                        payout,
                    ),
                )
            },
        }
    }
}

/// TableLifecycle: leave the table. Applies exactly `spec_leave_table`;
/// on rejection the table is untouched. On success the returned amount is
/// the vacated seat's whole chip balance, which the escrow must pay back
/// out: the table's funds drop by exactly that amount.
pub fn leave_table(table: &mut Table, player: u64) -> (r: Result<u64, ErrorCode>)
    requires
        old(table)@.wf(),
    ensures
        final(table)@.wf(),
        (match r {
            Result::Ok(payout) => spec_leave_table(old(table)@, player) == Result::<
                (TableView, u64),
                ErrorCode,
            >::Ok((final(table)@, payout)) && final(table)@.funds() == old(table)@.funds()
                - payout,
            Result::Err(e) => spec_leave_table(old(table)@, player) == Result::<
                (TableView, u64),
                ErrorCode,
            >::Err(e) && final(table)@ == old(table)@,
        }),
{
    let ghost t0 = table@;
    if table.status != TableStatus::Waiting && table.status != TableStatus::Finished {
        return Result::Err(ErrorCode::CannotLeaveActiveGame);
    }
    if player == EMPTY_SEAT {
        return Result::Err(ErrorCode::PlayerNotAtTable);
    }
    let idx = match crate::engine::find_seat(&table.players, player) {
        Option::Some(i) => i,
        Option::None => {
            return Result::Err(ErrorCode::PlayerNotAtTable);
        },
    };
    let payout = table.seats[idx].chips;
    proof {
        lemma_count_occupied_pos(t0.players, idx as int);
        lemma_count_occupied_update(t0.players, idx as int, EMPTY_SEAT);
        lemma_chips_sum_update(
            t0.seats,
            idx as int,
            PlayerState { is_active: false, chips: 0, ..t0.seats[idx as int] },
        );
    }
    table.players[idx] = EMPTY_SEAT;
    table.player_count = table.player_count - 1;
    let mut s = table.seats[idx];
    s.is_active = false;
    s.chips = 0;
    table.seats[idx] = s;
    if player == table.host && table.player_count > 0 {
        match find_first_occupied(&table.players) {
            Option::Some(j) => {
                let new_host = table.players[j];
                table.host = new_host;
            },
            Option::None => {},
        }
    }
    proof {
        assert(table@.players == t0.players.update(idx as int, EMPTY_SEAT));
        assert(table@.seats == t0.seats.update(
            idx as int,
            PlayerState { is_active: false, chips: 0, ..t0.seats[idx as int] },
        ));
        assert(spec_leave_table(t0, player) == Result::<(TableView, u64), ErrorCode>::Ok(
            (table@, payout),
        ));
        let tv = table@;
        assert forall|a: int|
            0 <= a < tv.players.len() && !occupied(tv.players, a)
                implies !tv.seats[a].is_active && tv.seats[a].chips == 0 by {
            if a != idx as int {
                assert(tv.players[a] == t0.players[a]);
                assert(!occupied(t0.players, a));
                assert(tv.seats[a] == t0.seats[a]);
            }
        }
        assert forall|a: int|
            0 <= a < tv.players.len() && occupied(tv.players, a)
                implies tv.seats[a].is_active by {
            assert(a != idx as int);
            assert(tv.players[a] == t0.players[a]);
            assert(occupied(t0.players, a));
            assert(tv.seats[a] == t0.seats[a]);
        }
        assert(tv.status == TableStatus::Waiting ==> t0.status == TableStatus::Waiting);
        if tv.status == TableStatus::Waiting {
            assert forall|a: int|
                0 <= a < tv.players.len() && occupied(tv.players, a)
                    implies tv.seats[a].current_bet == 0 by {
                assert(a != idx as int);
                assert(tv.players[a] == t0.players[a]);
                assert(occupied(t0.players, a));
                assert(tv.seats[a] == t0.seats[a]);
            }
        }
        assert forall|a: int|
            0 <= a < tv.players.len() && occupied(tv.players, a) && tv.seats[a].is_active
                && !tv.seats[a].is_folded && !tv.seats[a].is_all_in
                implies tv.seats[a].current_bet <= tv.highest_bet by {
            assert(a != idx as int);
            assert(tv.players[a] == t0.players[a]);
            assert(occupied(t0.players, a));
            assert(tv.seats[a] == t0.seats[a]);
        }
        assert(table@.wf());
    }
    Result::Ok(payout)
}

// ---------------------------------------------------------------------------
// Seat reuse law
// ---------------------------------------------------------------------------

/// Law: a vacated seat is reused first. If `player` leaves from slot `i`
/// of a well-formed table whose lower-indexed slots are all occupied, the
/// vacated slot `i` is empty afterwards, and a join that then succeeds
/// seats the newcomer `q` exactly at slot `i`.
pub proof fn lemma_seat_reuse(
    t: TableView,
    player: u64,
    q: u64,
    i: int,
    t1: TableView,
    payout: u64,
    t2: TableView,
)
    requires
        t.wf(),
        0 <= i < t.players.len(),
        t.players[i] == player,
        player != EMPTY_SEAT,
        q != EMPTY_SEAT,
        forall|j: int| 0 <= j < i ==> t.players[j] != EMPTY_SEAT,
        spec_leave_table(t, player) == Result::<(TableView, u64), ErrorCode>::Ok((t1, payout)),
        spec_join_table(t1, q) == Result::<TableView, ErrorCode>::Ok(t2),
    ensures
        t1.players[i] == EMPTY_SEAT,
        t2.players == t1.players.update(i, q),
        t2.players[i] == q,
        t2.seats[i] == funded_seat(q, t1.buy_in),
{
    // the leaver's slot is unique, so the seat scan finds exactly `i`
    crate::engine::lemma_seat_index_from(t.players, player, 0);
    let k = seat_index_of(t.players, player).unwrap();
    assert(t.players[k] == player);
    if k != i {
        if k < i {
            assert(t.players[k] != t.players[i]);
        } else {
            assert(t.players[i] != t.players[k]);
        }
        assert(false);
    }
    assert(t1.players == t.players.update(i, EMPTY_SEAT));
    // the lowest empty slot of the vacated table is `i` itself
    crate::engine::lemma_seat_index_from(t1.players, EMPTY_SEAT, 0);
    match seat_index_of(t1.players, EMPTY_SEAT) {
        Option::None => {
            assert(t1.players[i] == EMPTY_SEAT);
            assert(false);
        },
        Option::Some(m) => {
            assert(t1.players[m] == EMPTY_SEAT);
            if m < i {
                assert(t1.players[m] == t.players[m]);
                assert(false);
            }
            if m > i {
                // minimality: every slot below `m` is occupied, yet `i` is empty
                assert(t1.players[i] != EMPTY_SEAT);
                assert(false);
            }
            assert(m == i);
        },
    }
}

} // verus!
