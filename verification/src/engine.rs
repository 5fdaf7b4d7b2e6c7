//! Betting engine: strict turn order, validation and application of the
//! bet / check / call / fold actions, and round-completion detection.
//!
//! Every action is specified by a total spec-level transition function over
//! `TableView`; the executable function returns exactly the outcome of its
//! transition function and mutates the table only on success.

use vstd::prelude::*;

use crate::state::{
    chips_sum, count_occupied, occupied, ErrorCode, PlayerState, Table, TableStatus, TableView,
    EMPTY_SEAT,
};

verus! {

// ---------------------------------------------------------------------------
// Turn scheduling
// ---------------------------------------------------------------------------

/// Circular occupancy scan: the first occupied slot at offset `d` or more
/// after `start` (modulo the full seat-array length), or `start` itself if a
/// whole revolution finds none. Only occupancy is tested, not fold or
/// all-in status.
pub open spec fn scan_occupied(players: Seq<u64>, start: int, d: int) -> int
    decreases players.len() - d,
{
    let n = players.len() as int;
    if d >= n {
        start
    } else if players[(start + d) % n] != EMPTY_SEAT {
        (start + d) % n
    } else {
        scan_occupied(players, start, d + 1)
    }
}

/// The seat that acts after `start`: the next occupied slot in circular
/// scan order, or `start` when no other slot is occupied.
pub open spec fn next_player_index(players: Seq<u64>, start: int) -> int {
    scan_occupied(players, start, 1)
}

pub proof fn lemma_scan_occupied_bounds(players: Seq<u64>, start: int, d: int)
    requires
        0 <= start < players.len(),
        1 <= d,
    ensures
        0 <= scan_occupied(players, start, d) < players.len(),
    decreases players.len() - d,
{
    let n = players.len() as int;
    if d >= n {
    } else {
        assert(0 <= (start + d) % n < n) by (nonlinear_arith)
            requires n > 0 && start + d >= 0;
        if players[(start + d) % n] == EMPTY_SEAT {
            lemma_scan_occupied_bounds(players, start, d + 1);
        }
    }
}

/// Move `current_player_index` to the next occupied seat.
pub open spec fn spec_advance(t: TableView) -> TableView {
    TableView {
        current_player_index: next_player_index(
            t.players,
            t.current_player_index as int,
        ) as u8,
        ..t
    }
}

/// Find the next occupied slot after `start`, scanning circularly over the
/// whole fixed-length seat array.
fn next_occupied_index(players: &Vec<u64>, start: usize) -> (r: usize)
    requires
        start < players@.len(),
        players@.len() <= 9,
    ensures
        r as int == next_player_index(players@, start as int),
        r < players@.len(),
{
    let n = players.len();
    let mut d: usize = 1;
    while d < n
        invariant
            1 <= d <= n,
            n == players@.len(),
            start < n <= 9,
            next_player_index(players@, start as int)
                == scan_occupied(players@, start as int, d as int),
        decreases n - d,
    {
        let idx = (start + d) % n;
        if players[idx] != EMPTY_SEAT {
            return idx;
        }
        d = d + 1;
    }
    start
}

/// TurnScheduler: advance `current_player_index` to the next occupied seat
/// in circular scan order; a full revolution with no other occupant leaves
/// it unchanged.
pub fn advance_to_next_player(table: &mut Table)
    requires
        old(table)@.wf(),
    ensures
        final(table)@ == spec_advance(old(table)@),
        final(table)@.wf(),
{
    let cur = table.current_player_index as usize;
    proof {
        lemma_scan_occupied_bounds(table@.players, cur as int, 1);
    }
    let nxt = next_occupied_index(&table.players, cur);
    table.current_player_index = nxt as u8;
}

// ---------------------------------------------------------------------------
// Round completion
// ---------------------------------------------------------------------------

/// Seat `i` still owes betting decisions this round: occupied, active,
/// neither folded nor all-in.
pub open spec fn bettor(t: TableView, i: int) -> bool {
    occupied(t.players, i) && t.seats[i].is_active && !t.seats[i].is_folded
        && !t.seats[i].is_all_in
}

/// A betting round is complete when every seat that can still bet has
/// matched the highest bet.
pub open spec fn round_complete(t: TableView) -> bool {
    forall|i: int|
        0 <= i < t.players.len() && bettor(t, i) ==> t.seats[i].current_bet == t.highest_bet
}

/// The fixed round sequence; no-op past Showdown.
pub open spec fn next_round(r: crate::state::Round) -> crate::state::Round {
    match r {
        crate::state::Round::PreFlop => crate::state::Round::Flop,
        crate::state::Round::Flop => crate::state::Round::Turn,
        crate::state::Round::Turn => crate::state::Round::River,
        crate::state::Round::River => crate::state::Round::Showdown,
        _ => r,
    }
}

/// Every seat's per-round bet marker reset to zero.
pub open spec fn clear_bets(seats: Seq<PlayerState>) -> Seq<PlayerState> {
    Seq::new(seats.len(), |i: int| PlayerState { current_bet: 0, ..seats[i] })
}

/// End-of-round reset: bets cleared, highest bet zeroed, round advanced,
/// and the turn handed to the first occupied seat after the dealer.
pub open spec fn spec_complete_round(t: TableView) -> TableView {
    TableView {
        seats: clear_bets(t.seats),
        highest_bet: 0,
        round: next_round(t.round),
        current_player_index: next_player_index(t.players, t.dealer_index as int) as u8,
        ..t
    }
}

pub open spec fn spec_check_round_completion(t: TableView) -> TableView {
    if round_complete(t) {
        spec_complete_round(t)
    } else {
        t
    }
}

/// What every action that does not end the hand does after mutating:
/// advance the turn, then reset the round if it completed.
pub open spec fn spec_post_action(t: TableView) -> TableView {
    spec_check_round_completion(spec_advance(t))
}

pub proof fn lemma_clear_bets_chips(seats: Seq<PlayerState>)
    ensures
        chips_sum(clear_bets(seats)) == chips_sum(seats),
{
    crate::state::lemma_chips_sum_pointwise(clear_bets(seats), seats);
}

/// Conservation through the shared post-action step: neither advancing the
/// turn nor resetting the round moves any chips.
pub proof fn lemma_post_action_funds(t: TableView)
    ensures
        spec_post_action(t).funds() == t.funds(),
{
    let t1 = spec_advance(t);
    if round_complete(t1) {
        lemma_clear_bets_chips(t1.seats);
    }
}

fn is_round_complete(table: &Table) -> (b: bool)
    requires
        table@.wf(),
    ensures
        b == round_complete(table@),
{
    let n = table.players.len();
    let mut i: usize = 0;
    while i < n
        invariant
            i <= n,
            n == table@.players.len(),
            table@.wf(),
            forall|j: int|
                0 <= j < i as int && bettor(table@, j)
                    ==> table@.seats[j].current_bet == table@.highest_bet,
        decreases n - i,
    {
        if table.players[i] != EMPTY_SEAT {
            let seat = table.seats[i];
            if !seat.is_folded && seat.is_active && !seat.is_all_in
                && seat.current_bet < table.highest_bet {
                proof {
                    assert(bettor(table@, i as int));
                    assert(table@.seats[i as int].current_bet != table@.highest_bet);
                }
                return false;
            }
        }
        i = i + 1;
    }
    true
}

/// BettingEngine helper: detect a completed betting round and, if complete,
/// clear every bet marker, zero the highest bet, advance the round, and
/// point the turn at the first occupied seat after the dealer.
pub fn check_round_completion(table: &mut Table)
    requires
        old(table)@.wf(),
    ensures
        final(table)@ == spec_check_round_completion(old(table)@),
        final(table)@.wf(),
{
    let complete = is_round_complete(table);
    if !complete {
        return;
    }
    let ghost orig = table@;
    let n = table.seats.len();
    let mut i: usize = 0;
    while i < n
        invariant
            i <= n,
            n == table@.seats.len(),
            table@.seats.len() == orig.seats.len(),
            forall|j: int|
                0 <= j < i as int
                    ==> table@.seats[j] == (PlayerState { current_bet: 0, ..orig.seats[j] }),
            forall|j: int| i as int <= j < n as int ==> table@.seats[j] == orig.seats[j],
            table@ == (TableView { seats: table@.seats, ..orig }),
        decreases n - i,
    {
        let mut s = table.seats[i];
        s.current_bet = 0;
        table.seats[i] = s;
        i = i + 1;
    }
    proof {
        assert(table@.seats =~= clear_bets(orig.seats));
    }
    table.highest_bet = 0;
    table.round = match table.round {
        crate::state::Round::PreFlop => crate::state::Round::Flop,
        crate::state::Round::Flop => crate::state::Round::Turn,
        crate::state::Round::Turn => crate::state::Round::River,
        crate::state::Round::River => crate::state::Round::Showdown,
        r => r,
    };
    let dealer = table.dealer_index as usize;
    proof {
        lemma_scan_occupied_bounds(table@.players, dealer as int, 1);
    }
    let nxt = next_occupied_index(&table.players, dealer);
    table.current_player_index = nxt as u8;
}

// ---------------------------------------------------------------------------
// Seat lookup and the common action gate
// ---------------------------------------------------------------------------

/// Lowest index at or after `i` whose slot holds identity `p`.
pub open spec fn seat_index_from(players: Seq<u64>, p: u64, i: int) -> Option<int>
    decreases players.len() - i,
{
    if i < 0 || i >= players.len() {
        Option::None
    } else if players[i] == p {
        Option::Some(i)
    } else {
        seat_index_from(players, p, i + 1)
    }
}

/// Lowest index whose slot holds identity `p`, if any.
pub open spec fn seat_index_of(players: Seq<u64>, p: u64) -> Option<int> {
    seat_index_from(players, p, 0)
}

pub proof fn lemma_seat_index_from(players: Seq<u64>, p: u64, i: int)
    requires
        0 <= i,
    ensures
        (match seat_index_from(players, p, i) {
            Option::Some(k) => i <= k < players.len() && players[k] == p && (forall|j: int|
                i <= j < k ==> players[j] != p),
            Option::None => forall|j: int| i <= j < players.len() ==> players[j] != p,
        }),
    decreases players.len() - i,
{
    if i < players.len() && players[i] != p {
        lemma_seat_index_from(players, p, i + 1);
    }
}

pub(crate) fn find_seat(players: &Vec<u64>, p: u64) -> (r: Option<usize>)
    ensures
        (match r {
            Option::Some(i) => seat_index_of(players@, p) == Option::Some(i as int)
                && (i as int) < players@.len() && players@[i as int] == p,
            Option::None => seat_index_of(players@, p) is None,
        }),
{
    let n = players.len();
    let mut i: usize = 0;
    while i < n
        invariant
            i <= n,
            n == players@.len(),
            seat_index_of(players@, p) == seat_index_from(players@, p, i as int),
        decreases n - i,
    {
        if players[i] == p {
            return Option::Some(i);
        }
        i = i + 1;
    }
    Option::None
}

/// The shared validation gate of every player action: the caller must hold
/// a seat, the table must be in play, the seat neither folded nor
/// inactive, and the turn must be the caller's. Returns the caller's seat
/// index or the first violated condition's error.
pub open spec fn action_seat(t: TableView, player: u64) -> Result<int, ErrorCode> {
    match seat_index_of(t.players, player) {
        Option::None => Result::Err(ErrorCode::PlayerNotAtTable),
        Option::Some(i) => {
            if t.status != TableStatus::Playing {
                Result::Err(ErrorCode::GameNotInProgress)
            } else if t.seats[i].is_folded {
                Result::Err(ErrorCode::PlayerFolded)
            } else if !t.seats[i].is_active {
                Result::Err(ErrorCode::PlayerNotActive)
            } else if t.players[t.current_player_index as int] != player {
                Result::Err(ErrorCode::NotPlayerTurn)
            } else {
                Result::Ok(i)
            }
        },
    }
}

fn action_prologue(table: &Table, player: u64) -> (r: Result<usize, ErrorCode>)
    requires
        table@.wf(),
    ensures
        (match r {
            Result::Ok(i) => action_seat(table@, player) == Result::<int, ErrorCode>::Ok(
                i as int,
            ) && (i as int) < table@.seats.len(),
            Result::Err(e) => action_seat(table@, player) == Result::<int, ErrorCode>::Err(e),
        }),
{
    let idx = match find_seat(&table.players, player) {
        Option::Some(i) => i,
        Option::None => {
            return Result::Err(ErrorCode::PlayerNotAtTable);
        },
    };
    if table.status != TableStatus::Playing {
        return Result::Err(ErrorCode::GameNotInProgress);
    }
    let seat = table.seats[idx];
    if seat.is_folded {
        return Result::Err(ErrorCode::PlayerFolded);
    }
    if !seat.is_active {
        return Result::Err(ErrorCode::PlayerNotActive);
    }
    if table.players[table.current_player_index as usize] != player {
        return Result::Err(ErrorCode::NotPlayerTurn);
    }
    Result::Ok(idx)
}

// ---------------------------------------------------------------------------
// bet
// ---------------------------------------------------------------------------

/// Outcome of a bet or raise to `amount` by `player`: the additional stake
/// is `amount` minus the seat's committed bet; a raise above the highest
/// bet must reach at least highest bet plus big blind; matching the
/// highest bet exactly is a call-equivalent; anything else is rejected.
/// On success the stake moves from the seat to the pot, the highest bet
/// rises to `amount` if exceeded, and the turn advances with
/// round-completion detection.
pub open spec fn spec_bet(t: TableView, player: u64, amount: u64) -> Result<
    TableView,
    ErrorCode,
> {
    match action_seat(t, player) {
        Result::Err(e) => Result::Err(e),
        Result::Ok(i) => {
            let s = t.seats[i];
            if amount < s.current_bet {
                Result::Err(ErrorCode::ArithmeticError)
            } else {
                let delta = amount - s.current_bet;
                if s.chips < delta {
                    Result::Err(ErrorCode::InsufficientChips)
                } else if amount > t.highest_bet && t.highest_bet + t.big_blind > u64::MAX {
                    Result::Err(ErrorCode::ArithmeticError)
                } else if amount > t.highest_bet && amount < t.highest_bet + t.big_blind {
                    Result::Err(ErrorCode::BetTooSmall)
                } else if amount < t.highest_bet {
                    Result::Err(ErrorCode::BetTooSmall)
                } else if t.pot + delta > u64::MAX {
                    Result::Err(ErrorCode::ArithmeticError)
                } else {
                    Result::Ok(
                        spec_post_action(
                            TableView {
                                seats: t.seats.update(
                                    i,
                                    PlayerState {
                                        chips: (s.chips - delta) as u64,
                                        current_bet: amount,
                                        ..s
                                    },
                                ),
                                pot: (t.pot + delta) as u64,
                                highest_bet: if amount > t.highest_bet {
                                    amount
                                } else {
                                    t.highest_bet
                                },
                                ..t
                            },
                        ),
                    )
                }
            }
        },
    }
}

/// BettingEngine: place a bet or raise. Applies exactly `spec_bet`; on any
/// rejection the table is untouched; on success the table's total funds
/// (pot plus all seats' chips) are unchanged; an identity out of turn is
/// always rejected.
pub fn bet(table: &mut Table, player: u64, amount: u64) -> (r: Result<(), ErrorCode>)
    requires
        old(table)@.wf(),
    ensures
        final(table)@.wf(),
        (match r {
            Result::Ok(()) => spec_bet(old(table)@, player, amount) == Result::<
                TableView,
                ErrorCode,
            >::Ok(final(table)@),
            Result::Err(e) => spec_bet(old(table)@, player, amount) == Result::<
                TableView,
                ErrorCode,
            >::Err(e) && final(table)@ == old(table)@,
        }),
        r is Ok ==> final(table)@.funds() == old(table)@.funds(),
        player != old(table)@.players[old(table)@.current_player_index as int] ==> r is Err,
{
    let ghost t0 = table@;
    let idx = match action_prologue(table, player) {
        Result::Ok(i) => i,
        Result::Err(e) => {
            return Result::Err(e);
        },
    };
    let seat = table.seats[idx];
    if amount < seat.current_bet {
        return Result::Err(ErrorCode::ArithmeticError);
    }
    let delta = amount - seat.current_bet;
    if seat.chips < delta {
        return Result::Err(ErrorCode::InsufficientChips);
    }
    if amount > table.highest_bet {
        let min_raise = match table.highest_bet.checked_add(table.big_blind) {
            Option::Some(m) => m,
            Option::None => {
                return Result::Err(ErrorCode::ArithmeticError);
            },
        };
        if amount < min_raise {
            return Result::Err(ErrorCode::BetTooSmall);
        }
    } else if amount < table.highest_bet {
        return Result::Err(ErrorCode::BetTooSmall);
    }
    let new_pot = match table.pot.checked_add(delta) {
        Option::Some(p) => p,
        Option::None => {
            return Result::Err(ErrorCode::ArithmeticError);
        },
    };
    let mut s = seat;
    s.chips = seat.chips - delta;
    s.current_bet = amount;
    table.seats[idx] = s;
    table.pot = new_pot;
    if amount > table.highest_bet {
        table.highest_bet = amount;
    }
    let ghost mid = table@;
    proof {
        crate::state::lemma_chips_sum_update(t0.seats, idx as int, s);
        assert(mid.wf());
        assert(mid.funds() == t0.funds());
    }
    advance_to_next_player(table);
    check_round_completion(table);
    proof {
        lemma_post_action_funds(mid);
        assert(spec_bet(t0, player, amount) == Result::<TableView, ErrorCode>::Ok(table@));
    }
    Result::Ok(())
}

// ---------------------------------------------------------------------------
// check
// ---------------------------------------------------------------------------

/// Outcome of a check by `player`: permitted only when nothing is
/// outstanding (highest bet is zero or the seat already matches it); moves
/// no chips, then advances the turn with round-completion detection.
pub open spec fn spec_check(t: TableView, player: u64) -> Result<TableView, ErrorCode> {
    match action_seat(t, player) {
        Result::Err(e) => Result::Err(e),
        Result::Ok(i) => {
            if !(t.highest_bet == 0 || t.seats[i].current_bet == t.highest_bet) {
                Result::Err(ErrorCode::CannotCheck)
            } else {
                Result::Ok(spec_post_action(t))
            }
        },
    }
}

/// BettingEngine: check. Applies exactly `spec_check`; on any rejection
/// the table is untouched; total funds are always unchanged; an identity
/// out of turn is always rejected.
pub fn check(table: &mut Table, player: u64) -> (r: Result<(), ErrorCode>)
    requires
        old(table)@.wf(),
    ensures
        final(table)@.wf(),
        (match r {
            Result::Ok(()) => spec_check(old(table)@, player) == Result::<
                TableView,
                ErrorCode,
            >::Ok(final(table)@),
            Result::Err(e) => spec_check(old(table)@, player) == Result::<
                TableView,
                ErrorCode,
            >::Err(e) && final(table)@ == old(table)@,
        }),
        final(table)@.funds() == old(table)@.funds(),
        player != old(table)@.players[old(table)@.current_player_index as int] ==> r is Err,
{
    let ghost t0 = table@;
    let idx = match action_prologue(table, player) {
        Result::Ok(i) => i,
        Result::Err(e) => {
            return Result::Err(e);
        },
    };
    let seat = table.seats[idx];
    if !(table.highest_bet == 0 || seat.current_bet == table.highest_bet) {
        return Result::Err(ErrorCode::CannotCheck);
    }
    advance_to_next_player(table);
    check_round_completion(table);
    proof {
        lemma_post_action_funds(t0);
        assert(spec_check(t0, player) == Result::<TableView, ErrorCode>::Ok(table@));
    }
    Result::Ok(())
}

// ---------------------------------------------------------------------------
// call
// ---------------------------------------------------------------------------

/// Outcome of a call by `player`: pay the smaller of the amount still
/// needed to match the highest bet and the seat's whole stack; a seat that
/// cannot cover the full amount goes all-in and is thereafter exempt from
/// the completion test. The paid amount moves to the pot and the turn
/// advances with round-completion detection.
pub open spec fn spec_call(t: TableView, player: u64) -> Result<TableView, ErrorCode> {
    match action_seat(t, player) {
        Result::Err(e) => Result::Err(e),
        Result::Ok(i) => {
            let s = t.seats[i];
            if t.highest_bet < s.current_bet {
                Result::Err(ErrorCode::ArithmeticError)
            } else {
                let needed = t.highest_bet - s.current_bet;
                let paid = if needed < s.chips {
                    needed
                } else {
                    s.chips as int
                };
                if t.pot + paid > u64::MAX {
                    Result::Err(ErrorCode::ArithmeticError)
                } else {
                    Result::Ok(
                        spec_post_action(
                            TableView {
                                seats: t.seats.update(
                                    i,
                                    PlayerState {
                                        chips: (s.chips - paid) as u64,
                                        current_bet: (s.current_bet + paid) as u64,
                                        is_all_in: if paid < needed {
                                            true
                                        } else {
                                            s.is_all_in
                                        },
                                        ..s
                                    },
                                ),
                                pot: (t.pot + paid) as u64,
                                ..t
                            },
                        ),
                    )
                }
            }
        },
    }
}

/// BettingEngine: call the current highest bet, going all-in when the
/// stack cannot cover it. Applies exactly `spec_call`; on any rejection
/// the table is untouched; on success total funds are unchanged; an
/// identity out of turn is always rejected.
pub fn call(table: &mut Table, player: u64) -> (r: Result<(), ErrorCode>)
    requires
        old(table)@.wf(),
    ensures
        final(table)@.wf(),
        (match r {
            Result::Ok(()) => spec_call(old(table)@, player) == Result::<
                TableView,
                ErrorCode,
            >::Ok(final(table)@),
            Result::Err(e) => spec_call(old(table)@, player) == Result::<
                TableView,
                ErrorCode,
            >::Err(e) && final(table)@ == old(table)@,
        }),
        r is Ok ==> final(table)@.funds() == old(table)@.funds(),
        player != old(table)@.players[old(table)@.current_player_index as int] ==> r is Err,
{
    let ghost t0 = table@;
    let idx = match action_prologue(table, player) {
        Result::Ok(i) => i,
        Result::Err(e) => {
            return Result::Err(e);
        },
    };
    let seat = table.seats[idx];
    let needed = match table.highest_bet.checked_sub(seat.current_bet) {
        Option::Some(n) => n,
        Option::None => {
            return Result::Err(ErrorCode::ArithmeticError);
        },
    };
    let paid = if needed < seat.chips {
        needed
    } else {
        seat.chips
    };
    let new_pot = match table.pot.checked_add(paid) {
        Option::Some(p) => p,
        Option::None => {
            return Result::Err(ErrorCode::ArithmeticError);
        },
    };
    let mut s = seat;
    s.chips = seat.chips - paid;
    s.current_bet = seat.current_bet + paid;
    if paid < needed {
        s.is_all_in = true;
    }
    table.seats[idx] = s;
    table.pot = new_pot;
    let ghost mid = table@;
    proof {
        crate::state::lemma_chips_sum_update(t0.seats, idx as int, s);
        assert(mid.wf());
        assert(mid.funds() == t0.funds());
    }
    advance_to_next_player(table);
    check_round_completion(table);
    proof {
        lemma_post_action_funds(mid);
        assert(spec_call(t0, player) == Result::<TableView, ErrorCode>::Ok(table@));
    }
    Result::Ok(())
}

// ---------------------------------------------------------------------------
// fold
// ---------------------------------------------------------------------------

/// Seat `i` is still contending for the pot: occupied, active and not
/// folded.
pub open spec fn active_seat(t: TableView, i: int) -> bool {
    occupied(t.players, i) && t.seats[i].is_active && !t.seats[i].is_folded
}

pub open spec fn count_active_upto(t: TableView, n: int) -> int
    decreases n,
{
    if n <= 0 {
        0
    } else {
        count_active_upto(t, n - 1) + if active_seat(t, n - 1) {
            1int
        } else {
            0int
        }
    }
}

/// Number of seats still contending for the pot.
pub open spec fn count_active(t: TableView) -> int {
    count_active_upto(t, t.players.len() as int)
}

/// Lowest contending seat index at or after `i`, or the seat-array length
/// when none remains.
pub open spec fn first_active_from(t: TableView, i: int) -> int
    decreases t.players.len() - i,
{
    if i < 0 || i >= t.players.len() {
        t.players.len() as int
    } else if active_seat(t, i) {
        i
    } else {
        first_active_from(t, i + 1)
    }
}

pub open spec fn first_active(t: TableView) -> int {
    first_active_from(t, 0)
}

pub proof fn lemma_count_active_upto_update(t: TableView, t2: TableView, idx: int, n: int)
    requires
        t2.players == t.players,
        t2.seats.len() == t.seats.len(),
        t.players.len() == t.seats.len(),
        0 <= idx < t.seats.len(),
        n <= t.seats.len(),
        forall|j: int| 0 <= j < t.seats.len() && j != idx ==> t2.seats[j] == t.seats[j],
    ensures
        count_active_upto(t2, n) == count_active_upto(t, n) - (if 0 <= idx < n && active_seat(
            t,
            idx,
        ) {
            1int
        } else {
            0int
        }) + (if 0 <= idx < n && active_seat(t2, idx) {
            1int
        } else {
            0int
        }),
    decreases n,
{
    if n > 0 {
        lemma_count_active_upto_update(t, t2, idx, n - 1);
    }
}

pub proof fn lemma_count_active_upto_congruence(a: TableView, b: TableView, n: int)
    requires
        a.players == b.players,
        a.seats == b.seats,
    ensures
        count_active_upto(a, n) == count_active_upto(b, n),
    decreases n,
{
    if n > 0 {
        lemma_count_active_upto_congruence(a, b, n - 1);
    }
}

pub proof fn lemma_first_active_from_props(t: TableView, i: int)
    requires
        0 <= i,
    ensures
        0 <= first_active_from(t, i) <= t.players.len(),
        first_active_from(t, i) < t.players.len() ==> active_seat(t, first_active_from(t, i))
            && i <= first_active_from(t, i),
        first_active_from(t, i) == t.players.len() as int ==> forall|j: int|
            i <= j < t.players.len() ==> !active_seat(t, j),
    decreases t.players.len() - i,
{
    if i < t.players.len() && !active_seat(t, i) {
        lemma_first_active_from_props(t, i + 1);
    }
}

pub proof fn lemma_count_active_none(t: TableView, n: int)
    requires
        0 <= n,
        forall|j: int| 0 <= j < n ==> !active_seat(t, j),
    ensures
        count_active_upto(t, n) == 0,
    decreases n,
{
    if n > 0 {
        lemma_count_active_none(t, n - 1);
    }
}

/// Count the seats that are occupied, active and not folded.
pub fn count_active_players(table: &Table) -> (c: usize)
    requires
        table@.wf(),
    ensures
        c as int == count_active(table@),
{
    let n = table.players.len();
    let mut c: usize = 0;
    let mut i: usize = 0;
    while i < n
        invariant
            i <= n,
            c <= i,
            n == table@.players.len(),
            table@.wf(),
            c as int == count_active_upto(table@, i as int),
        decreases n - i,
    {
        if table.players[i] != EMPTY_SEAT {
            let seat = table.seats[i];
            if !seat.is_folded && seat.is_active {
                c = c + 1;
            }
        }
        i = i + 1;
    }
    c
}

/// Find the first contending seat of the folded-and-advanced view `t1`,
/// walking the real table, whose seats differ from `t1` only at `skip`
/// (the seat that just folded).
fn find_first_active_excluding(table: &Table, skip: usize, Ghost(t1): Ghost<TableView>) -> (w:
    usize)
    requires
        table@.wf(),
        t1.players == table@.players,
        t1.seats.len() == table@.seats.len(),
        skip < table@.seats.len(),
        forall|j: int|
            0 <= j < table@.seats.len() && j != skip as int ==> t1.seats[j] == table@.seats[j],
        !active_seat(t1, skip as int),
        count_active(t1) >= 1,
    ensures
        first_active(t1) == w as int,
        (w as int) < table@.seats.len(),
        active_seat(t1, w as int),
        w != skip,
{
    let n = table.players.len();
    let mut i: usize = 0;
    while i < n
        invariant
            i <= n,
            n == table@.players.len(),
            table@.wf(),
            t1.players == table@.players,
            t1.seats.len() == table@.seats.len(),
            skip < table@.seats.len(),
            forall|j: int|
                0 <= j < table@.seats.len() && j != skip as int ==> t1.seats[j] == table@.seats[j],
            !active_seat(t1, skip as int),
            count_active(t1) >= 1,
            first_active(t1) == first_active_from(t1, i as int),
            forall|j: int| 0 <= j < i as int ==> !active_seat(t1, j),
        decreases n - i,
    {
        if i != skip && table.players[i] != EMPTY_SEAT {
            let seat = table.seats[i];
            if seat.is_active && !seat.is_folded {
                proof {
                    assert(active_seat(t1, i as int));
                }
                return i;
            }
        }
        proof {
            assert(!active_seat(t1, i as int));
        }
        i = i + 1;
    }
    proof {
        lemma_count_active_none(t1, n as int);
    }
    assert(false);
    0
}

/// Outcome of a fold by `player`: the seat is marked folded and the turn
/// advances. If exactly one contender then remains, that seat is
/// immediately awarded the entire pot and the table finishes without a
/// showdown; otherwise round-completion detection runs as usual.
pub open spec fn spec_fold(t: TableView, player: u64) -> Result<TableView, ErrorCode> {
    match action_seat(t, player) {
        Result::Err(e) => Result::Err(e),
        Result::Ok(i) => {
            let t1 = spec_advance(
                TableView {
                    seats: t.seats.update(i, PlayerState { is_folded: true, ..t.seats[i] }),
                    ..t
                },
            );
            if count_active(t1) == 1 {
                let w = first_active(t1);
                if t1.seats[w].chips + t1.pot > u64::MAX {
                    Result::Err(ErrorCode::ArithmeticError)
                } else {
                    Result::Ok(
                        TableView {
                            seats: t1.seats.update(
                                w,
                                PlayerState {
                                    chips: (t1.seats[w].chips + t1.pot) as u64,
                                    ..t1.seats[w]
                                },
                            ),
                            pot: 0,
                            status: TableStatus::Finished,
                            ..t1
                        },
                    )
                }
            } else {
                Result::Ok(spec_check_round_completion(t1))
            }
        },
    }
}

/// Law: conservation. No betting action creates or destroys value: any
/// accepted bet, check, call or fold leaves the table's funds (the pot
/// plus every seat's chips) unchanged. Joining, leaving and creation are
/// the only transitions that move the total, and each moves it by exactly
/// the amount the external escrow transfers.
pub proof fn lemma_action_conservation(t: TableView, player: u64, amount: u64)
    requires
        t.wf(),
    ensures
        spec_bet(t, player, amount) matches Ok(v) ==> v.funds() == t.funds(),
        spec_check(t, player) matches Ok(v) ==> v.funds() == t.funds(),
        spec_call(t, player) matches Ok(v) ==> v.funds() == t.funds(),
        spec_fold(t, player) matches Ok(v) ==> v.funds() == t.funds(),
{
    lemma_seat_index_from(t.players, player, 0);
    match action_seat(t, player) {
        Result::Err(_) => {},
        Result::Ok(i) => {
            let s = t.seats[i];
            // bet
            if amount >= s.current_bet {
                let delta = amount - s.current_bet;
                if s.chips >= delta && t.pot + delta <= u64::MAX {
                    let mid = TableView {
                        seats: t.seats.update(
                            i,
                            PlayerState {
                                chips: (s.chips - delta) as u64,
                                current_bet: amount,
                                ..s
                            },
                        ),
                        pot: (t.pot + delta) as u64,
                        highest_bet: if amount > t.highest_bet {
                            amount
                        } else {
                            t.highest_bet
                        },
                        ..t
                    };
                    crate::state::lemma_chips_sum_update(t.seats, i, mid.seats[i]);
                    lemma_post_action_funds(mid);
                }
            }
            // check
            lemma_post_action_funds(t);
            // call
            if t.highest_bet >= s.current_bet {
                let needed = t.highest_bet - s.current_bet;
                let paid = if needed < s.chips {
                    needed
                } else {
                    s.chips as int
                };
                if t.pot + paid <= u64::MAX {
                    let mid = TableView {
                        seats: t.seats.update(
                            i,
                            PlayerState {
                                chips: (s.chips - paid) as u64,
                                current_bet: (s.current_bet + paid) as u64,
                                is_all_in: if paid < needed {
                                    true
                                } else {
                                    s.is_all_in
                                },
                                ..s
                            },
                        ),
                        pot: (t.pot + paid) as u64,
                        ..t
                    };
                    crate::state::lemma_chips_sum_update(t.seats, i, mid.seats[i]);
                    lemma_post_action_funds(mid);
                }
            }
            // fold
            let t1 = spec_advance(
                TableView {
                    seats: t.seats.update(i, PlayerState { is_folded: true, ..t.seats[i] }),
                    ..t
                },
            );
            crate::state::lemma_chips_sum_update(
                t.seats,
                i,
                PlayerState { is_folded: true, ..t.seats[i] },
            );
            if count_active(t1) == 1 {
                let w = first_active(t1);
                lemma_first_active_from_props(t1, 0);
                if w == t1.players.len() as int {
                    lemma_count_active_none(t1, t1.players.len() as int);
                    assert(false);
                }
                assert(t1.seats.len() == t.seats.len());
                assert(0 <= w < t1.seats.len());
                if t1.seats[w].chips + t1.pot <= u64::MAX {
                    crate::state::lemma_chips_sum_update(
                        t1.seats,
                        w,
                        PlayerState { chips: (t1.seats[w].chips + t1.pot) as u64, ..t1.seats[w] },
                    );
                }
            } else {
                if round_complete(t1) {
                    lemma_clear_bets_chips(t1.seats);
                }
            }
        },
    }
}

/// Law: turn integrity. Whatever the action, an identity other than the
/// one seated at `current_player_index` is rejected; together with each
/// action's contract (a rejected action leaves the table unchanged), an
/// out-of-turn submission can never mutate a table.
pub proof fn lemma_turn_integrity(t: TableView, player: u64, amount: u64)
    requires
        player != t.players[t.current_player_index as int],
    ensures
        spec_bet(t, player, amount) is Err,
        spec_check(t, player) is Err,
        spec_call(t, player) is Err,
        spec_fold(t, player) is Err,
{
    assert(action_seat(t, player) is Err);
}

/// BettingEngine: fold. Applies exactly `spec_fold`, including the
/// fold-to-one-winner shortcut that awards the whole pot and finishes the
/// hand; on any rejection the table is untouched; on success total funds
/// are unchanged; an identity out of turn is always rejected.
pub fn fold(table: &mut Table, player: u64) -> (r: Result<(), ErrorCode>)
    requires
        old(table)@.wf(),
    ensures
        final(table)@.wf(),
        (match r {
            Result::Ok(()) => spec_fold(old(table)@, player) == Result::<
                TableView,
                ErrorCode,
            >::Ok(final(table)@),
            Result::Err(e) => spec_fold(old(table)@, player) == Result::<
                TableView,
                ErrorCode,
            >::Err(e) && final(table)@ == old(table)@,
        }),
        r is Ok ==> final(table)@.funds() == old(table)@.funds(),
        player != old(table)@.players[old(table)@.current_player_index as int] ==> r is Err,
{
    let ghost t0 = table@;
    let idx = match action_prologue(table, player) {
        Result::Ok(i) => i,
        Result::Err(e) => {
            return Result::Err(e);
        },
    };
    let ghost folded_seat = PlayerState { is_folded: true, ..t0.seats[idx as int] };
    let ghost tf = TableView { seats: t0.seats.update(idx as int, folded_seat), ..t0 };
    let ghost t1 = spec_advance(tf);
    let actives = count_active_players(table);
    proof {
        lemma_count_active_upto_update(t0, tf, idx as int, t0.seats.len() as int);
        assert(active_seat(t0, idx as int));
        lemma_count_active_upto_congruence(tf, t1, t1.players.len() as int);
        assert(count_active(t1) == actives as int - 1);
    }
    if actives == 2 {
        // exactly one contender remains after this fold: award the pot
        let w = find_first_active_excluding(table, idx, Ghost(t1));
        let pot = table.pot;
        let wseat = table.seats[w];
        let new_chips = match wseat.chips.checked_add(pot) {
            Option::Some(c) => c,
            Option::None => {
                return Result::Err(ErrorCode::ArithmeticError);
            },
        };
        let mut s = wseat;
        // commit: fold the caller, advance the turn, award, finish
        let mut f = table.seats[idx];
        f.is_folded = true;
        table.seats[idx] = f;
        proof {
            assert(table@ == tf);
            assert(tf.wf());
        }
        advance_to_next_player(table);
        proof {
            assert(table@ == t1);
        }
        s.chips = new_chips;
        table.seats[w] = s;
        table.pot = 0;
        table.status = TableStatus::Finished;
        proof {
            crate::state::lemma_chips_sum_update(t0.seats, idx as int, folded_seat);
            crate::state::lemma_chips_sum_update(t1.seats, w as int, s);
            assert(spec_fold(t0, player) == Result::<TableView, ErrorCode>::Ok(table@));
        }
        Result::Ok(())
    } else {
        let mut f = table.seats[idx];
        f.is_folded = true;
        table.seats[idx] = f;
        proof {
            assert(table@ == tf);
            assert(tf.wf());
            crate::state::lemma_chips_sum_update(t0.seats, idx as int, folded_seat);
        }
        advance_to_next_player(table);
        check_round_completion(table);
        proof {
            lemma_post_action_funds(tf);
            assert(spec_fold(t0, player) == Result::<TableView, ErrorCode>::Ok(table@));
        }
        Result::Ok(())
    }
}

} // verus!
