//! Data model of the table engine: seats, tables, the global authority
//! record, the error taxonomy, and the abstract view (`TableView`) that all
//! contracts are stated over, together with its well-formedness invariant.

use vstd::prelude::*;

verus! {

/// Sentinel identity for an unoccupied seat slot. A real player identity is
/// never this value.
pub const EMPTY_SEAT: u64 = 0;

#[derive(Clone, Copy, Debug, PartialEq, Eq, Structural)]
pub enum TableStatus {
    Waiting,
    Playing,
    Finished,
}

#[derive(Clone, Copy, Debug, PartialEq, Eq, Structural)]
pub enum Round {
    NotStarted,
    PreFlop,
    Flop,
    Turn,
    River,
    Showdown,
}

/// Caller-visible rejection reasons. Every action either fully applies or
/// fails with one of these, leaving the table untouched.
#[derive(Clone, Copy, Debug, PartialEq, Eq, Structural)]
pub enum ErrorCode {
    FeeTooHigh,
    InvalidPlayerCount,
    InvalidBlinds,
    BuyInTooSmall,
    TableIdTooLong,
    TableNotWaiting,
    TableFull,
    NotEnoughPlayers,
    NotTableHost,
    GameNotInProgress,
    PlayerFolded,
    PlayerNotActive,
    NotPlayerTurn,
    InsufficientChips,
    BetTooSmall,
    CannotCheck,
    NotShowdownRound,
    GameNotFinished,
    CannotLeaveActiveGame,
    PlayerNotAtTable,
    /// Chip or pot arithmetic would overflow or underflow; an integrity
    /// failure, rejected before any mutation rather than wrapped or clamped.
    ArithmeticError,
    /// Settlement was requested while no seat is eligible for the pot.
    NoEligibleWinner,
}

/// Process-wide singleton: owner identity, fee configuration and running
/// counters, mutated only by privileged initialization and table creation.
#[derive(Clone, Copy, Debug, PartialEq, Eq, Structural)]
pub struct GameAuthority {
    pub authority: u64,
    pub fee_percentage: u8,
    pub total_games_played: u64,
    pub total_fees_collected: u64,
}

/// Per-seat financial and hand state. `cards` are the two hole cards dealt
/// at game start.
#[derive(Clone, Copy, Debug, PartialEq, Eq)]
pub struct PlayerState {
    pub player: u64,
    pub chips: u64,
    pub is_active: bool,
    pub is_folded: bool,
    pub is_all_in: bool,
    pub current_bet: u64,
    pub cards: (u8, u8),
}

/// Per-session aggregate: configuration, status, the fixed-length seat
/// arrays (`players` holds identities with `EMPTY_SEAT` as the empty-slot
/// sentinel, `seats` the parallel per-seat state), pot and turn bookkeeping.
#[derive(Clone, Debug, PartialEq)]
pub struct Table {
    pub table_id: String,
    pub host: u64,
    pub buy_in: u64,
    pub small_blind: u64,
    pub big_blind: u64,
    pub max_players: u8,
    pub is_private: bool,
    pub status: TableStatus,
    pub pot: u64,
    pub players: Vec<u64>,
    pub seats: Vec<PlayerState>,
    pub player_count: u8,
    pub current_player_index: u8,
    pub dealer_index: u8,
    pub round: Round,
    pub highest_bet: u64,
    pub community_cards: Vec<u8>,
}

/// Mathematical model of a `Table`; all contracts are stated over it.
pub ghost struct TableView {
    pub table_id: Seq<char>,
    pub host: u64,
    pub buy_in: u64,
    pub small_blind: u64,
    pub big_blind: u64,
    pub max_players: u8,
    pub is_private: bool,
    pub status: TableStatus,
    pub pot: u64,
    pub players: Seq<u64>,
    pub seats: Seq<PlayerState>,
    pub player_count: u8,
    pub current_player_index: u8,
    pub dealer_index: u8,
    pub round: Round,
    pub highest_bet: u64,
    pub community_cards: Seq<u8>,
}

impl View for Table {
    type V = TableView;

    open spec fn view(&self) -> TableView {
        TableView {
            table_id: self.table_id@,
            host: self.host,
            buy_in: self.buy_in,
            small_blind: self.small_blind,
            big_blind: self.big_blind,
            max_players: self.max_players,
            is_private: self.is_private,
            status: self.status,
            pot: self.pot,
            players: self.players@,
            seats: self.seats@,
            player_count: self.player_count,
            current_player_index: self.current_player_index,
            dealer_index: self.dealer_index,
            round: self.round,
            highest_bet: self.highest_bet,
            community_cards: self.community_cards@,
        }
    }
}

/// Whether slot `i` of the seat-identity array is occupied.
pub open spec fn occupied(players: Seq<u64>, i: int) -> bool {
    players[i] != EMPTY_SEAT
}

/// Number of occupied slots.
pub open spec fn count_occupied(players: Seq<u64>) -> int
    decreases players.len(),
{
    if players.len() == 0 {
        0
    } else {
        count_occupied(players.drop_last()) + if players.last() != EMPTY_SEAT {
            1int
        } else {
            0int
        }
    }
}

/// Total chips held across all seats.
pub open spec fn chips_sum(seats: Seq<PlayerState>) -> int
    decreases seats.len(),
{
    if seats.len() == 0 {
        0
    } else {
        chips_sum(seats.drop_last()) + seats.last().chips
    }
}

impl TableView {
    /// All value custodied by the table: the pot plus every seat's chips.
    /// Conservation says every action other than join/leave/create keeps
    /// this quantity unchanged.
    pub open spec fn funds(self) -> int {
        self.pot + chips_sum(self.seats)
    }

    /// Well-formedness invariant, established at creation and preserved by
    /// every committed transition.
    pub open spec fn wf(self) -> bool {
        &&& self.players.len() == self.max_players as int
        &&& self.seats.len() == self.max_players as int
        &&& 2 <= self.max_players <= 9
        &&& self.community_cards.len() == 5
        &&& self.table_id.len() <= 32
        &&& self.player_count as int == count_occupied(self.players)
        &&& (self.current_player_index as int) < self.players.len()
        &&& (self.dealer_index as int) < self.players.len()
        &&& self.small_blind <= self.big_blind
        &&& (forall|i: int|
            0 <= i < self.players.len() && !occupied(self.players, i)
                ==> !self.seats[i].is_active && self.seats[i].chips == 0)
        &&& (forall|i: int|
            0 <= i < self.players.len() && occupied(self.players, i)
                ==> self.seats[i].is_active)
        &&& (self.status == TableStatus::Waiting ==> forall|i: int|
            0 <= i < self.players.len() && occupied(self.players, i)
                ==> self.seats[i].current_bet == 0)
        &&& (forall|i: int|
            0 <= i < self.players.len() && occupied(self.players, i)
                && self.seats[i].is_active && !self.seats[i].is_folded
                && !self.seats[i].is_all_in
                ==> self.seats[i].current_bet <= self.highest_bet)
        &&& (forall|i: int, j: int|
            0 <= i < j < self.players.len() && occupied(self.players, i)
                ==> self.players[i] != self.players[j])
        &&& (self.status != TableStatus::Playing ==> self.pot == 0)
    }
}

pub proof fn lemma_count_occupied_bounds(players: Seq<u64>)
    ensures
        0 <= count_occupied(players) <= players.len(),
    decreases players.len(),
{
    if players.len() > 0 {
        lemma_count_occupied_bounds(players.drop_last());
    }
}

pub proof fn lemma_count_occupied_update(players: Seq<u64>, i: int, v: u64)
    requires
        0 <= i < players.len(),
    ensures
        count_occupied(players.update(i, v)) == count_occupied(players)
            - (if players[i] != EMPTY_SEAT { 1int } else { 0int })
            + (if v != EMPTY_SEAT { 1int } else { 0int }),
    decreases players.len(),
{
    let n = players.len() as int;
    if i == n - 1 {
        assert(players.update(i, v).drop_last() =~= players.drop_last());
    } else {
        assert(players.update(i, v).drop_last() =~= players.drop_last().update(i, v));
        lemma_count_occupied_update(players.drop_last(), i, v);
    }
}

pub proof fn lemma_count_occupied_pos(players: Seq<u64>, i: int)
    requires
        0 <= i < players.len(),
        players[i] != EMPTY_SEAT,
    ensures
        count_occupied(players) >= 1,
    decreases players.len(),
{
    if i == players.len() - 1 {
        lemma_count_occupied_bounds(players.drop_last());
    } else {
        lemma_count_occupied_pos(players.drop_last(), i);
    }
}

pub proof fn lemma_count_occupied_take_step(players: Seq<u64>, i: int)
    requires
        0 <= i < players.len(),
    ensures
        count_occupied(players.take(i + 1)) == count_occupied(players.take(i))
            + (if players[i] != EMPTY_SEAT { 1int } else { 0int }),
{
    assert(players.take(i + 1).drop_last() =~= players.take(i));
    assert(players.take(i + 1).last() == players[i]);
}

pub proof fn lemma_count_occupied_take_le(players: Seq<u64>, i: int)
    requires
        0 <= i <= players.len(),
    ensures
        count_occupied(players.take(i)) <= count_occupied(players),
    decreases players.len() - i,
{
    if i == players.len() {
        assert(players.take(i) =~= players);
    } else {
        lemma_count_occupied_take_step(players, i);
        lemma_count_occupied_take_le(players, i + 1);
    }
}

pub proof fn lemma_chips_sum_update(seats: Seq<PlayerState>, i: int, v: PlayerState)
    requires
        0 <= i < seats.len(),
    ensures
        chips_sum(seats.update(i, v)) == chips_sum(seats) - seats[i].chips + v.chips,
    decreases seats.len(),
{
    let n = seats.len() as int;
    if i == n - 1 {
        assert(seats.update(i, v).drop_last() =~= seats.drop_last());
    } else {
        assert(seats.update(i, v).drop_last() =~= seats.drop_last().update(i, v));
        lemma_chips_sum_update(seats.drop_last(), i, v);
    }
}

pub proof fn lemma_chips_sum_pointwise(a: Seq<PlayerState>, b: Seq<PlayerState>)
    requires
        a.len() == b.len(),
        forall|i: int| 0 <= i < a.len() ==> a[i].chips == b[i].chips,
    ensures
        chips_sum(a) == chips_sum(b),
    decreases a.len(),
{
    if a.len() > 0 {
        assert(forall|i: int|
            0 <= i < a.drop_last().len() ==> a.drop_last()[i].chips == b.drop_last()[i].chips);
        lemma_chips_sum_pointwise(a.drop_last(), b.drop_last());
    }
}

} // verus!
