//! ShowdownEngine: evaluate the remaining hands and distribute the pot.
//!
//! Every occupied, active, non-folded seat's seven cards (two hole cards
//! plus the five community cards) are ranked by the hand evaluator; the
//! best-ranked seats split the pot evenly, and the remainder of the
//! integer division goes entirely to the first winner in seat-scan order.

use vstd::prelude::*;

use crate::engine::active_seat;
use crate::state::{
    chips_sum, ErrorCode, PlayerState, Round, Table, TableStatus, TableView, EMPTY_SEAT,
};
use vstd::arithmetic::div_mod::lemma_fundamental_div_mod;

verus! {

/// Strength assigned to a hand by the evaluator. The ranking is a
/// placeholder constant: the settlement engine only relies on the
/// evaluator's interface (a totally ordered value, ties possible), so any
/// standard hand-ranking algorithm can stand behind it.
pub open spec fn hand_strength(cards: Seq<u8>) -> u32 {
    42u32
}

/// The seven cards seat `i` shows at the showdown.
pub open spec fn seat_cards(t: TableView, i: int) -> Seq<u8> {
    seq![t.seats[i].cards.0, t.seats[i].cards.1] + t.community_cards
}

/// HandEvaluator capability: map a hand's card codes to a comparable
/// strength value; higher is better and ties are possible.
pub fn evaluate_poker_hand(cards: &Vec<u8>) -> (r: u32)
    ensures
        r == hand_strength(cards@),
{
    42
}

/// Best strength and its winners over the first `n` seats: seats tied at
/// the running maximum are appended in seat-scan order, and a strictly
/// better hand replaces the list.
pub open spec fn winners_upto(t: TableView, n: int) -> (u32, Seq<usize>)
    decreases n,
{
    if n <= 0 {
        (0u32, Seq::<usize>::empty())
    } else {
        let prev = winners_upto(t, n - 1);
        if active_seat(t, n - 1) {
            let v = hand_strength(seat_cards(t, n - 1));
            if v > prev.0 {
                (v, seq![(n - 1) as usize])
            } else if v == prev.0 {
                (prev.0, prev.1.push((n - 1) as usize))
            } else {
                prev
            }
        } else {
            prev
        }
    }
}

/// The seats that share the pot, in ascending seat order.
pub open spec fn spec_winners(t: TableView) -> Seq<usize> {
    winners_upto(t, t.players.len() as int).1
}

pub proof fn lemma_winners_upto_bounds(t: TableView, n: int)
    requires
        0 <= n <= usize::MAX,
    ensures
        forall|k: int|
            0 <= k < winners_upto(t, n).1.len() ==> (winners_upto(t, n).1[k] as int) < n,
        forall|k1: int, k2: int|
            0 <= k1 < k2 < winners_upto(t, n).1.len() ==> (winners_upto(t, n).1[k1] as int)
                < (winners_upto(t, n).1[k2] as int),
        forall|k: int|
            0 <= k < winners_upto(t, n).1.len() ==> active_seat(t, winners_upto(t, n).1[k] as int),
    decreases n,
{
    if n > 0 {
        lemma_winners_upto_bounds(t, n - 1);
        let prev = winners_upto(t, n - 1);
        let cur = winners_upto(t, n);
        if active_seat(t, n - 1) {
            let v = hand_strength(seat_cards(t, n - 1));
            if v > prev.0 {
                assert(cur.1 == seq![(n - 1) as usize]);
            } else if v == prev.0 {
                assert(cur.1 == prev.1.push((n - 1) as usize));
                assert forall|k: int| 0 <= k < cur.1.len() implies (cur.1[k] as int) < n
                    && active_seat(t, cur.1[k] as int) by {
                    if k < prev.1.len() {
                        assert(cur.1[k] == prev.1[k]);
                    } else {
                        assert(cur.1[k] == (n - 1) as usize);
                    }
                }
                assert forall|k1: int, k2: int|
                    0 <= k1 < k2 < cur.1.len() implies (cur.1[k1] as int) < (
                cur.1[k2] as int) by {
                    assert(cur.1[k1] == prev.1[k1]);
                    if k2 < prev.1.len() {
                        assert(cur.1[k2] == prev.1[k2]);
                    } else {
                        assert(cur.1[k2] == (n - 1) as usize);
                        assert((prev.1[k1] as int) < n - 1);
                    }
                }
            }
        }
    }
}

/// Seat index `i` is among the winners.
pub open spec fn in_winners(ws: Seq<usize>, i: int) -> bool {
    exists|k: int| 0 <= k < ws.len() && ws[k] as int == i
}

/// Seats after settlement: every winner's chips grow by `share`, and the
/// first winner additionally receives the remainder `rem`.
pub open spec fn paid_seats(
    seats: Seq<PlayerState>,
    ws: Seq<usize>,
    share: u64,
    rem: u64,
) -> Seq<PlayerState> {
    Seq::new(
        seats.len(),
        |i: int|
            if ws.len() > 0 && i == ws[0] as int {
                PlayerState { chips: (seats[i].chips + share + rem) as u64, ..seats[i] }
            } else if in_winners(ws, i) {
                PlayerState { chips: (seats[i].chips + share) as u64, ..seats[i] }
            } else {
                seats[i]
            },
    )
}

/// Some winner's payout would overflow its chip balance.
pub open spec fn payout_overflows(
    seats: Seq<PlayerState>,
    ws: Seq<usize>,
    share: u64,
    rem: u64,
) -> bool {
    exists|k: int|
        0 <= k < ws.len() && seats[ws[k] as int].chips + share + (if k == 0 {
            rem as int
        } else {
            0int
        }) > u64::MAX
}

/// Outcome of a settlement request by `caller`: only the host may settle,
/// only while playing in the Showdown round; the winners split the pot
/// evenly with the remainder to the first winner in scan order, the pot
/// empties, and the table finishes. With no eligible seat the request is
/// defensively rejected as an integrity violation.
pub open spec fn spec_showdown(t: TableView, caller: u64) -> Result<TableView, ErrorCode> {
    if caller != t.host {
        Result::Err(ErrorCode::NotTableHost)
    } else if t.status != TableStatus::Playing {
        Result::Err(ErrorCode::GameNotInProgress)
    } else if t.round != Round::Showdown {
        Result::Err(ErrorCode::NotShowdownRound)
    } else {
        let ws = spec_winners(t);
        if ws.len() == 0 {
            Result::Err(ErrorCode::NoEligibleWinner)
        } else {
            let share = ((t.pot as int) / (ws.len() as int)) as u64;
            let rem = ((t.pot as int) % (ws.len() as int)) as u64;
            if payout_overflows(t.seats, ws, share, rem) {
                Result::Err(ErrorCode::ArithmeticError)
            } else {
                Result::Ok(
                    TableView {
                        seats: paid_seats(t.seats, ws, share, rem),
                        pot: 0,
                        status: TableStatus::Finished,
                        ..t
                    },
                )
            }
        }
    }
}

/// ShowdownEngine: settle the pot. Applies exactly `spec_showdown`; on
/// any rejection the table is untouched; on success the table's total
/// funds are unchanged: the distributed shares and remainder exactly empty
/// the pot.
pub fn showdown(table: &mut Table, caller: u64) -> (r: Result<(), ErrorCode>)
    requires
        old(table)@.wf(),
    ensures
        final(table)@.wf(),
        (match r {
            Result::Ok(()) => spec_showdown(old(table)@, caller) == Result::<
                TableView,
                ErrorCode,
            >::Ok(final(table)@),
            Result::Err(e) => spec_showdown(old(table)@, caller) == Result::<
                TableView,
                ErrorCode,
            >::Err(e) && final(table)@ == old(table)@,
        }),
        r is Ok ==> final(table)@.funds() == old(table)@.funds(),
{
    let ghost t0 = table@;
    if caller != table.host {
        return Result::Err(ErrorCode::NotTableHost);
    }
    if table.status != TableStatus::Playing {
        return Result::Err(ErrorCode::GameNotInProgress);
    }
    if table.round != Round::Showdown {
        return Result::Err(ErrorCode::NotShowdownRound);
    }
    let n = table.players.len();
    let mut best: u32 = 0;
    let mut winners: Vec<usize> = Vec::new();
    let mut i: usize = 0;
    while i < n
        invariant
            i <= n,
            n == table@.players.len(),
            table@.wf(),
            table@ == t0,
            (best, winners@) == winners_upto(table@, i as int),
        decreases n - i,
    {
        if table.players[i] != EMPTY_SEAT {
            let seat = table.seats[i];
            if !seat.is_folded && seat.is_active {
                let mut cards: Vec<u8> = Vec::new();
                cards.push(seat.cards.0);
                cards.push(seat.cards.1);
                cards.push(table.community_cards[0]);
                cards.push(table.community_cards[1]);
                cards.push(table.community_cards[2]);
                cards.push(table.community_cards[3]);
                cards.push(table.community_cards[4]);
                proof {
                    assert(cards@ =~= seat_cards(t0, i as int));
                }
                let v = evaluate_poker_hand(&cards);
                if v > best {
                    best = v;
                    winners = Vec::new();
                    winners.push(i);
                } else if v == best {
                    winners.push(i);
                }
            }
        }
        i = i + 1;
    }
    proof {
        lemma_winners_upto_bounds(t0, n as int);
    }
    if winners.len() == 0 {
        return Result::Err(ErrorCode::NoEligibleWinner);
    }
    let share = table.pot / (winners.len() as u64);
    let rem = table.pot % (winners.len() as u64);
    // validate every payout before touching any seat
    let mut k: usize = 0;
    while k < winners.len()
        invariant
            k <= winners@.len(),
            table@ == t0,
            table@.wf(),
            n == table@.players.len(),
            caller == t0.host,
            t0.status == TableStatus::Playing,
            t0.round == Round::Showdown,
            winners@ == spec_winners(t0),
            winners@.len() > 0,
            forall|j: int| 0 <= j < winners@.len() ==> (winners@[j] as int) < n as int,
            share == ((t0.pot as int) / (winners@.len() as int)) as u64,
            rem == ((t0.pot as int) % (winners@.len() as int)) as u64,
            forall|j: int|
                0 <= j < k as int ==> t0.seats[winners@[j] as int].chips + share + (if j == 0 {
                    rem as int
                } else {
                    0int
                }) <= u64::MAX,
        decreases winners@.len() - k,
    {
        let w = winners[k];
        let extra = if k == 0 {
            rem
        } else {
            0
        };
        let c1 = match table.seats[w].chips.checked_add(share) {
            Option::Some(c) => c,
            Option::None => {
                proof {
                    assert(payout_overflows(t0.seats, winners@, share, rem));
                }
                return Result::Err(ErrorCode::ArithmeticError);
            },
        };
        match c1.checked_add(extra) {
            Option::Some(_) => {},
            Option::None => {
                proof {
                    assert(payout_overflows(t0.seats, winners@, share, rem));
                }
                return Result::Err(ErrorCode::ArithmeticError);
            },
        };
        k = k + 1;
    }
    proof {
        assert(!payout_overflows(t0.seats, winners@, share, rem));
    }
    // apply: each winner receives the share, then the remainder goes to
    // the first winner in scan order
    let ghost orig_seats = t0.seats;
    let mut k2: usize = 0;
    while k2 < winners.len()
        invariant
            k2 <= winners@.len(),
            n == table@.players.len(),
            table@.seats.len() == n as int,
            table@ == (TableView { seats: table@.seats, ..t0 }),
            caller == t0.host,
            t0.status == TableStatus::Playing,
            t0.round == Round::Showdown,
            t0.wf(),
            winners@ == spec_winners(t0),
            winners@.len() > 0,
            orig_seats == t0.seats,
            share == ((t0.pot as int) / (winners@.len() as int)) as u64,
            rem == ((t0.pot as int) % (winners@.len() as int)) as u64,
            !payout_overflows(t0.seats, winners@, share, rem),
            forall|j: int| 0 <= j < winners@.len() ==> (winners@[j] as int) < n as int,
            forall|j1: int, j2: int|
                0 <= j1 < j2 < winners@.len() ==> (winners@[j1] as int) < (winners@[j2] as int),
            forall|j: int|
                0 <= j < winners@.len() ==> t0.seats[winners@[j] as int].chips + share + (if j
                    == 0 {
                    rem as int
                } else {
                    0int
                }) <= u64::MAX,
            forall|i2: int|
                0 <= i2 < n as int ==> table@.seats[i2] == (if (exists|j: int|
                    0 <= j < k2 as int && winners@[j] as int == i2) {
                    (PlayerState {
                        chips: (orig_seats[i2].chips + share) as u64,
                        ..orig_seats[i2]
                    })
                } else {
                    orig_seats[i2]
                }),
            chips_sum(table@.seats) == chips_sum(orig_seats) + share * k2 as int,
        decreases winners@.len() - k2,
    {
        let w = winners[k2];
        proof {
            assert(forall|j: int|
                0 <= j < k2 as int ==> (winners@[j] as int) < (w as int));
            assert(table@.seats[w as int] == orig_seats[w as int]);
        }
        let mut s = table.seats[w];
        let ghost pre_seats = table@.seats;
        s.chips = s.chips + share;
        table.seats[w] = s;
        proof {
            crate::state::lemma_chips_sum_update(pre_seats, w as int, s);
            assert forall|i2: int| 0 <= i2 < n as int implies table@.seats[i2] == (if (
            exists|j: int| 0 <= j < k2 as int + 1 && winners@[j] as int == i2) {
                (PlayerState { chips: (orig_seats[i2].chips + share) as u64, ..orig_seats[i2] })
            } else {
                orig_seats[i2]
            }) by {
                if i2 == w as int {
                    assert(0 <= k2 as int && (k2 as int) < k2 as int + 1
                        && winners@[k2 as int] as int == i2);
                } else {
                    if exists|j: int| 0 <= j < k2 as int + 1 && winners@[j] as int == i2 {
                        let j = choose|j: int|
                            0 <= j < k2 as int + 1 && winners@[j] as int == i2;
                        assert(j != k2 as int);
                        assert(0 <= j < k2 as int && winners@[j] as int == i2);
                    }
                }
            }
            assert(share as int * (k2 as int + 1) == share as int * (k2 as int) + share as int)
                by (nonlinear_arith);
        }
        k2 = k2 + 1;
    }
    let w0 = winners[0];
    let ghost pre_rem_seats = table@.seats;
    let mut s0 = table.seats[w0];
    proof {
        assert((exists|j: int| 0 <= j < winners@.len() && winners@[j] as int == w0 as int)) by {
            assert(winners@[0] == w0);
        }
        assert(s0.chips == (orig_seats[w0 as int].chips + share) as u64);
    }
    s0.chips = s0.chips + rem;
    table.seats[w0] = s0;
    table.pot = 0;
    table.status = TableStatus::Finished;
    proof {
        crate::state::lemma_chips_sum_update(pre_rem_seats, w0 as int, s0);
        lemma_fundamental_div_mod(t0.pot as int, winners@.len() as int);
        assert(share as int * (winners@.len() as int) == (winners@.len() as int) * (
        (t0.pot as int) / (winners@.len() as int))) by (nonlinear_arith)
            requires
                share as int == (t0.pot as int) / (winners@.len() as int),
        ;
        assert(table@.seats =~= paid_seats(orig_seats, winners@, share, rem));
        assert(table@.funds() == t0.funds());
        assert(spec_showdown(t0, caller) == Result::<TableView, ErrorCode>::Ok(table@));
    }
    Result::Ok(())
}

} // verus!
