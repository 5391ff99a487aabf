//! Waterfall allocation: pots above their goal give their surplus back, and
//! the spare cash of the account is handed to the pots below their goal, in
//! order, until it runs out.

use vstd::prelude::*;

use crate::ledger::transactions::{spec_entries, Transaction};
use crate::operation::resolver::spec_pots;
use crate::pot::Pot;

verus! {

/// The pots that hold more than their goal, each with its negative distance
/// from the goal, in the order of `pots`.
pub open spec fn spec_withdrawals(pots: Seq<Pot>) -> Seq<(Pot, int)> {
    pots.filter(|pot: Pot| pot.spec_diff() < 0).map_values(|pot: Pot| (pot, pot.spec_diff()))
}

/// The pots that hold less than their goal, each with what it needs to reach
/// the goal, in the order of `pots`.
pub open spec fn spec_remainder(pots: Seq<Pot>) -> Seq<(Pot, int)> {
    pots.filter(|pot: Pot| pot.spec_diff() > 0).map_values(|pot: Pot| (pot, pot.spec_diff()))
}

/// The sum of the amounts of `entries`.
pub open spec fn spec_total(entries: Seq<(Pot, int)>) -> int
    decreases entries.len(),
{
    if entries.len() == 0 {
        0
    } else {
        spec_total(entries.drop_last()) + entries.last().1
    }
}

/// The sum of the magnitudes of the withdrawals from `pots`.
pub open spec fn spec_total_withdrawals(pots: Seq<Pot>) -> int {
    -spec_total(spec_withdrawals(pots))
}

/// The spare cash of the account: its balance less its own goal and less
/// the total of the withdrawals. May be negative.
pub open spec fn spec_spare_cash(balance: int, goal: int, pots: Seq<Pot>) -> int {
    balance - goal - spec_total_withdrawals(pots)
}

/// Hands `spare` to the pots of `needs` in order: each pot gets what it needs
/// or what is left, whichever is less, and the walk ends as soon as nothing
/// is left.
pub open spec fn spec_deposits(spare: int, needs: Seq<(Pot, int)>) -> Seq<(Pot, int)>
    decreases needs.len(),
{
    if needs.len() == 0 || spare <= 0 {
        Seq::empty()
    } else {
        let (pot, need) = needs.first();
        let deposit = if spare <= need {
            spare
        } else {
            need
        };
        seq![(pot, deposit)] + spec_deposits(spare - deposit, needs.drop_first())
    }
}

/// The transactions that move every pot of `pots` towards its goal: all
/// withdrawals first, then the deposits that the spare cash allows.
pub open spec fn spec_transactions(balance: int, goal: int, pots: Seq<Pot>) -> Seq<(Pot, int)> {
    spec_withdrawals(pots) + spec_deposits(
        spec_spare_cash(balance, goal, pots),
        spec_remainder(pots),
    )
}

/// Whether every pot of `pots` has a goal.
pub open spec fn spec_all_have_goals(pots: Seq<Pot>) -> bool {
    forall|i: int| 0 <= i < pots.len() ==> (#[trigger] pots[i]).goal_amount is Some
}

/// One more pot extends the two partitions by at most one entry.
proof fn lemma_partition_push(pots: Seq<Pot>, pot: Pot)
    ensures
        spec_withdrawals(pots.push(pot)) == if pot.spec_diff() < 0 {
            spec_withdrawals(pots).push((pot, pot.spec_diff()))
        } else {
            spec_withdrawals(pots)
        },
        spec_remainder(pots.push(pot)) == if pot.spec_diff() > 0 {
            spec_remainder(pots).push((pot, pot.spec_diff()))
        } else {
            spec_remainder(pots)
        },
{
    let above = |pot: Pot| pot.spec_diff() < 0;
    let below = |pot: Pot| pot.spec_diff() > 0;
    let entry = |pot: Pot| (pot, pot.spec_diff());
    pots.lemma_filter_push(pot, above);
    pots.lemma_filter_push(pot, below);
    if pot.spec_diff() < 0 {
        assert(pots.filter(above).push(pot).map_values(entry) =~= pots.filter(above).map_values(
            entry,
        ).push((pot, pot.spec_diff())));
    }
    if pot.spec_diff() > 0 {
        assert(pots.filter(below).push(pot).map_values(entry) =~= pots.filter(below).map_values(
            entry,
        ).push((pot, pot.spec_diff())));
    }
}

/// Returns the transactions needed to shift the balance of each pot to its
/// goal, partitioned into withdrawals and the remainder.
///
/// Withdrawals are always possible; the remainder holds the deposits that
/// would be needed, which the spare cash may not cover. Pots that sit on
/// their goal appear in neither.
pub fn withdrawals<'a>(pots: &[&'a Pot]) -> (parts: (Vec<Transaction<'a>>, Vec<Transaction<'a>>))
    requires
        spec_all_have_goals(spec_pots(pots@)),
    ensures
        spec_entries(parts.0@) == spec_withdrawals(spec_pots(pots@)),
        spec_entries(parts.1@) == spec_remainder(spec_pots(pots@)),
{
    let mut above: Vec<Transaction<'a>> = Vec::new();
    let mut below: Vec<Transaction<'a>> = Vec::new();
    let ghost all = spec_pots(pots@);
    let mut i: usize = 0;
    proof {
        reveal(Seq::filter);
        assert(spec_withdrawals(all.take(0)) =~= Seq::<(Pot, int)>::empty());
        assert(spec_remainder(all.take(0)) =~= Seq::<(Pot, int)>::empty());
        assert(spec_entries(above@) =~= Seq::<(Pot, int)>::empty());
        assert(spec_entries(below@) =~= Seq::<(Pot, int)>::empty());
    }
    while i < pots.len()
        invariant
            i <= pots.len(),
            all == spec_pots(pots@),
            spec_all_have_goals(all),
            spec_entries(above@) == spec_withdrawals(all.take(i as int)),
            spec_entries(below@) == spec_remainder(all.take(i as int)),
        decreases pots.len() - i,
    {
        let pot: &'a Pot = pots[i];
        proof {
            assert(all[i as int] == *pot);
            lemma_partition_push(all.take(i as int), *pot);
            assert(all.take(i as int + 1) =~= all.take(i as int).push(*pot));
        }
        let diff = pot.diff_unchecked();
        let ghost above_before = spec_entries(above@);
        let ghost below_before = spec_entries(below@);
        if diff < 0 {
            above.push((pot, diff));
            proof {
                assert(spec_entries(above@) =~= above_before.push((*pot, diff as int)));
            }
        } else if diff > 0 {
            below.push((pot, diff));
            proof {
                assert(spec_entries(below@) =~= below_before.push((*pot, diff as int)));
            }
        }
        i += 1;
    }
    proof {
        assert(all.take(pots.len() as int) =~= all);
    }
    (above, below)
}

/// No pot can be further from its goal than 64 bits can tell, and the two
/// partitions hold the sign that defines them.
pub proof fn lemma_partition_bounds(pots: Seq<Pot>)
    ensures
        forall|k: int|
            0 <= k < spec_withdrawals(pots).len() ==> -0xFFFF_FFFF_FFFF_FFFF <= (
            #[trigger] spec_withdrawals(pots)[k]).1 < 0,
        forall|k: int|
            0 <= k < spec_remainder(pots).len() ==> 0 < (#[trigger] spec_remainder(pots)[k]).1
                <= 0xFFFF_FFFF_FFFF_FFFF,
{
    let above = |pot: Pot| pot.spec_diff() < 0;
    let below = |pot: Pot| pot.spec_diff() > 0;
    assert forall|k: int| 0 <= k < spec_withdrawals(pots).len() implies -0xFFFF_FFFF_FFFF_FFFF <= (
    #[trigger] spec_withdrawals(pots)[k]).1 < 0 by {
        pots.lemma_filter_pred(above, k);
    }
    assert forall|k: int| 0 <= k < spec_remainder(pots).len() implies 0 < (
    #[trigger] spec_remainder(pots)[k]).1 <= 0xFFFF_FFFF_FFFF_FFFF by {
        pots.lemma_filter_pred(below, k);
    }
}

/// The part of `balance` that lies above `goal`, or zero if there is none.
fn headroom(balance: i64, goal: i128) -> (room: u128)
    ensures
        room == if balance - goal > 0 {
            balance - goal
        } else {
            0
        },
{
    let balance: i128 = balance as i128;
    if goal >= balance {
        0
    } else if goal >= 0 || balance < 0 {
        (balance - goal) as u128
    } else {
        balance as u128 + ((-(goal + 1)) as u128 + 1)
    }
}

/// Adds up what the withdrawals bring in.
fn total_withdrawn(withdrawals: &Vec<Transaction<'_>>) -> (total: u128)
    requires
        forall|k: int|
            0 <= k < withdrawals.len() ==> -0xFFFF_FFFF_FFFF_FFFF <= (#[trigger] withdrawals[k]).1
                < 0,
    ensures
        total == -spec_total(spec_entries(withdrawals@)),
{
    let ghost entries = spec_entries(withdrawals@);
    let mut total: u128 = 0;
    let mut i: usize = 0;
    proof {
        assert(entries.take(0) =~= Seq::<(Pot, int)>::empty());
    }
    while i < withdrawals.len()
        invariant
            i <= withdrawals.len(),
            entries == spec_entries(withdrawals@),
            forall|k: int|
                0 <= k < withdrawals.len() ==> -0xFFFF_FFFF_FFFF_FFFF <= (
                #[trigger] withdrawals[k]).1 < 0,
            total == -spec_total(entries.take(i as int)),
            total <= i * 0xFFFF_FFFF_FFFF_FFFF,
        decreases withdrawals.len() - i,
    {
        let amount: i128 = withdrawals[i].1;
        proof {
            assert(entries.take(i as int + 1).drop_last() =~= entries.take(i as int));
            assert(entries.take(i as int + 1).last().1 == amount);
            assert((i + 1) * 0xFFFF_FFFF_FFFF_FFFF <= 0xFFFF_FFFF_FFFF_FFFF
                * 0xFFFF_FFFF_FFFF_FFFF) by (nonlinear_arith)
                requires
                    i + 1 <= 0xFFFF_FFFF_FFFF_FFFF,
            ;
            assert(0xFFFF_FFFF_FFFF_FFFF * 0xFFFF_FFFF_FFFF_FFFF
                < 0x1_0000_0000_0000_0000_0000_0000_0000_0000) by (nonlinear_arith);
            assert((i + 1) * 0xFFFF_FFFF_FFFF_FFFF == i * 0xFFFF_FFFF_FFFF_FFFF
                + 0xFFFF_FFFF_FFFF_FFFF) by (nonlinear_arith);
        }
        total = total + ((-amount) as u128);
        i += 1;
    }
    proof {
        assert(entries.take(withdrawals.len() as int) =~= entries);
    }
    total
}

/// Computes the transactions that move every pot towards its goal.
///
/// Every pot above its goal gives back its surplus. What the account then
/// holds above its own goal is handed to the pots below their goal, in their
/// order, each getting what it needs or what is left; the walk ends when
/// nothing is left, and the pots after that point get no entry. The result
/// lists the withdrawals, as negative amounts, before the deposits.
///
/// Spare cash that is negative from the start, because the withdrawals
/// alone come to more than the balance holds above the goal, is no error:
/// there are then no deposits. The goal and the amounts are 128 bits wide, so
/// that no balance or goal of 64 bits makes the arithmetic overflow.
pub fn calculate_transactions<'a>(
    current_account_balance: i64,
    current_account_goal: i128,
    pots: &[&'a Pot],
) -> (transactions: Vec<Transaction<'a>>)
    requires
        spec_all_have_goals(spec_pots(pots@)),
    ensures
        spec_entries(transactions@) == spec_transactions(
            current_account_balance as int,
            current_account_goal as int,
            spec_pots(pots@),
        ),
{
    let ghost all = spec_pots(pots@);
    let (withdrawals, remainder) = withdrawals(pots);
    proof {
        lemma_partition_bounds(all);
        assert(forall|k: int|
            0 <= k < withdrawals.len() ==> (#[trigger] withdrawals[k]).1 == spec_entries(
                withdrawals@,
            )[k].1);
        assert(forall|k: int|
            0 <= k < remainder.len() ==> (#[trigger] remainder[k]).1 == spec_entries(
                remainder@,
            )[k].1);
    }
    let total = total_withdrawn(&withdrawals);
    let room = headroom(current_account_balance, current_account_goal);
    let ghost needs = spec_entries(remainder@);
    let ghost spare_cash = spec_spare_cash(
        current_account_balance as int,
        current_account_goal as int,
        all,
    );
    let mut used: u128 = total;
    let mut deposits: Vec<Transaction<'a>> = Vec::new();
    let mut k: usize = 0;
    proof {
        assert(needs.skip(0) =~= needs);
        assert(spec_entries(deposits@) =~= Seq::<(Pot, int)>::empty());
        assert(Seq::<(Pot, int)>::empty() + spec_deposits(spare_cash, needs) =~= spec_deposits(
            spare_cash,
            needs,
        ));
    }
    while k < remainder.len() && used < room
        invariant
            k <= remainder.len(),
            needs == spec_entries(remainder@),
            forall|j: int|
                0 <= j < remainder.len() ==> 0 < (#[trigger] remainder[j]).1
                    <= 0xFFFF_FFFF_FFFF_FFFF,
            room == if current_account_balance - current_account_goal > 0 {
                current_account_balance - current_account_goal
            } else {
                0
            },
            current_account_balance - current_account_goal - used <= 0 || used < room,
            spec_entries(deposits@) + spec_deposits(
                current_account_balance - current_account_goal - used,
                needs.skip(k as int),
            ) == spec_deposits(spare_cash, needs),
        decreases remainder.len() - k,
    {
        let (pot, need) = remainder[k];
        let left: u128 = room - used;
        let deposit: u128 = if left <= need as u128 {
            left
        } else {
            need as u128
        };
        let ghost before = spec_entries(deposits@);
        let ghost rest = needs.skip(k as int);
        proof {
            assert(rest.first() == (*pot, need as int));
            assert(rest.drop_first() =~= needs.skip(k as int + 1));
        }
        used = used + deposit;
        deposits.push((pot, deposit as i128));
        proof {
            let after = spec_deposits(
                current_account_balance - current_account_goal - used,
                needs.skip(k as int + 1),
            );
            assert(spec_entries(deposits@) =~= before.push((*pot, deposit as int)));
            assert(before + (seq![(*pot, deposit as int)] + after) =~= spec_entries(deposits@)
                + after);
        }
        k += 1;
    }
    proof {
        assert(spec_deposits(
            current_account_balance - current_account_goal - used,
            needs.skip(k as int),
        ) =~= Seq::<(Pot, int)>::empty());
        assert(spec_entries(deposits@) + Seq::<(Pot, int)>::empty() =~= spec_entries(deposits@));
    }
    let ghost taken = spec_entries(withdrawals@);
    let ghost given = spec_entries(deposits@);
    let mut transactions = withdrawals;
    transactions.append(&mut deposits);
    proof {
        assert(spec_entries(transactions@) =~= taken + given);
    }
    transactions
}

/// Deposits go to the pots in need in their order, one entry per pot from
/// the first on, and each is positive and no more than its pot needs.
pub proof fn lemma_deposits_capped(spare: int, needs: Seq<(Pot, int)>)
    requires
        forall|k: int| 0 <= k < needs.len() ==> (#[trigger] needs[k]).1 > 0,
    ensures
        spec_deposits(spare, needs).len() <= needs.len(),
        forall|k: int|
            0 <= k < spec_deposits(spare, needs).len() ==> {
                &&& (#[trigger] spec_deposits(spare, needs)[k]).0 == needs[k].0
                &&& 0 < spec_deposits(spare, needs)[k].1 <= needs[k].1
            },
    decreases needs.len(),
{
    if needs.len() > 0 && spare > 0 {
        let (pot, need) = needs.first();
        let deposit = if spare <= need {
            spare
        } else {
            need
        };
        let rest = needs.drop_first();
        assert forall|k: int| 0 <= k < rest.len() implies (#[trigger] rest[k]).1 > 0 by {
            assert(rest[k] == needs[k + 1]);
        }
        lemma_deposits_capped(spare - deposit, rest);
        let later = spec_deposits(spare - deposit, rest);
        let all = spec_deposits(spare, needs);
        assert(all == seq![(pot, deposit)] + later);
        assert forall|k: int| 0 <= k < all.len() implies {
            &&& (#[trigger] all[k]).0 == needs[k].0
            &&& 0 < all[k].1 <= needs[k].1
        } by {
            if k > 0 {
                assert(all[k] == later[k - 1]);
                assert(rest[k - 1] == needs[k]);
            }
        }
    }
}

/// No transaction has the amount zero, and the magnitude of each fits in 64
/// bits.
pub proof fn lemma_transactions_bounded(balance: int, goal: int, pots: Seq<Pot>)
    ensures
        forall|k: int|
            0 <= k < spec_transactions(balance, goal, pots).len() ==> {
                &&& (#[trigger] spec_transactions(balance, goal, pots)[k]).1 != 0
                &&& -0xFFFF_FFFF_FFFF_FFFF <= spec_transactions(balance, goal, pots)[k].1
                    <= 0xFFFF_FFFF_FFFF_FFFF
            },
{
    let taken = spec_withdrawals(pots);
    let needs = spec_remainder(pots);
    let given = spec_deposits(spec_spare_cash(balance, goal, pots), needs);
    lemma_partition_bounds(pots);
    lemma_deposits_capped(spec_spare_cash(balance, goal, pots), needs);
    let all = spec_transactions(balance, goal, pots);
    assert forall|k: int| 0 <= k < all.len() implies {
        &&& (#[trigger] all[k]).1 != 0
        &&& -0xFFFF_FFFF_FFFF_FFFF <= all[k].1 <= 0xFFFF_FFFF_FFFF_FFFF
    } by {
        if k < taken.len() {
            assert(all[k] == taken[k]);
        } else {
            assert(all[k] == given[k - taken.len()]);
            assert(given[k - taken.len()].1 <= needs[k - taken.len()].1);
        }
    }
}

} // verus!
