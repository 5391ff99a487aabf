//! Carrying out a ledger: which calls to make on the bank, and in which
//! order.
//!
//! The calls themselves are made by the caller. For each account it asks
//! [`advance`] what to do next, issues the batch of calls that it is given,
//! all at once, waits for all of them, and reports how the batch went. The
//! withdrawals of an account are issued first, and its deposits only when
//! every withdrawal has succeeded, so that the money to deposit has reached
//! the account. Nothing is rolled back.

use vstd::prelude::*;

use crate::ledger::transactions::{spec_transfers, Transactions};
use crate::ledger::Ledger;
use crate::pot::Pot;

verus! {

/// A call to make on the bank: move `amount` between a pot and the account
/// it belongs to.
#[derive(Debug)]
pub struct Transfer<'a> {
    /// The pot to take from or to put into
    pub pot_id: &'a str,
    /// The account on the other side
    pub account_id: &'a str,
    /// The amount to move, in minor currency units
    pub amount: u64,
}

/// The mathematical content of a [`Transfer`].
pub struct TransferView {
    /// The pot to take from or to put into
    pub pot_id: Seq<char>,
    /// The account on the other side
    pub account_id: Seq<char>,
    /// The amount to move
    pub amount: nat,
}

impl<'a> View for Transfer<'a> {
    type V = TransferView;

    open spec fn view(&self) -> TransferView {
        TransferView {
            pot_id: self.pot_id@,
            account_id: self.account_id@,
            amount: self.amount as nat,
        }
    }
}

/// How far the transactions of one account have been carried out.
#[derive(Debug, Clone, Copy, PartialEq, Eq, Structural)]
pub enum Phase {
    /// Nothing has been issued yet
    Start,
    /// The withdrawals have been issued
    Withdrawals,
    /// The deposits have been issued
    Deposits,
    /// Nothing more will be issued
    Finished,
}

/// What to do next for an account.
#[derive(Debug)]
pub enum Step<'a, E> {
    /// Issue these withdrawals from pots, all at once
    Withdraw(Vec<Transfer<'a>>),
    /// Issue these deposits into pots, all at once
    Deposit(Vec<Transfer<'a>>),
    /// Stop, with this result for the account
    Stop(Result<(), E>),
}

/// The mathematical content of a [`Step`].
pub enum StepView<E> {
    /// Issue these withdrawals
    Withdraw(Seq<TransferView>),
    /// Issue these deposits
    Deposit(Seq<TransferView>),
    /// Stop with this result
    Stop(Result<(), E>),
}

impl<'a, E> View for Step<'a, E> {
    type V = StepView<E>;

    open spec fn view(&self) -> StepView<E> {
        match self {
            Step::Withdraw(calls) => StepView::Withdraw(spec_views(calls@)),
            Step::Deposit(calls) => StepView::Deposit(spec_views(calls@)),
            Step::Stop(result) => StepView::Stop(*result),
        }
    }
}

/// The mathematical content of a batch of calls.
pub open spec fn spec_views(calls: Seq<Transfer<'_>>) -> Seq<TransferView> {
    calls.map_values(|call: Transfer<'_>| call@)
}

/// The call that carries out one entry of a list of transfers: on the pot of
/// the entry and the account that the pot belongs to.
pub open spec fn spec_call(transfer: (Pot, nat)) -> TransferView {
    TransferView {
        pot_id: transfer.0.id@,
        account_id: transfer.0.current_account_id@,
        amount: transfer.1,
    }
}

/// The calls that carry out a list of transfers, one for each, in order.
pub open spec fn spec_calls(transfers: Seq<(Pot, nat)>) -> Seq<TransferView> {
    transfers.map_values(|transfer: (Pot, nat)| spec_call(transfer))
}

/// The phase that follows `phase` once the batch issued in it has ended with
/// `outcome`, and what to do in it.
///
/// From the start the withdrawals are issued, whatever `outcome` says. When
/// they have all succeeded the deposits are issued, and when those have all
/// succeeded the account is done. A batch that failed ends the account with
/// its error, and nothing is issued after the end.
pub open spec fn spec_advance<E>(
    withdrawals: Seq<(Pot, nat)>,
    deposits: Seq<(Pot, nat)>,
    phase: Phase,
    outcome: Result<(), E>,
) -> (Phase, StepView<E>) {
    match phase {
        Phase::Start => (Phase::Withdrawals, StepView::Withdraw(spec_calls(withdrawals))),
        Phase::Withdrawals => match outcome {
            Ok(_) => (Phase::Deposits, StepView::Deposit(spec_calls(deposits))),
            Err(e) => (Phase::Finished, StepView::Stop(Err(e))),
        },
        Phase::Deposits => (Phase::Finished, StepView::Stop(outcome)),
        Phase::Finished => (Phase::Finished, StepView::Stop(outcome)),
    }
}

/// Lists the calls that carry out `transfers`.
fn calls<'a>(transfers: &Vec<(&'a Pot, u64)>) -> (batch: Vec<Transfer<'a>>)
    ensures
        spec_views(batch@) == spec_calls(spec_transfers(transfers@)),
{
    let ghost wanted = spec_calls(spec_transfers(transfers@));
    let mut batch: Vec<Transfer<'a>> = Vec::new();
    let mut i: usize = 0;
    proof {
        assert(spec_views(batch@) =~= wanted.take(0));
    }
    while i < transfers.len()
        invariant
            i <= transfers.len(),
            wanted == spec_calls(spec_transfers(transfers@)),
            spec_views(batch@) == wanted.take(i as int),
        decreases transfers.len() - i,
    {
        let (pot, amount) = transfers[i];
        let ghost before = spec_views(batch@);
        let call = Transfer {
            pot_id: pot.id.as_str(),
            account_id: pot.current_account_id.as_str(),
            amount,
        };
        batch.push(call);
        proof {
            assert(spec_views(batch@) =~= before.push(call@));
            assert(wanted.take(i as int + 1) =~= wanted.take(i as int).push(wanted[i as int]));
        }
        i += 1;
    }
    proof {
        assert(wanted.take(transfers.len() as int) =~= wanted);
    }
    batch
}

/// Decides what to do next for the account whose transactions are
/// `transactions`, given the phase it is in and how the batch issued in that
/// phase has ended. Returns the next phase and the step to take in it.
pub fn advance<'a, E>(
    transactions: &Transactions<'a>,
    phase: Phase,
    outcome: Result<(), E>,
) -> (next: (Phase, Step<'a, E>))
    ensures
        (next.0, next.1@) == spec_advance(
            transactions@.withdrawals,
            transactions@.deposits,
            phase,
            outcome,
        ),
{
    match phase {
        Phase::Start => (Phase::Withdrawals, Step::Withdraw(calls(&transactions.withdrawals))),
        Phase::Withdrawals => match outcome {
            Ok(_) => (Phase::Deposits, Step::Deposit(calls(&transactions.deposits))),
            Err(e) => (Phase::Finished, Step::Stop(Err(e))),
        },
        Phase::Deposits => (Phase::Finished, Step::Stop(outcome)),
        Phase::Finished => (Phase::Finished, Step::Stop(outcome)),
    }
}

/// Deposits are issued in one situation only: the withdrawals of the account
/// have been issued and have all succeeded. After a failure, and after the
/// end, nothing is issued.
pub proof fn lemma_deposits_follow_withdrawals<E>(
    withdrawals: Seq<(Pot, nat)>,
    deposits: Seq<(Pot, nat)>,
    phase: Phase,
    outcome: Result<(), E>,
)
    ensures
        spec_advance(withdrawals, deposits, phase, outcome).1 is Deposit <==> phase
            == Phase::Withdrawals && outcome is Ok,
        spec_advance(withdrawals, deposits, phase, outcome).1 is Withdraw <==> phase
            == Phase::Start,
        phase != Phase::Start && outcome is Err ==> spec_advance(
            withdrawals,
            deposits,
            phase,
            outcome,
        ) == (Phase::Finished, StepView::Stop(outcome)),
        phase == Phase::Finished ==> spec_advance(withdrawals, deposits, phase, outcome).0
            == Phase::Finished,
{
}

/// What to do with a ledger that has been computed.
#[derive(Debug, Clone, Copy, PartialEq, Eq, Structural)]
pub enum Plan {
    /// Show the transactions and make none of them
    ShowOnly,
    /// There is nothing to do
    Nothing,
    /// Show the transactions and carry them out
    Execute,
}

/// What to do with a ledger: in a dry run it is only shown, whatever it
/// holds; otherwise it is carried out, unless it is empty.
pub open spec fn spec_plan(dry_run: bool, empty: bool) -> Plan {
    if dry_run {
        Plan::ShowOnly
    } else if empty {
        Plan::Nothing
    } else {
        Plan::Execute
    }
}

/// Decides what to do with the ledger of an operation.
pub fn plan(dry_run: bool, ledger: &Ledger<'_>) -> (decision: Plan)
    ensures
        decision == spec_plan(dry_run, ledger.spec_is_empty()),
{
    if dry_run {
        Plan::ShowOnly
    } else if ledger.is_empty() {
        Plan::Nothing
    } else {
        Plan::Execute
    }
}

} // verus!
