//! The transactions of one account, split into withdrawals and deposits.

use vstd::prelude::*;

use crate::pot::Pot;

verus! {

/// A pot together with a signed amount: negative for a withdrawal from the
/// pot, positive for a deposit into it.
///
/// The distance between two amounts of 64 bits can need 65, so the signed
/// amount is 128 bits wide, and its magnitude is kept in 64.
pub type Transaction<'a> = (&'a Pot, i128);

/// The mathematical content of a list of transactions.
pub open spec fn spec_entries(list: Seq<(&Pot, i128)>) -> Seq<(Pot, int)> {
    list.map_values(|t: (&Pot, i128)| (*t.0, t.1 as int))
}

/// A withdrawal as a signed amount.
pub open spec fn spec_taken(transfer: (Pot, nat)) -> (Pot, int) {
    (transfer.0, -(transfer.1 as int))
}

/// A deposit as a signed amount.
pub open spec fn spec_given(transfer: (Pot, nat)) -> (Pot, int) {
    (transfer.0, transfer.1 as int)
}

/// The withdrawals and deposits that are to be made on the pots of one
/// account. Each list keeps the order in which its entries were pushed.
#[derive(Debug)]
pub struct Transactions<'a> {
    /// Withdrawals from pots into the current account, each with the amount
    /// to take out
    pub withdrawals: Vec<(&'a Pot, u64)>,
    /// Deposits from the current account into pots, each with the amount to
    /// put in
    pub deposits: Vec<(&'a Pot, u64)>,
}

/// The mathematical content of [`Transactions`].
pub struct TransactionsView {
    /// The withdrawals, each a pot and the amount to take out of it
    pub withdrawals: Seq<(Pot, nat)>,
    /// The deposits, each a pot and the amount to put into it
    pub deposits: Seq<(Pot, nat)>,
}

/// The mathematical content of one of the two lists.
pub open spec fn spec_transfers(list: Seq<(&Pot, u64)>) -> Seq<(Pot, nat)> {
    list.map_values(|t: (&Pot, u64)| (*t.0, t.1 as nat))
}

impl TransactionsView {
    /// No withdrawals and no deposits.
    pub open spec fn empty() -> TransactionsView {
        TransactionsView { withdrawals: Seq::empty(), deposits: Seq::empty() }
    }

    /// These transactions with one more: a negative amount is appended to
    /// the withdrawals, a positive one to the deposits, each by its
    /// magnitude, and zero changes nothing.
    pub open spec fn push(self, pot: Pot, amount: int) -> TransactionsView {
        if amount < 0 {
            TransactionsView {
                withdrawals: self.withdrawals.push((pot, (-amount) as nat)),
                deposits: self.deposits,
            }
        } else if amount > 0 {
            TransactionsView {
                withdrawals: self.withdrawals,
                deposits: self.deposits.push((pot, amount as nat)),
            }
        } else {
            self
        }
    }

    /// All transactions as signed amounts: the withdrawals, negative, in
    /// their order, then the deposits, positive, in theirs.
    pub open spec fn signed(self) -> Seq<(Pot, int)> {
        self.withdrawals.map_values(|t: (Pot, nat)| spec_taken(t)) + self.deposits.map_values(
            |t: (Pot, nat)| spec_given(t),
        )
    }

    /// Whether there is neither a withdrawal nor a deposit.
    pub open spec fn is_empty(self) -> bool {
        self.withdrawals.len() == 0 && self.deposits.len() == 0
    }

    /// Whether no entry has the amount zero.
    pub open spec fn no_zero(self) -> bool {
        &&& forall|i: int| 0 <= i < self.withdrawals.len() ==> (#[trigger] self.withdrawals[i]).1 > 0
        &&& forall|i: int| 0 <= i < self.deposits.len() ==> (#[trigger] self.deposits[i]).1 > 0
    }
}

/// The transactions that come of pushing the entries of `list` in turn.
pub open spec fn spec_collect(list: Seq<(Pot, int)>) -> TransactionsView
    decreases list.len(),
{
    if list.len() == 0 {
        TransactionsView::empty()
    } else {
        spec_collect(list.drop_last()).push(list.last().0, list.last().1)
    }
}

impl<'a> View for Transactions<'a> {
    type V = TransactionsView;

    open spec fn view(&self) -> TransactionsView {
        TransactionsView {
            withdrawals: spec_transfers(self.withdrawals@),
            deposits: spec_transfers(self.deposits@),
        }
    }
}

impl<'a> Default for Transactions<'a> {
    fn default() -> (transactions: Self)
        ensures
            transactions@ == TransactionsView::empty(),
    {
        let transactions = Transactions { withdrawals: Vec::new(), deposits: Vec::new() };
        proof {
            assert(transactions@.withdrawals =~= Seq::empty());
            assert(transactions@.deposits =~= Seq::empty());
        }
        transactions
    }
}

impl<'a> Transactions<'a> {
    /// Adds a transaction: a negative amount is a withdrawal from the pot, a
    /// positive amount a deposit into it.
    ///
    /// Transactions with the amount zero are ignored.
    pub fn push(&mut self, transaction: (&'a Pot, i128))
        requires
            -(u64::MAX as int) <= transaction.1 <= u64::MAX as int,
        ensures
            final(self)@ == old(self)@.push(*transaction.0, transaction.1 as int),
    {
        let (pot, amount) = transaction;
        if amount < 0 {
            self.withdrawals.push((pot, (-amount) as u64));
            proof {
                assert(self@.withdrawals =~= old(self)@.withdrawals.push(
                    (*pot, (-amount) as nat),
                ));
            }
        } else if amount > 0 {
            self.deposits.push((pot, amount as u64));
            proof {
                assert(self@.deposits =~= old(self)@.deposits.push((*pot, amount as nat)));
            }
        }
    }

    /// Checks whether there are zero transactions.
    pub fn is_empty(&self) -> (empty: bool)
        ensures
            empty == self@.is_empty(),
    {
        self.withdrawals.is_empty() && self.deposits.is_empty()
    }

    /// Returns the total number of transactions.
    pub fn len(&self) -> (count: usize)
        requires
            self@.withdrawals.len() + self@.deposits.len() <= usize::MAX,
        ensures
            count == self@.withdrawals.len() + self@.deposits.len(),
    {
        self.withdrawals.len() + self.deposits.len()
    }

    /// Lists all transactions as signed amounts: every withdrawal, as a
    /// negative amount, before every deposit, as a positive amount, each
    /// group in the order in which it was pushed.
    pub fn entries(&self) -> (list: Vec<Transaction<'a>>)
        ensures
            spec_entries(list@) == self@.signed(),
    {
        let ghost taken = self@.withdrawals.map_values(|t: (Pot, nat)| spec_taken(t));
        let ghost given = self@.deposits.map_values(|t: (Pot, nat)| spec_given(t));
        let mut list: Vec<Transaction<'a>> = Vec::new();
        let mut i: usize = 0;
        proof {
            assert(spec_entries(list@) =~= taken.take(0));
        }
        while i < self.withdrawals.len()
            invariant
                i <= self.withdrawals.len(),
                taken == self@.withdrawals.map_values(|t: (Pot, nat)| spec_taken(t)),
                spec_entries(list@) == taken.take(i as int),
            decreases self.withdrawals.len() - i,
        {
            let (pot, amount) = self.withdrawals[i];
            let ghost before = spec_entries(list@);
            list.push((pot, -(amount as i128)));
            proof {
                assert(spec_entries(list@) =~= before.push((*pot, -(amount as int))));
                assert(taken[i as int] == (*pot, -(amount as int)));
                assert(taken.take(i as int + 1) =~= taken.take(i as int).push(taken[i as int]));
            }
            i += 1;
        }
        let mut j: usize = 0;
        proof {
            assert(taken.take(i as int) =~= taken);
            assert(taken + given.take(0) =~= taken);
        }
        while j < self.deposits.len()
            invariant
                j <= self.deposits.len(),
                given == self@.deposits.map_values(|t: (Pot, nat)| spec_given(t)),
                spec_entries(list@) == taken + given.take(j as int),
            decreases self.deposits.len() - j,
        {
            let (pot, amount) = self.deposits[j];
            let ghost before = spec_entries(list@);
            list.push((pot, amount as i128));
            proof {
                assert(spec_entries(list@) =~= before.push((*pot, amount as int)));
                assert(given[j as int] == (*pot, amount as int));
                assert(given.take(j as int + 1) =~= given.take(j as int).push(given[j as int]));
                assert(taken + given.take(j as int + 1) =~= (taken + given.take(j as int)).push(
                    given[j as int],
                ));
            }
            j += 1;
        }
        proof {
            assert(given.take(j as int) =~= given);
        }
        list
    }
}

/// Pushing stores no amount of zero: transactions without one have none
/// after another is pushed.
pub proof fn lemma_push_stores_no_zero(transactions: TransactionsView, pot: Pot, amount: int)
    requires
        transactions.no_zero(),
    ensures
        transactions.push(pot, amount).no_zero(),
{
}

/// An entry of a list of signed amounts as a transfer: the pot and the
/// magnitude of the amount.
pub open spec fn spec_magnitude(entry: (Pot, int)) -> (Pot, nat) {
    (
        entry.0,
        (if entry.1 < 0 {
            -entry.1
        } else {
            entry.1
        }) as nat,
    )
}

/// Pushing withdrawals and then deposits gives transactions that hold the
/// withdrawals and the deposits as they came, and that list them again as
/// they were pushed.
pub proof fn lemma_collect_split(taken: Seq<(Pot, int)>, given: Seq<(Pot, int)>)
    requires
        forall|k: int| 0 <= k < taken.len() ==> (#[trigger] taken[k]).1 < 0,
        forall|k: int| 0 <= k < given.len() ==> (#[trigger] given[k]).1 > 0,
    ensures
        spec_collect(taken + given).withdrawals == taken.map_values(
            |entry: (Pot, int)| spec_magnitude(entry),
        ),
        spec_collect(taken + given).deposits == given.map_values(
            |entry: (Pot, int)| spec_magnitude(entry),
        ),
        spec_collect(taken + given).signed() == taken + given,
        spec_collect(taken + given).no_zero(),
    decreases taken.len() + given.len(),
{
    let all = taken + given;
    let magnitude = |entry: (Pot, int)| spec_magnitude(entry);
    if given.len() > 0 {
        let fewer = given.drop_last();
        assert forall|k: int| 0 <= k < fewer.len() implies (#[trigger] fewer[k]).1 > 0 by {
            assert(fewer[k] == given[k]);
        }
        lemma_collect_split(taken, fewer);
        assert(all.drop_last() =~= taken + fewer);
        assert(all.last() == given.last());
        assert(given.map_values(magnitude) =~= fewer.map_values(magnitude).push(
            spec_magnitude(given.last()),
        ));
    } else if taken.len() > 0 {
        let fewer = taken.drop_last();
        assert forall|k: int| 0 <= k < fewer.len() implies (#[trigger] fewer[k]).1 < 0 by {
            assert(fewer[k] == taken[k]);
        }
        lemma_collect_split(fewer, given);
        assert(all.drop_last() =~= fewer + given);
        assert(all.last() == taken.last());
        assert(taken.map_values(magnitude) =~= fewer.map_values(magnitude).push(
            spec_magnitude(taken.last()),
        ));
        assert(given.map_values(magnitude) =~= Seq::<(Pot, nat)>::empty());
    } else {
        assert(taken.map_values(magnitude) =~= Seq::<(Pot, nat)>::empty());
        assert(given.map_values(magnitude) =~= Seq::<(Pot, nat)>::empty());
    }
    let collected = spec_collect(all);
    assert(collected.signed() =~= all);
}

} // verus!
