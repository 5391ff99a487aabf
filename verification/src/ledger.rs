//! The ledger: the transactions that a sweep has computed, by account.

use vstd::prelude::*;
use vstd::string::StringExecFns;

use crate::keyed::{
    find, lemma_mapping_at, lemma_mapping_push, lemma_mapping_update, spec_distinct, spec_has_key,
    spec_mapping,
};
use crate::ledger::transactions::{
    lemma_push_stores_no_zero, spec_entries, Transaction, Transactions, TransactionsView,
};
use crate::pot::Pot;

pub mod transactions;

verus! {

/// A ledger of transactions (deposits and withdrawals), each under the
/// account that it belongs to.
///
/// An account gets its entry with the first transaction pushed for it. The
/// entries are kept in the order in which they were made. No transaction of
/// a ledger has the amount zero.
#[derive(Debug)]
pub struct Ledger<'a> {
    accounts: Vec<(String, Transactions<'a>)>,
}

/// The mathematical content of a list of account entries.
pub open spec fn spec_accounts(accounts: Seq<(String, Transactions<'_>)>) -> Seq<
    (Seq<char>, TransactionsView),
> {
    accounts.map_values(|entry: (String, Transactions<'_>)| (entry.0@, entry.1@))
}

/// The account ids of a list of entries, in its order.
pub open spec fn spec_ids(entries: Seq<(Seq<char>, TransactionsView)>) -> Seq<Seq<char>> {
    entries.map_values(|entry: (Seq<char>, TransactionsView)| entry.0)
}

/// Whether no transaction of `entries` has the amount zero.
pub open spec fn spec_no_zero(entries: Seq<(Seq<char>, TransactionsView)>) -> bool {
    forall|i: int| 0 <= i < entries.len() ==> (#[trigger] entries[i]).1.no_zero()
}

/// The mapping `ledger` with one more transaction under `account_id`. The
/// account gets an entry if it has none.
pub open spec fn spec_pushed(
    ledger: Map<Seq<char>, TransactionsView>,
    account_id: Seq<char>,
    pot: Pot,
    amount: int,
) -> Map<Seq<char>, TransactionsView> {
    ledger.insert(
        account_id,
        (if ledger.contains_key(account_id) {
            ledger[account_id]
        } else {
            TransactionsView::empty()
        }).push(pot, amount),
    )
}

/// The mapping that comes of pushing each transaction of `list` in turn
/// under the account that its pot belongs to.
pub open spec fn spec_grouped(list: Seq<(Pot, int)>) -> Map<Seq<char>, TransactionsView>
    decreases list.len(),
{
    if list.len() == 0 {
        Map::empty()
    } else {
        spec_pushed(
            spec_grouped(list.drop_last()),
            list.last().0.current_account_id@,
            list.last().0,
            list.last().1,
        )
    }
}

/// The accounts that get an entry when the transactions of `list` are
/// pushed in turn, each under the account that its pot belongs to, in the
/// order in which the entries are made.
pub open spec fn spec_grouped_ids(list: Seq<(Pot, int)>) -> Seq<Seq<char>>
    decreases list.len(),
{
    if list.len() == 0 {
        Seq::empty()
    } else {
        let id = list.last().0.current_account_id@;
        if spec_grouped(list.drop_last()).contains_key(id) {
            spec_grouped_ids(list.drop_last())
        } else {
            spec_grouped_ids(list.drop_last()).push(id)
        }
    }
}

impl<'a> View for Ledger<'a> {
    type V = Map<Seq<char>, TransactionsView>;

    /// The transactions of each account that has an entry.
    open spec fn view(&self) -> Map<Seq<char>, TransactionsView> {
        spec_mapping(self.spec_entries())
    }
}

impl<'a> Default for Ledger<'a> {
    fn default() -> (ledger: Self)
        ensures
            ledger.spec_entries() == Seq::<(Seq<char>, TransactionsView)>::empty(),
            ledger.spec_account_ids() == Seq::<Seq<char>>::empty(),
            ledger@ == Map::<Seq<char>, TransactionsView>::empty(),
    {
        let ledger = Ledger { accounts: Vec::new() };
        proof {
            assert(ledger.spec_entries() =~= Seq::empty());
            assert(ledger.spec_account_ids() =~= Seq::empty());
            assert(ledger@ =~= Map::empty());
        }
        ledger
    }
}

impl<'a> Ledger<'a> {
    /// The entries of the ledger, in the order in which they were made.
    pub closed spec fn spec_entries(&self) -> Seq<(Seq<char>, TransactionsView)> {
        spec_accounts(self.accounts@)
    }

    /// The accounts that have an entry, in the order in which the entries
    /// were made.
    pub open spec fn spec_account_ids(&self) -> Seq<Seq<char>> {
        spec_ids(self.spec_entries())
    }

    /// Whether no transaction at all is recorded: every account that has an
    /// entry has neither a withdrawal nor a deposit.
    pub open spec fn spec_is_empty(&self) -> bool {
        forall|id: Seq<char>| self@.contains_key(id) ==> (#[trigger] self@[id]).is_empty()
    }

    /// No account has two entries, and no transaction has the amount zero.
    #[verifier::type_invariant]
    spec fn well_formed(&self) -> bool {
        spec_distinct(self.spec_entries()) && spec_no_zero(self.spec_entries())
    }

    /// Creates a ledger without entries.
    pub fn new() -> (ledger: Self)
        ensures
            ledger.spec_entries() == Seq::<(Seq<char>, TransactionsView)>::empty(),
            ledger.spec_account_ids() == Seq::<Seq<char>>::empty(),
            ledger@ == Map::<Seq<char>, TransactionsView>::empty(),
    {
        Ledger::default()
    }

    /// Adds a new transaction to the ledger, under the account `account_id`.
    ///
    /// The account gets an entry if it has none, also where the amount is
    /// zero and no transaction is recorded.
    pub fn push(&mut self, account_id: &str, pot: &'a Pot, amount: i128)
        requires
            -(u64::MAX as int) <= amount <= u64::MAX as int,
        ensures
            final(self)@ == spec_pushed(old(self)@, account_id@, *pot, amount as int),
            final(self).spec_account_ids() == if old(self)@.contains_key(account_id@) {
                old(self).spec_account_ids()
            } else {
                old(self).spec_account_ids().push(account_id@)
            },
    {
        proof {
            use_type_invariant(&*self);
        }
        let key = String::from_str(account_id);
        let ghost before = self.spec_entries();
        let mut taken = Ledger::default();
        core::mem::swap(self, &mut taken);
        let mut accounts = taken.accounts;
        match find(&accounts, &key) {
            Some(at) => {
                proof {
                    assert(before[at as int].0 == key@);
                    lemma_mapping_at(before, at as int);
                    lemma_mapping_update(
                        before,
                        at as int,
                        before[at as int].1.push(*pot, amount as int),
                    );
                    lemma_push_stores_no_zero(before[at as int].1, *pot, amount as int);
                }
                let (id, mut transactions) = accounts.remove(at);
                transactions.push((pot, amount));
                accounts.insert(at, (id, transactions));
                proof {
                    assert(spec_accounts(accounts@) =~= before.update(
                        at as int,
                        (before[at as int].0, before[at as int].1.push(*pot, amount as int)),
                    ));
                }
                *self = Ledger { accounts };
                proof {
                    assert(self.spec_entries() =~= before.update(
                        at as int,
                        (before[at as int].0, before[at as int].1.push(*pot, amount as int)),
                    ));
                    assert(self.spec_account_ids() =~= spec_ids(before));
                }
            },
            None => {
                proof {
                    assert(forall|j: int|
                        0 <= j < before.len() ==> (#[trigger] before[j]).0 == accounts[j].0@);
                    assert(!spec_has_key(before, key@));
                    lemma_mapping_push(
                        before,
                        key@,
                        TransactionsView::empty().push(*pot, amount as int),
                    );
                    lemma_push_stores_no_zero(TransactionsView::empty(), *pot, amount as int);
                }
                let mut transactions = Transactions::default();
                transactions.push((pot, amount));
                accounts.push((key, transactions));
                proof {
                    assert(spec_accounts(accounts@) =~= before.push(
                        (key@, TransactionsView::empty().push(*pot, amount as int)),
                    ));
                }
                *self = Ledger { accounts };
                proof {
                    assert(self.spec_entries() =~= before.push(
                        (key@, TransactionsView::empty().push(*pot, amount as int)),
                    ));
                    assert(self.spec_account_ids() =~= spec_ids(before).push(key@));
                }
            },
        }
    }

    /// Builds a ledger from a list of transactions, each of which goes
    /// under the account that its pot belongs to.
    pub fn from_transactions(list: &[Transaction<'a>]) -> (ledger: Self)
        requires
            forall|k: int|
                0 <= k < list.len() ==> -(u64::MAX as int) <= (#[trigger] list[k]).1 <= u64::MAX as int,
        ensures
            ledger@ == spec_grouped(spec_entries(list@)),
            ledger.spec_account_ids() == spec_grouped_ids(spec_entries(list@)),
    {
        let ghost entries = spec_entries(list@);
        let mut ledger = Ledger::default();
        let mut i: usize = 0;
        proof {
            assert(entries.take(0) =~= Seq::<(Pot, int)>::empty());
        }
        while i < list.len()
            invariant
                i <= list.len(),
                entries == spec_entries(list@),
                forall|k: int|
                    0 <= k < list.len() ==> -(u64::MAX as int) <= (#[trigger] list[k]).1
                        <= u64::MAX as int,
                ledger@ == spec_grouped(entries.take(i as int)),
                ledger.spec_account_ids() == spec_grouped_ids(entries.take(i as int)),
            decreases list.len() - i,
        {
            let (pot, amount) = list[i];
            proof {
                assert(entries[i as int] == (*pot, amount as int));
                assert(entries.take(i as int + 1).drop_last() =~= entries.take(i as int));
                assert(entries.take(i as int + 1).last() == entries[i as int]);
            }
            ledger.push(pot.current_account_id.as_str(), pot, amount);
            i += 1;
        }
        proof {
            assert(entries.take(list.len() as int) =~= entries);
        }
        ledger
    }

    /// Checks whether there are zero transactions in the ledger.
    pub fn is_empty(&self) -> (empty: bool)
        ensures
            empty == self.spec_is_empty(),
    {
        proof {
            use_type_invariant(self);
        }
        let ghost entries = self.spec_entries();
        let mut i: usize = 0;
        while i < self.accounts.len()
            invariant
                i <= self.accounts.len(),
                entries == self.spec_entries(),
                spec_distinct(entries),
                forall|j: int| 0 <= j < i ==> (#[trigger] entries[j]).1.is_empty(),
            decreases self.accounts.len() - i,
        {
            if !self.accounts[i].1.is_empty() {
                proof {
                    lemma_mapping_at(entries, i as int);
                    assert(!self@[entries[i as int].0].is_empty());
                }
                return false;
            }
            i += 1;
        }
        proof {
            assert forall|id: Seq<char>| self@.contains_key(id) implies (
            #[trigger] self@[id]).is_empty() by {
                let at = crate::keyed::spec_index_of(entries, id);
                assert(0 <= at < entries.len() && entries[at].0 == id);
                lemma_mapping_at(entries, at);
            }
        }
        true
    }

    /// The entries of the ledger: each account that has one, with its
    /// transactions, in the order in which the entries were made.
    pub fn accounts(&self) -> (entries: &Vec<(String, Transactions<'a>)>)
        ensures
            spec_accounts(entries@) == self.spec_entries(),
            spec_distinct(self.spec_entries()),
            spec_no_zero(self.spec_entries()),
    {
        proof {
            use_type_invariant(self);
        }
        &self.accounts
    }
}

} // verus!
