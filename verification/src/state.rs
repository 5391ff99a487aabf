//! The live state of the accounts: balances and pots, by account.

use vstd::prelude::*;
use vstd::string::StringExecFns;

use crate::keyed::{
    find, lemma_mapping_at, lemma_mapping_push, lemma_mapping_update, spec_distinct, spec_has_key,
    spec_mapping,
};
use crate::pot::Pot;

verus! {

/// The balance and pots associated with an account.
#[derive(Debug)]
pub struct Account {
    /// The current balance of the account, in minor currency units
    pub balance: i64,
    /// The pots associated with the account
    pub pots: Vec<Pot>,
}

/// A map from account IDs to their respective [`Account`]s.
#[derive(Debug)]
pub struct State {
    accounts: Vec<(String, Account)>,
}

/// The mathematical content of a list of accounts under their ids.
pub open spec fn spec_accounts(accounts: Seq<(String, Account)>) -> Seq<(Seq<char>, Account)> {
    accounts.map_values(|entry: (String, Account)| (entry.0@, entry.1))
}

impl View for State {
    type V = Map<Seq<char>, Account>;

    /// The account that is known under each id.
    open spec fn view(&self) -> Map<Seq<char>, Account> {
        spec_mapping(self.spec_entries())
    }
}

impl Default for State {
    fn default() -> (state: Self)
        ensures
            state@ == Map::<Seq<char>, Account>::empty(),
    {
        let state = State { accounts: Vec::new() };
        proof {
            assert(state.spec_entries() =~= Seq::empty());
            assert(state@ =~= Map::empty());
        }
        state
    }
}

impl State {
    /// The accounts of the state under their ids, as they are stored.
    pub closed spec fn spec_entries(&self) -> Seq<(Seq<char>, Account)> {
        spec_accounts(self.accounts@)
    }

    /// No id stands for two accounts.
    #[verifier::type_invariant]
    spec fn well_formed(&self) -> bool {
        spec_distinct(self.spec_entries())
    }

    /// Puts `account` under `account_id`, in place of the account that was
    /// there, and returns the account that it replaced, if any.
    pub fn insert(&mut self, account_id: String, account: Account) -> (replaced: Option<Account>)
        ensures
            final(self)@ == old(self)@.insert(account_id@, account),
            replaced == if old(self)@.contains_key(account_id@) {
                Some(old(self)@[account_id@])
            } else {
                None
            },
    {
        proof {
            use_type_invariant(&*self);
        }
        let ghost before = self.spec_entries();
        let mut taken = State::default();
        core::mem::swap(self, &mut taken);
        let mut accounts = taken.accounts;
        match find(&accounts, &account_id) {
            Some(at) => {
                proof {
                    assert(before[at as int].0 == account_id@);
                    lemma_mapping_at(before, at as int);
                    lemma_mapping_update(before, at as int, account);
                }
                let (_, previous) = accounts.remove(at);
                accounts.insert(at, (account_id, account));
                proof {
                    assert(spec_accounts(accounts@) =~= before.update(
                        at as int,
                        (before[at as int].0, account),
                    ));
                }
                *self = State { accounts };
                Some(previous)
            },
            None => {
                proof {
                    assert(forall|j: int|
                        0 <= j < before.len() ==> (#[trigger] before[j]).0 == accounts[j].0@);
                    assert(!spec_has_key(before, account_id@));
                    lemma_mapping_push(before, account_id@, account);
                }
                accounts.push((account_id, account));
                proof {
                    assert(spec_accounts(accounts@) =~= before.push((account_id@, account)));
                }
                *self = State { accounts };
                None
            },
        }
    }

    /// Returns the account that is known under `account_id`, if any.
    pub fn get(&self, account_id: &str) -> (account: Option<&Account>)
        ensures
            account == if self@.contains_key(account_id@) {
                Some(&self@[account_id@])
            } else {
                None
            },
    {
        proof {
            use_type_invariant(self);
        }
        let key = String::from_str(account_id);
        let ghost entries = self.spec_entries();
        match find(&self.accounts, &key) {
            Some(at) => {
                proof {
                    assert(entries[at as int].0 == key@);
                    lemma_mapping_at(entries, at as int);
                }
                Some(&self.accounts[at].1)
            },
            None => {
                proof {
                    assert(forall|j: int|
                        0 <= j < entries.len() ==> (#[trigger] entries[j]).0
                            == self.accounts[j].0@);
                    assert(!spec_has_key(entries, key@));
                }
                None
            },
        }
    }
}

} // verus!
