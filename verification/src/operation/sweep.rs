//! The sweep: pots above their goal are emptied down to it, and the spare
//! cash of the account is passed down an ordered list of pots.

use vstd::prelude::*;

use crate::accounts::{find_current_account, spec_current_account, spec_wanted, AccountInfo};
use crate::ledger::transactions::{
    lemma_collect_split, spec_collect, spec_entries, spec_magnitude, TransactionsView,
};
use crate::ledger::Ledger;
use crate::operation::allocation_laws::lemma_balanced_pots_need_nothing;
use crate::operation::allocator::{
    calculate_transactions, lemma_deposits_capped, lemma_partition_bounds,
    lemma_transactions_bounded, spec_deposits, spec_remainder, spec_spare_cash, spec_transactions,
    spec_withdrawals,
};
use crate::operation::error::{Error, ErrorView};
use crate::operation::resolver::{
    lemma_resolved_are_eligible, sort_and_filter_pots, spec_pots, spec_resolve,
};
use crate::operation::Operation;
use crate::pot::Pot;
use crate::state::{Account, State};

verus! {

/// A sweep moves through a list of pots, sweeping any money above the goal
/// of the account into the pots below their goal, in the order of the list.
///
/// It is an error to sweep pots that do not have a goal amount set.
#[derive(Debug)]
pub struct Sweep {
    account_id: String,
    account_goal: i64,
    pots: Vec<String>,
}

impl Sweep {
    /// The ID of the account to be swept.
    pub closed spec fn spec_account_id(&self) -> Seq<char> {
        self.account_id@
    }

    /// The goal amount of the current account itself, in major currency
    /// units.
    pub closed spec fn spec_account_goal(&self) -> int {
        self.account_goal as int
    }

    /// The names of the pots that are swept, in order.
    pub closed spec fn spec_pot_names(&self) -> Seq<String> {
        self.pots@
    }

    /// The transactions that the sweep asks for in `state`, as signed
    /// amounts, or the reason why it cannot be computed.
    ///
    /// The account must be known and its pots must resolve. The goal of the
    /// account is held in major units and counts a hundredfold.
    pub open spec fn spec_transactions(&self, state: Map<Seq<char>, Account>) -> Result<
        Seq<(Pot, int)>,
        ErrorView,
    > {
        if !state.contains_key(self.spec_account_id()) {
            Err(ErrorView::NotFound(self.spec_account_id()))
        } else {
            let account = state[self.spec_account_id()];
            match spec_resolve(self.spec_account_id(), account.pots@, self.spec_pot_names()) {
                Ok(pots) => Ok(
                    spec_transactions(account.balance as int, self.spec_account_goal() * 100, pots),
                ),
                Err(e) => Err(e),
            }
        }
    }

    /// The ledger that holds `list` under the account `account_id`: no entry
    /// at all where the list is empty.
    pub open spec fn spec_ledger(account_id: Seq<char>, list: Seq<(Pot, int)>) -> Map<
        Seq<char>,
        TransactionsView,
    > {
        if list.len() == 0 {
            Map::empty()
        } else {
            Map::empty().insert(account_id, spec_collect(list))
        }
    }

    /// The accounts that have an entry in the ledger that holds `list`
    /// under `account_id`.
    pub open spec fn spec_ledger_ids(account_id: Seq<char>, list: Seq<(Pot, int)>) -> Seq<
        Seq<char>,
    > {
        if list.len() == 0 {
            Seq::empty()
        } else {
            seq![account_id]
        }
    }

    /// Whether `computed` is what the sweep gives in `state`: the ledger
    /// that holds its transactions under the swept account, or the error
    /// that says why they cannot be computed.
    pub open spec fn spec_computes(
        &self,
        state: Map<Seq<char>, Account>,
        computed: Result<Ledger<'_>, Error>,
    ) -> bool {
        match computed {
            Ok(ledger) => {
                &&& self.spec_transactions(state) is Ok
                &&& ledger@ == Sweep::spec_ledger(
                    self.spec_account_id(),
                    self.spec_transactions(state)->Ok_0,
                )
                &&& ledger.spec_account_ids() == Sweep::spec_ledger_ids(
                    self.spec_account_id(),
                    self.spec_transactions(state)->Ok_0,
                )
            },
            Err(e) => self.spec_transactions(state) == Err::<Seq<(Pot, int)>, ErrorView>(e@),
        }
    }

    /// Creates the sweep that a configuration asks for: of the account with
    /// the id `account_id` or, where none is given, of the first standard
    /// personal account among `accounts`.
    ///
    /// Fails with [`Error::NotFound`] where `accounts` holds no such
    /// account.
    pub fn for_account(
        accounts: &[AccountInfo],
        account_id: Option<&str>,
        account_goal: i64,
        pots: Vec<String>,
    ) -> (created: Result<Self, Error>)
        ensures
            match created {
                Ok(sweep) => {
                    &&& spec_current_account(accounts@, spec_wanted(account_id)) is Ok
                    &&& sweep.spec_account_id() == spec_current_account(
                        accounts@,
                        spec_wanted(account_id),
                    )->Ok_0.id@
                    &&& sweep.spec_account_goal() == account_goal
                    &&& sweep.spec_pot_names() == pots@
                },
                Err(e) => spec_current_account(accounts@, spec_wanted(account_id)) == Err::<
                    AccountInfo,
                    ErrorView,
                >(e@),
            },
    {
        match find_current_account(accounts, account_id) {
            Ok(account) => Ok(Self { account_id: account.id.clone(), account_goal, pots }),
            Err(e) => Err(e),
        }
    }

    /// Creates a new sweep of the account `account_id`, with no pots yet.
    #[must_use]
    pub fn new(account_id: String, account_goal: i64) -> (sweep: Self)
        ensures
            sweep.spec_account_id() == account_id@,
            sweep.spec_account_goal() == account_goal,
            sweep.spec_pot_names() == Seq::<String>::empty(),
    {
        Self { account_id, account_goal, pots: Vec::new() }
    }

    /// Adds a pot to the end of the list of pots to sweep.
    ///
    /// The chosen pot must have a goal set, otherwise the sweep will return
    /// an error. Pot names are normalised before comparison, by removing
    /// non-ASCII characters, capitalisation, and leading and trailing
    /// whitespace.
    #[must_use]
    pub fn with_pot(self, name: String) -> (sweep: Self)
        ensures
            sweep.spec_account_id() == self.spec_account_id(),
            sweep.spec_account_goal() == self.spec_account_goal(),
            sweep.spec_pot_names() == self.spec_pot_names().push(name),
    {
        let mut sweep = self;
        sweep.pots.push(name);
        sweep
    }

    /// The ID of the account to be swept.
    pub fn account_id(&self) -> (id: &str)
        ensures
            id@ == self.spec_account_id(),
    {
        self.account_id.as_str()
    }

    /// The goal amount of the current account itself, in major currency
    /// units.
    pub fn account_goal(&self) -> (goal: i64)
        ensures
            goal == self.spec_account_goal(),
    {
        self.account_goal
    }

    /// The names of the pots that are swept, in order.
    pub fn pots(&self) -> (names: &Vec<String>)
        ensures
            names@ == self.spec_pot_names(),
    {
        &self.pots
    }
}

impl Operation for Sweep {
    type Err = Error;

    const NAME: &'static str = "Sweep";

    /// Given the state of the accounts, generates the transactions that the
    /// sweep asks for.
    ///
    /// Fails where the account is not known, where one of its live pots has
    /// no goal, and where a configured name matches none of the pots that
    /// are left for it. Nothing is computed in that case.
    fn transactions<'a>(&'a self, state: &'a State) -> (computed: Result<Ledger<'a>, Error>)
        ensures
            self.spec_computes(state@, computed),
    {
        let account = match state.get(self.account_id.as_str()) {
            Some(account) => account,
            None => {
                return Err(Error::NotFound(self.account_id.clone()));
            },
        };
        let pots = match sort_and_filter_pots(
            self.account_id.as_str(),
            account.pots.as_slice(),
            self.pots.as_slice(),
        ) {
            Ok(pots) => pots,
            Err(e) => {
                return Err(e);
            },
        };
        proof {
            lemma_resolved_are_eligible(self.account_id@, account.pots@, self.pots@);
        }
        let goal: i128 = self.account_goal as i128 * 100;
        let transactions = calculate_transactions(account.balance, goal, pots.as_slice());
        let ghost list = spec_entries(transactions@);
        proof {
            lemma_transactions_bounded(account.balance as int, goal as int, spec_pots(pots@));
        }
        let mut ledger = Ledger::default();
        let mut i: usize = 0;
        proof {
            assert(list.take(0) =~= Seq::<(Pot, int)>::empty());
        }
        while i < transactions.len()
            invariant
                i <= transactions.len(),
                list == spec_entries(transactions@),
                forall|k: int|
                    0 <= k < list.len() ==> -0xFFFF_FFFF_FFFF_FFFF <= (#[trigger] list[k]).1
                        <= 0xFFFF_FFFF_FFFF_FFFF,
                ledger@ == Sweep::spec_ledger(self.account_id@, list.take(i as int)),
                ledger.spec_account_ids() == Sweep::spec_ledger_ids(
                    self.account_id@,
                    list.take(i as int),
                ),
            decreases transactions.len() - i,
        {
            let (pot, amount) = transactions[i];
            proof {
                assert(list[i as int] == (*pot, amount as int));
                assert(list.take(i as int + 1).drop_last() =~= list.take(i as int));
                assert(list.take(i as int + 1).last() == list[i as int]);
                assert(spec_collect(list.take(i as int + 1)) == spec_collect(
                    list.take(i as int),
                ).push(*pot, amount as int));
                assert(spec_collect(list.take(0)) == TransactionsView::empty());
            }
            let ghost before = ledger@;
            ledger.push(self.account_id.as_str(), pot, amount);
            proof {
                assert(list.take(i as int + 1).len() > 0);
                if i > 0 {
                    assert(list.take(i as int).len() > 0);
                    assert(before.contains_key(self.account_id@));
                    assert(before.insert(
                        self.account_id@,
                        spec_collect(list.take(i as int + 1)),
                    ) =~= Map::<Seq<char>, TransactionsView>::empty().insert(
                        self.account_id@,
                        spec_collect(list.take(i as int + 1)),
                    ));
                } else {
                    assert(!before.contains_key(self.account_id@));
                    assert(Seq::<Seq<char>>::empty().push(self.account_id@) =~= seq![
                        self.account_id@,
                    ]);
                }
            }
            i += 1;
        }
        proof {
            assert(list.take(transactions.len() as int) =~= list);
        }
        Ok(ledger)
    }
}

/// The ledger of a sweep holds, under the swept account, the withdrawals
/// and the deposits of the allocation as they were computed, and lists them
/// again in that order.
pub proof fn lemma_ledger_holds_allocation(balance: int, goal: int, pots: Seq<Pot>)
    ensures
        ({
            let collected = spec_collect(spec_transactions(balance, goal, pots));
            &&& collected.withdrawals == spec_withdrawals(pots).map_values(
                |entry: (Pot, int)| spec_magnitude(entry),
            )
            &&& collected.deposits == spec_deposits(
                spec_spare_cash(balance, goal, pots),
                spec_remainder(pots),
            ).map_values(|entry: (Pot, int)| spec_magnitude(entry))
            &&& collected.signed() == spec_transactions(balance, goal, pots)
            &&& collected.no_zero()
        }),
{
    lemma_partition_bounds(pots);
    lemma_deposits_capped(spec_spare_cash(balance, goal, pots), spec_remainder(pots));
    lemma_collect_split(
        spec_withdrawals(pots),
        spec_deposits(spec_spare_cash(balance, goal, pots), spec_remainder(pots)),
    );
}

/// The ledger of a sweep is empty exactly where the sweep has computed no
/// transaction.
pub proof fn lemma_ledger_empty_without_transactions(
    ledger: Ledger<'_>,
    account_id: Seq<char>,
    balance: int,
    goal: int,
    pots: Seq<Pot>,
)
    requires
        ledger@ == Sweep::spec_ledger(account_id, spec_transactions(balance, goal, pots)),
    ensures
        ledger.spec_is_empty() <==> spec_transactions(balance, goal, pots).len() == 0,
{
    let list = spec_transactions(balance, goal, pots);
    lemma_ledger_holds_allocation(balance, goal, pots);
    if list.len() > 0 {
        let collected = spec_collect(list);
        assert(ledger@.contains_key(account_id));
        assert(ledger@[account_id] == collected);
        assert(collected.signed().len() == list.len());
        assert(!collected.is_empty());
    }
}

/// Where every pot that a sweep resolves sits on its goal, the ledger of the
/// sweep is empty.
pub proof fn lemma_balanced_pots_give_empty_ledger(
    sweep: Sweep,
    state: Map<Seq<char>, Account>,
    ledger: Ledger<'_>,
)
    requires
        sweep.spec_transactions(state) is Ok,
        ledger@ == Sweep::spec_ledger(
            sweep.spec_account_id(),
            sweep.spec_transactions(state)->Ok_0,
        ),
        forall|i: int|
            0 <= i < spec_resolve(
                sweep.spec_account_id(),
                state[sweep.spec_account_id()].pots@,
                sweep.spec_pot_names(),
            )->Ok_0.len() ==> (#[trigger] spec_resolve(
                sweep.spec_account_id(),
                state[sweep.spec_account_id()].pots@,
                sweep.spec_pot_names(),
            )->Ok_0[i]).spec_diff() == 0,
    ensures
        ledger.spec_is_empty(),
{
    let account = state[sweep.spec_account_id()];
    let pots = spec_resolve(sweep.spec_account_id(), account.pots@, sweep.spec_pot_names())->Ok_0;
    lemma_balanced_pots_need_nothing(
        account.balance as int,
        sweep.spec_account_goal() * 100,
        pots,
    );
}

} // verus!
