//! Pots: goal-tracked sub-accounts of a current account.

use vstd::prelude::*;
use vstd::string::StringExecFns;

verus! {

/// A pot as the bank reports it. All amounts are in minor currency units.
#[derive(Debug)]
pub struct Pot {
    /// The unique ID associated with the pot
    pub id: String,
    /// The human-readable name of the pot
    pub name: String,
    /// The three-letter currency code of the pot
    pub currency: String,
    /// The current balance of the pot
    pub balance: i64,
    /// The balance the pot should reach, if one is set
    pub goal_amount: Option<i64>,
    /// The ID of the account the pot belongs to
    pub current_account_id: String,
    /// Whether the pot has been deleted
    pub deleted: bool,
}

impl Default for Pot {
    fn default() -> (pot: Self)
        ensures
            pot.id@ == Seq::<char>::empty(),
            pot.name@ == Seq::<char>::empty(),
            pot.currency@ == Seq::<char>::empty(),
            pot.balance == 0,
            pot.goal_amount is None,
            pot.current_account_id@ == Seq::<char>::empty(),
            !pot.deleted,
    {
        Pot {
            id: String::new(),
            name: String::new(),
            currency: String::new(),
            balance: 0,
            goal_amount: None,
            current_account_id: String::new(),
            deleted: false,
        }
    }
}

impl Pot {
    /// The signed distance of the pot from its goal: positive when the pot
    /// needs money, negative when it holds more than its goal.
    pub open spec fn spec_diff(&self) -> int
        recommends
            self.goal_amount is Some,
    {
        self.goal_amount->0 - self.balance
    }

    /// The difference between the goal of the pot and its current balance.
    ///
    /// The result can need 65 bits, so it is returned in a wider type than
    /// the two amounts it is computed from.
    pub fn diff_unchecked(&self) -> (diff: i128)
        requires
            self.goal_amount is Some,
        ensures
            diff == self.spec_diff(),
    {
        let goal: i64 = match self.goal_amount {
            Some(goal) => goal,
            None => 0,
        };
        goal as i128 - self.balance as i128
    }
}

/// Whether `i` is the position of the first pot of `pots` whose name is
/// exactly `name`.
pub open spec fn spec_first_named(pots: Seq<Pot>, name: Seq<char>, i: int) -> bool {
    &&& 0 <= i < pots.len()
    &&& pots[i].name@ == name
    &&& forall|j: int| 0 <= j < i ==> (#[trigger] pots[j]).name@ != name
}

/// Finds the first pot whose name is exactly `name`.
pub fn find_pot_by_name<'a>(pots: &'a [Pot], name: &str) -> (found: Option<&'a Pot>)
    ensures
        match found {
            Some(pot) => exists|i: int| spec_first_named(pots@, name@, i) && pots[i] == *pot,
            None => forall|i: int| 0 <= i < pots.len() ==> (#[trigger] pots[i]).name@ != name@,
        },
{
    let wanted = String::from_str(name);
    let mut i: usize = 0;
    while i < pots.len()
        invariant
            i <= pots.len(),
            wanted@ == name@,
            forall|j: int| 0 <= j < i ==> (#[trigger] pots[j]).name@ != name@,
        decreases pots.len() - i,
    {
        if pots[i].name == wanted {
            proof {
                assert(spec_first_named(pots@, name@, i as int));
            }
            return Some(&pots[i]);
        }
        i += 1;
    }
    None
}

} // verus!
