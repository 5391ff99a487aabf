//! The accounts of the user, and the choice of the one to work on.

use vstd::prelude::*;
use vstd::string::StringExecFns;

use crate::operation::error::{Error, ErrorView};

verus! {

/// The kinds of account that the bank knows.
#[derive(Debug, Clone, Copy, PartialEq, Eq, Structural)]
pub enum AccountType {
    /// A standard personal account
    UkRetail,
    /// A joint account
    UkRetailJoint,
    /// A business account
    UkBusiness,
    /// A rewards account
    UkRewards,
    /// A flex account
    UkMonzoFlex,
    /// A loan account
    UkLoan,
    /// Any other kind
    Other,
}

/// An account as the bank lists it.
#[derive(Debug)]
pub struct AccountInfo {
    /// The unique ID of the account
    pub id: String,
    /// The description of the account, for display
    pub description: String,
    /// The kind of the account
    pub account_type: AccountType,
}

/// Whether the account is the one asked for: the one with the id
/// `wanted`, or, where no id is given, a standard personal account.
pub open spec fn spec_is_wanted(account: AccountInfo, wanted: Option<Seq<char>>) -> bool {
    match wanted {
        Some(id) => account.id@ == id,
        None => account.account_type == AccountType::UkRetail,
    }
}

/// Whether `i` is the position of the first account of `accounts` that is
/// asked for.
pub open spec fn spec_first_wanted(
    accounts: Seq<AccountInfo>,
    wanted: Option<Seq<char>>,
    i: int,
) -> bool {
    &&& 0 <= i < accounts.len()
    &&& spec_is_wanted(accounts[i], wanted)
    &&& forall|j: int| 0 <= j < i ==> !spec_is_wanted(#[trigger] accounts[j], wanted)
}

/// What the error says where no account is asked for by id and none is a
/// standard personal account.
pub open spec fn spec_undetermined() -> Seq<char> {
    "unable to determine current account"@
}

/// The account to work on, or the error that says that there is none.
pub open spec fn spec_current_account(
    accounts: Seq<AccountInfo>,
    wanted: Option<Seq<char>>,
) -> Result<AccountInfo, ErrorView> {
    if exists|i: int| spec_first_wanted(accounts, wanted, i) {
        Ok(accounts[choose|i: int| spec_first_wanted(accounts, wanted, i)])
    } else {
        Err(
            ErrorView::NotFound(
                match wanted {
                    Some(id) => id,
                    None => spec_undetermined(),
                },
            ),
        )
    }
}

/// The view of an optional id.
pub open spec fn spec_wanted(current_account_id: Option<&str>) -> Option<Seq<char>> {
    match current_account_id {
        Some(id) => Some(id@),
        None => None,
    }
}

/// Finds the account to work on among `accounts`.
///
/// An id that is given decides: the first account with that id is taken.
/// Without one, the first standard personal account is taken. Fails with
/// [`Error::NotFound`] where there is no such account, naming the id that
/// was asked for.
pub fn find_current_account<'a>(
    accounts: &'a [AccountInfo],
    current_account_id: Option<&str>,
) -> (found: Result<&'a AccountInfo, Error>)
    ensures
        match found {
            Ok(account) => spec_current_account(accounts@, spec_wanted(current_account_id)) == Ok::<
                AccountInfo,
                ErrorView,
            >(*account),
            Err(e) => spec_current_account(accounts@, spec_wanted(current_account_id)) == Err::<
                AccountInfo,
                ErrorView,
            >(e@),
        },
{
    let ghost wanted = spec_wanted(current_account_id);
    let key: Option<String> = match current_account_id {
        Some(id) => Some(String::from_str(id)),
        None => None,
    };
    let mut i: usize = 0;
    while i < accounts.len()
        invariant
            i <= accounts.len(),
            wanted == spec_wanted(current_account_id),
            match key {
                Some(id) => wanted == Some(id@),
                None => wanted is None,
            },
            forall|j: int| 0 <= j < i ==> !spec_is_wanted(#[trigger] accounts[j], wanted),
        decreases accounts.len() - i,
    {
        let account = &accounts[i];
        let hit = match &key {
            Some(id) => account.id == *id,
            None => match account.account_type {
                AccountType::UkRetail => true,
                _ => false,
            },
        };
        if hit {
            proof {
                assert(spec_first_wanted(accounts@, wanted, i as int));
                let chosen = choose|j: int| spec_first_wanted(accounts@, wanted, j);
                assert(chosen == i);
            }
            return Ok(account);
        }
        i += 1;
    }
    proof {
        assert(forall|j: int| !spec_first_wanted(accounts@, wanted, j));
    }
    match key {
        Some(id) => Err(Error::NotFound(id)),
        None => Err(Error::NotFound(String::from_str("unable to determine current account"))),
    }
}

} // verus!
