//! The transactions of a ledger as text for the user.

use vstd::prelude::*;
use vstd::string::StringExecFns;

use crate::ledger::transactions::{spec_entries, Transaction, TransactionsView};
use crate::ledger::{spec_accounts, Ledger};
use crate::pot::Pot;

verus! {

/// Whether `rusty_money` knows an ISO currency under the code `code`.
pub uninterp spec fn spec_currency_known(code: Seq<char>) -> bool;

/// The text that `rusty_money` writes for `amount` minor units of the ISO
/// currency with the code `code`.
pub uninterp spec fn spec_money_text(code: Seq<char>, amount: int) -> Seq<char>;

/// Asks `rusty_money::iso::find` whether it knows a currency under `code`.
///
/// The lookup is a match of the code against the ISO codes that the crate
/// lists, so the answer depends on the code alone.
#[verifier::external_body]
fn currency_known(code: &str) -> (known: bool)
    ensures
        known == spec_currency_known(code@),
{
    rusty_money::iso::find(code).is_some()
}

/// Formats `rusty_money::Money::from_minor(amount, currency)` with its
/// `Display`, for the currency that `rusty_money::iso::find` gives for
/// `code`.
///
/// The text is made from the amount and from the constants that the crate
/// holds for the currency (exponent, symbol, separators), so it depends on
/// the code and the amount alone. The code must be one that the lookup
/// knows.
#[verifier::external_body]
fn money_text(code: &str, amount: i64) -> (text: String)
    requires
        spec_currency_known(code@),
    ensures
        text@ == spec_money_text(code@, amount as int),
{
    let currency = rusty_money::iso::find(code).expect("unexpected currency ISO code");
    format!("{}", rusty_money::Money::from_minor(amount, currency))
}

/// Whether an amount can be written in the currency of `pot`: the currency
/// is known and the amount is within what the formatter takes.
pub open spec fn spec_formattable(pot: Pot, amount: int) -> bool {
    spec_currency_known(pot.currency@) && i64::MIN <= amount <= i64::MAX
}

/// Writes `amount` minor units in the currency of `pot`, with the symbol and
/// the separators of that currency.
///
/// Returns `None` where the currency code of the pot is not a known ISO
/// code, and where the amount is beyond what the formatter takes.
pub fn format_currency(pot: &Pot, amount: i128) -> (text: Option<String>)
    ensures
        match text {
            Some(text) => spec_formattable(*pot, amount as int) && text@ == spec_money_text(
                pot.currency@,
                amount as int,
            ),
            None => !spec_formattable(*pot, amount as int),
        },
{
    if amount < i64::MIN as i128 || amount > i64::MAX as i128 {
        return None;
    }
    if currency_known(pot.currency.as_str()) {
        Some(money_text(pot.currency.as_str(), amount as i64))
    } else {
        None
    }
}

/// The line of the summary for one transaction: the name of the pot and the
/// amount.
pub open spec fn spec_line(entry: (Pot, int)) -> Seq<char> {
    entry.0.name@ + ": "@ + spec_money_text(entry.0.currency@, entry.1) + "\n"@
}

/// The lines of the summary for a list of transactions, in its order.
pub open spec fn spec_lines(entries: Seq<(Pot, int)>) -> Seq<char>
    decreases entries.len(),
{
    if entries.len() == 0 {
        Seq::empty()
    } else {
        spec_lines(entries.drop_last()) + spec_line(entries.last())
    }
}

/// The part of the summary for one account: a header with the id of the
/// account, then a line for each withdrawal and then for each deposit.
pub open spec fn spec_section(account: (Seq<char>, TransactionsView)) -> Seq<char> {
    account.0 + ":\n"@ + spec_lines(account.1.signed())
}

/// The summary of the accounts of a ledger, in their order.
pub open spec fn spec_summary(accounts: Seq<(Seq<char>, TransactionsView)>) -> Seq<char>
    decreases accounts.len(),
{
    if accounts.len() == 0 {
        Seq::empty()
    } else {
        spec_summary(accounts.drop_last()) + spec_section(accounts.last())
    }
}

/// Whether every amount of `entries` can be written.
pub open spec fn spec_all_formattable(entries: Seq<(Pot, int)>) -> bool {
    forall|k: int|
        0 <= k < entries.len() ==> spec_formattable((#[trigger] entries[k]).0, entries[k].1)
}

/// Whether every amount of every account of `accounts` can be written.
pub open spec fn spec_printable(accounts: Seq<(Seq<char>, TransactionsView)>) -> bool {
    forall|i: int|
        0 <= i < accounts.len() ==> spec_all_formattable((#[trigger] accounts[i]).1.signed())
}

/// Writes a line for each of `entries` at the end of `text`. Stops at the
/// first amount that cannot be written and says so.
fn write_lines(text: &mut String, entries: &Vec<Transaction<'_>>) -> (written: bool)
    ensures
        written == spec_all_formattable(spec_entries(entries@)),
        written ==> final(text)@ == old(text)@ + spec_lines(spec_entries(entries@)),
{
    let ghost list = spec_entries(entries@);
    let mut i: usize = 0;
    proof {
        assert(list.take(0) =~= Seq::<(Pot, int)>::empty());
        assert(text@ + spec_lines(list.take(0)) =~= text@);
    }
    while i < entries.len()
        invariant
            i <= entries.len(),
            list == spec_entries(entries@),
            spec_all_formattable(list.take(i as int)),
            text@ == old(text)@ + spec_lines(list.take(i as int)),
        decreases entries.len() - i,
    {
        let (pot, amount) = entries[i];
        proof {
            assert(list[i as int] == (*pot, amount as int));
            assert(list.take(i as int + 1).drop_last() =~= list.take(i as int));
            assert(list.take(i as int + 1).last() == list[i as int]);
        }
        match format_currency(pot, amount) {
            Some(money) => {
                let ghost before = text@;
                text.append(pot.name.as_str());
                text.append(": ");
                text.append(money.as_str());
                text.append("\n");
                proof {
                    assert(text@ =~= before + spec_line(list[i as int]));
                    assert(text@ =~= old(text)@ + spec_lines(list.take(i as int + 1)));
                    assert forall|k: int| 0 <= k < i + 1 implies spec_formattable(
                        (#[trigger] list.take(i as int + 1)[k]).0,
                        list.take(i as int + 1)[k].1,
                    ) by {
                        if k < i {
                            assert(list.take(i as int)[k] == list.take(i as int + 1)[k]);
                        }
                    }
                }
            },
            None => {
                proof {
                    assert(!spec_formattable(list[i as int].0, list[i as int].1));
                }
                return false;
            },
        }
        i += 1;
    }
    proof {
        assert(list.take(entries.len() as int) =~= list);
    }
    true
}

/// Renders the transactions of a ledger for the user: for each account a
/// header line with its id, followed by one line per transaction with the
/// name of the pot and the amount in its currency, the withdrawals, as
/// negative amounts, before the deposits. The accounts come in the order in
/// which they entered the ledger.
///
/// Returns `None` where an amount cannot be written in the currency of its
/// pot.
pub fn transactions_summary(ledger: &Ledger<'_>) -> (summary: Option<String>)
    ensures
        match summary {
            Some(text) => spec_printable(ledger.spec_entries()) && text@ == spec_summary(
                ledger.spec_entries(),
            ),
            None => !spec_printable(ledger.spec_entries()),
        },
{
    let accounts = ledger.accounts();
    let ghost all = ledger.spec_entries();
    let mut summary = String::new();
    let mut i: usize = 0;
    proof {
        assert(all.take(0) =~= Seq::<(Seq<char>, TransactionsView)>::empty());
    }
    while i < accounts.len()
        invariant
            i <= accounts.len(),
            all == ledger.spec_entries(),
            all == spec_accounts(accounts@),
            spec_printable(all.take(i as int)),
            summary@ == spec_summary(all.take(i as int)),
        decreases accounts.len() - i,
    {
        let ghost before = summary@;
        let entries = accounts[i].1.entries();
        proof {
            assert(all[i as int] == (accounts[i as int].0@, accounts[i as int].1@));
            assert(all.take(i as int + 1).drop_last() =~= all.take(i as int));
            assert(all.take(i as int + 1).last() == all[i as int]);
        }
        summary.append(accounts[i].0.as_str());
        summary.append(":\n");
        if !write_lines(&mut summary, &entries) {
            proof {
                assert(!spec_all_formattable(all[i as int].1.signed()));
            }
            return None;
        }
        proof {
            assert(summary@ =~= before + spec_section(all[i as int]));
            assert forall|k: int| 0 <= k < i + 1 implies spec_all_formattable(
                (#[trigger] all.take(i as int + 1)[k]).1.signed(),
            ) by {
                if k < i {
                    assert(all.take(i as int)[k] == all.take(i as int + 1)[k]);
                }
            }
        }
        i += 1;
    }
    proof {
        assert(all.take(accounts.len() as int) =~= all);
    }
    Some(summary)
}

} // verus!
