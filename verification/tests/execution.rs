use monz0_lib::accounts::{find_current_account, AccountInfo, AccountType};
use monz0_lib::execution::{advance, plan, Phase, Plan, Step, Transfer};
use monz0_lib::ledger::transactions::Transactions;
use monz0_lib::logging::max_level;
use monz0_lib::operation::error::Error;
use monz0_lib::summary::{format_currency, transactions_summary};
use monz0_lib::{Ledger, Pot};

fn pot(id: &str, name: &str, currency: &str) -> Pot {
    Pot {
        id: id.to_string(),
        name: name.to_string(),
        currency: currency.to_string(),
        balance: 0,
        goal_amount: Some(0),
        current_account_id: "acc_of_".to_string() + id,
        deleted: false,
    }
}

fn calls(batch: &[Transfer]) -> Vec<(String, String, u64)> {
    batch
        .iter()
        .map(|call| (call.pot_id.to_string(), call.account_id.to_string(), call.amount))
        .collect()
}

fn call(pot: &str, account: &str, amount: u64) -> (String, String, u64) {
    (pot.to_string(), account.to_string(), amount)
}

fn account(id: &str, kind: AccountType) -> AccountInfo {
    AccountInfo { id: id.to_string(), description: "user_".to_string() + id, account_type: kind }
}

#[test]
fn withdrawals_are_issued_first() {
    let a = pot("a", "A", "GBP");
    let b = pot("b", "B", "GBP");
    let mut transactions = Transactions::default();
    transactions.push((&a, 100));
    transactions.push((&b, -30));
    transactions.push((&a, -40));
    let (phase, step) = advance::<String>(&transactions, Phase::Start, Ok(()));
    assert_eq!(phase, Phase::Withdrawals);
    match step {
        Step::Withdraw(batch) => {
            assert_eq!(calls(&batch), vec![call("b", "acc_of_b", 30), call("a", "acc_of_a", 40)])
        }
        _ => panic!("expected the withdrawals"),
    }
}

#[test]
fn deposits_are_issued_after_successful_withdrawals() {
    let a = pot("a", "A", "GBP");
    let b = pot("b", "B", "GBP");
    let mut transactions = Transactions::default();
    transactions.push((&a, 100));
    transactions.push((&b, -30));
    transactions.push((&b, 7));
    let (phase, step) = advance::<String>(&transactions, Phase::Withdrawals, Ok(()));
    assert_eq!(phase, Phase::Deposits);
    match step {
        Step::Deposit(batch) => {
            assert_eq!(calls(&batch), vec![call("a", "acc_of_a", 100), call("b", "acc_of_b", 7)])
        }
        _ => panic!("expected the deposits"),
    }
}

#[test]
fn failed_withdrawals_end_the_account_before_any_deposit() {
    let a = pot("a", "A", "GBP");
    let mut transactions = Transactions::default();
    transactions.push((&a, 100));
    transactions.push((&a, -30));
    let (phase, step) =
        advance(&transactions, Phase::Withdrawals, Err("insufficient funds".to_string()));
    assert_eq!(phase, Phase::Finished);
    match step {
        Step::Stop(result) => assert_eq!(result, Err("insufficient funds".to_string())),
        _ => panic!("expected the end"),
    }
}

#[test]
fn deposits_end_the_account_with_their_outcome() {
    let a = pot("a", "A", "GBP");
    let mut transactions = Transactions::default();
    transactions.push((&a, 100));
    let (phase, step) = advance::<String>(&transactions, Phase::Deposits, Ok(()));
    assert_eq!(phase, Phase::Finished);
    assert!(matches!(step, Step::Stop(Ok(()))));
    let (phase, step) = advance(&transactions, Phase::Deposits, Err(7));
    assert_eq!(phase, Phase::Finished);
    assert!(matches!(step, Step::Stop(Err(7))));
}

#[test]
fn nothing_is_issued_after_the_end() {
    let a = pot("a", "A", "GBP");
    let mut transactions = Transactions::default();
    transactions.push((&a, 100));
    transactions.push((&a, -100));
    let (phase, step) = advance::<u8>(&transactions, Phase::Finished, Ok(()));
    assert_eq!(phase, Phase::Finished);
    assert!(matches!(step, Step::Stop(Ok(()))));
    let (phase, step) = advance(&transactions, Phase::Finished, Err(1u8));
    assert_eq!(phase, Phase::Finished);
    assert!(matches!(step, Step::Stop(Err(1u8))));
}

#[test]
fn an_account_runs_through_both_batches() {
    let transactions = Transactions::default();
    let mut phase = Phase::Start;
    let mut issued = 0;
    let mut outcome: Result<(), String> = Ok(());
    let result = loop {
        let (next, step) = advance(&transactions, phase, outcome);
        phase = next;
        match step {
            Step::Withdraw(batch) | Step::Deposit(batch) => {
                assert!(batch.is_empty());
                issued += 1;
                outcome = Ok(());
            }
            Step::Stop(result) => break result,
        }
    };
    assert_eq!(issued, 2);
    assert_eq!(result, Ok(()));
}

#[test]
fn plan_for_a_ledger() {
    let a = pot("a", "A", "GBP");
    let empty = Ledger::default();
    let mut full = Ledger::default();
    full.push("acc_1", &a, 5);
    assert_eq!(plan(true, &empty), Plan::ShowOnly);
    assert_eq!(plan(true, &full), Plan::ShowOnly);
    assert_eq!(plan(false, &empty), Plan::Nothing);
    assert_eq!(plan(false, &full), Plan::Execute);
}

#[test]
fn current_account_by_id() {
    let accounts = vec![
        account("acc_1", AccountType::UkRetail),
        account("acc_2", AccountType::UkBusiness),
    ];
    let found = find_current_account(&accounts, Some("acc_2")).unwrap();
    assert_eq!(found.id, "acc_2");
    assert_eq!(found.description, "user_acc_2");
}

#[test]
fn current_account_defaults_to_the_first_retail_account() {
    let accounts = vec![
        account("acc_1", AccountType::UkRetailJoint),
        account("acc_2", AccountType::UkRetail),
        account("acc_3", AccountType::UkRetail),
    ];
    let found = find_current_account(&accounts, None).unwrap();
    assert_eq!(found.id, "acc_2");
}

#[test]
fn explicit_id_wins_over_the_default() {
    let accounts = vec![
        account("acc_1", AccountType::UkRetail),
        account("acc_2", AccountType::UkLoan),
    ];
    let found = find_current_account(&accounts, Some("acc_2")).unwrap();
    assert_eq!(found.id, "acc_2");
}

#[test]
fn unknown_current_account_is_not_found() {
    let accounts = vec![account("acc_1", AccountType::UkRetail)];
    let missing = find_current_account(&accounts, Some("acc_9")).err();
    assert_eq!(missing, Some(Error::NotFound("acc_9".to_string())));
    let none: Vec<AccountInfo> = vec![
        account("acc_1", AccountType::UkRetailJoint),
        account("acc_2", AccountType::UkBusiness),
        account("acc_3", AccountType::UkRewards),
        account("acc_4", AccountType::UkMonzoFlex),
        account("acc_5", AccountType::UkLoan),
        account("acc_6", AccountType::Other),
    ];
    let missing = find_current_account(&none, None).err();
    assert_eq!(
        missing,
        Some(Error::NotFound("unable to determine current account".to_string()))
    );
    assert!(find_current_account(&[], None).is_err());
}

#[test]
fn amounts_are_written_in_the_currency_of_the_pot() {
    let pounds = pot("a", "A", "GBP");
    let euros = pot("b", "B", "EUR");
    let yen = pot("c", "C", "JPY");
    assert_eq!(format_currency(&pounds, 5000), Some("£50.00".to_string()));
    assert_eq!(format_currency(&pounds, -10000), Some("-£100.00".to_string()));
    assert_eq!(format_currency(&pounds, 123456789), Some("£1,234,567.89".to_string()));
    assert_eq!(format_currency(&pounds, 0), Some("£0.00".to_string()));
    assert_eq!(format_currency(&euros, 5000), Some("€50,00".to_string()));
    assert_eq!(format_currency(&yen, 5000), Some("¥5,000".to_string()));
}

#[test]
fn unknown_currency_cannot_be_written() {
    let odd = pot("a", "A", "???");
    assert_eq!(format_currency(&odd, 5000), None);
    assert_eq!(format_currency(&pot("a", "A", "gbp"), 5000), None);
    assert_eq!(format_currency(&pot("a", "A", ""), 5000), None);
}

#[test]
fn amounts_beyond_the_formatter_cannot_be_written() {
    let pounds = pot("a", "A", "GBP");
    assert_eq!(format_currency(&pounds, i64::MAX as i128 + 1), None);
    assert_eq!(format_currency(&pounds, i64::MIN as i128 - 1), None);
    assert!(format_currency(&pounds, i64::MAX as i128).is_some());
    assert!(format_currency(&pounds, i64::MIN as i128).is_some());
}

#[test]
fn summary_lists_accounts_and_their_transactions() {
    let a = pot("a", "Bills", "GBP");
    let b = pot("b", "Savings", "GBP");
    let c = pot("c", "Ferien", "EUR");
    let mut ledger = Ledger::default();
    ledger.push("acc_1", &a, 5000);
    ledger.push("acc_2", &c, 1);
    ledger.push("acc_1", &b, -10000);
    assert_eq!(
        transactions_summary(&ledger),
        Some("acc_1:\nSavings: -£100.00\nBills: £50.00\nacc_2:\nFerien: €0,01\n".to_string())
    );
}

#[test]
fn summary_of_an_empty_ledger_is_empty() {
    assert_eq!(transactions_summary(&Ledger::default()), Some(String::new()));
    let a = pot("a", "Bills", "GBP");
    let mut ledger = Ledger::default();
    ledger.push("acc_1", &a, 0);
    assert_eq!(transactions_summary(&ledger), Some("acc_1:\n".to_string()));
}

#[test]
fn summary_fails_on_an_unknown_currency() {
    let a = pot("a", "Bills", "GBP");
    let b = pot("b", "Odd", "XYZZY");
    let mut ledger = Ledger::default();
    ledger.push("acc_1", &a, 5000);
    ledger.push("acc_1", &b, 5000);
    assert_eq!(transactions_summary(&ledger), None);
}

#[test]
fn verbosity_selects_the_log_level() {
    assert_eq!(max_level(0), "warn");
    assert_eq!(max_level(1), "info");
    assert_eq!(max_level(2), "debug");
    assert_eq!(max_level(3), "trace");
    assert_eq!(max_level(255), "trace");
}
