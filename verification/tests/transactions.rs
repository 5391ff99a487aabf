use monz0_lib::ledger::transactions::Transactions;
use monz0_lib::ledger::Ledger;
use monz0_lib::Pot;

fn dummy_pot() -> Pot {
    Pot {
        id: "pot_1234".to_string(),
        name: "Savings".to_string(),
        currency: "GBP".to_string(),
        balance: 10,
        goal_amount: Some(1000000),
        current_account_id: "acc_1234".to_string(),
        deleted: false,
    }
}

fn other_pot() -> Pot {
    Pot {
        id: "pot_5678".to_string(),
        name: "Holiday".to_string(),
        currency: "GBP".to_string(),
        balance: 0,
        goal_amount: Some(50000),
        current_account_id: "acc_5678".to_string(),
        deleted: false,
    }
}

#[test]
fn push() {
    let mut transactions = Transactions::default();
    let pot = dummy_pot();

    transactions.push((&pot, 100));
    assert!(transactions.deposits.len() == 1);

    transactions.push((&pot, -100));
    assert!(transactions.withdrawals.len() == 1);

    transactions.push((&pot, 0));
    assert!(transactions.len() == 2);
}

#[test]
fn push_stores_magnitudes() {
    let mut transactions = Transactions::default();
    let pot = dummy_pot();
    transactions.push((&pot, -250));
    transactions.push((&pot, 75));
    assert_eq!(transactions.withdrawals[0].1, 250);
    assert_eq!(transactions.withdrawals[0].0.id, "pot_1234");
    assert_eq!(transactions.deposits[0].1, 75);
}

#[test]
fn push_takes_the_widest_amounts() {
    let mut transactions = Transactions::default();
    let pot = dummy_pot();
    transactions.push((&pot, -(u64::MAX as i128)));
    transactions.push((&pot, u64::MAX as i128));
    assert_eq!(transactions.withdrawals[0].1, u64::MAX);
    assert_eq!(transactions.deposits[0].1, u64::MAX);
    let entries = transactions.entries();
    assert_eq!(entries[0].1, -(u64::MAX as i128));
    assert_eq!(entries[1].1, u64::MAX as i128);
}

#[test]
fn new_transactions_are_empty() {
    let transactions = Transactions::default();
    assert!(transactions.is_empty());
    assert_eq!(transactions.len(), 0);
    assert!(transactions.entries().is_empty());
}

#[test]
fn zero_amount_leaves_transactions_empty() {
    let mut transactions = Transactions::default();
    let pot = dummy_pot();
    transactions.push((&pot, 0));
    assert!(transactions.is_empty());
}

#[test]
fn entries_list_withdrawals_before_deposits() {
    let mut transactions = Transactions::default();
    let a = dummy_pot();
    let b = other_pot();
    transactions.push((&a, 100));
    transactions.push((&b, -30));
    transactions.push((&b, 20));
    transactions.push((&a, -40));
    let entries: Vec<(String, i128)> =
        transactions.entries().iter().map(|(pot, amount)| (pot.id.clone(), *amount)).collect();
    assert_eq!(
        entries,
        vec![
            ("pot_5678".to_string(), -30),
            ("pot_1234".to_string(), -40),
            ("pot_1234".to_string(), 100),
            ("pot_5678".to_string(), 20),
        ]
    );
}

#[test]
fn new_ledger_is_empty() {
    let ledger = Ledger::default();
    assert!(ledger.is_empty());
    assert!(ledger.accounts().is_empty());
}

#[test]
fn ledger_groups_by_account() {
    let a = dummy_pot();
    let b = other_pot();
    let mut ledger = Ledger::default();
    ledger.push("acc_1", &a, 100);
    ledger.push("acc_2", &b, -5);
    ledger.push("acc_1", &b, -7);
    assert!(!ledger.is_empty());
    let accounts = ledger.accounts();
    assert_eq!(accounts.len(), 2);
    assert_eq!(accounts[0].0, "acc_1");
    assert_eq!(accounts[0].1.deposits.len(), 1);
    assert_eq!(accounts[0].1.withdrawals.len(), 1);
    assert_eq!(accounts[0].1.withdrawals[0].1, 7);
    assert_eq!(accounts[1].0, "acc_2");
    assert_eq!(accounts[1].1.withdrawals[0].1, 5);
    assert!(accounts[1].1.deposits.is_empty());
}

#[test]
fn ledger_with_only_zero_amounts_is_empty() {
    let a = dummy_pot();
    let mut ledger = Ledger::default();
    ledger.push("acc_1", &a, 0);
    ledger.push("acc_2", &a, 0);
    assert_eq!(ledger.accounts().len(), 2);
    assert!(ledger.is_empty());
    ledger.push("acc_2", &a, 1);
    assert!(!ledger.is_empty());
}

#[test]
fn ledger_from_transactions_uses_the_account_of_each_pot() {
    let a = dummy_pot();
    let b = other_pot();
    let ledger = Ledger::from_transactions(&[(&a, -10), (&b, 20), (&a, 30)]);
    let accounts = ledger.accounts();
    assert_eq!(accounts.len(), 2);
    assert_eq!(accounts[0].0, "acc_1234");
    assert_eq!(accounts[0].1.withdrawals[0].1, 10);
    assert_eq!(accounts[0].1.deposits[0].1, 30);
    assert_eq!(accounts[1].0, "acc_5678");
    assert_eq!(accounts[1].1.deposits[0].1, 20);
}

#[test]
fn default_pot_is_blank() {
    let pot = Pot::default();
    assert_eq!(pot.id, "");
    assert_eq!(pot.name, "");
    assert_eq!(pot.currency, "");
    assert_eq!(pot.balance, 0);
    assert_eq!(pot.goal_amount, None);
    assert_eq!(pot.current_account_id, "");
    assert!(!pot.deleted);
    assert!(Ledger::new().is_empty());
}
