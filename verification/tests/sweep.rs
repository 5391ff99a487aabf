use monz0_lib::accounts::{AccountInfo, AccountType};
use monz0_lib::operation::error::Error;
use monz0_lib::operation::sweep::Sweep;
use monz0_lib::operation::{Op, Operation};
use monz0_lib::state::{Account, State};
use monz0_lib::{Ledger, Pot};

fn pot(id: &str, name: &str, balance: i64, goal: Option<i64>) -> Pot {
    Pot {
        id: id.to_string(),
        name: name.to_string(),
        currency: "GBP".to_string(),
        balance,
        goal_amount: goal,
        current_account_id: "acc_1".to_string(),
        deleted: false,
    }
}

fn state_of(balance: i64, pots: Vec<Pot>) -> State {
    let mut state = State::default();
    state.insert("acc_1".to_string(), Account { balance, pots });
    state
}

fn sweep_of(goal: i64, names: &[&str]) -> Sweep {
    let mut sweep = Sweep::new("acc_1".to_string(), goal);
    for name in names {
        sweep = sweep.with_pot(name.to_string());
    }
    sweep
}

fn transfers(list: &[(&Pot, u64)]) -> Vec<(String, u64)> {
    list.iter().map(|(pot, amount)| (pot.id.clone(), *amount)).collect()
}

fn message_of(computed: Result<Ledger, Error>) -> Option<Error> {
    computed.err()
}

#[test]
fn sweep_builder_keeps_what_it_is_given() {
    let sweep = Sweep::new("acc_1".to_string(), 100)
        .with_pot("bills".to_string())
        .with_pot("savings".to_string());
    assert_eq!(sweep.account_id(), "acc_1");
    assert_eq!(sweep.account_goal(), 100);
    assert_eq!(sweep.pots(), &vec!["bills".to_string(), "savings".to_string()]);
    assert!(Sweep::new(String::new(), 0).pots().is_empty());
}

#[test]
fn sweep_scenario_surplus_pot_feeds_deficit_pot() {
    let state = state_of(
        100000,
        vec![pot("a", "A", 5000, Some(10000)), pot("b", "B", 20000, Some(10000))],
    );
    let sweep = sweep_of(0, &["a", "b"]);
    let ledger = sweep.transactions(&state).unwrap();
    let accounts = ledger.accounts();
    assert_eq!(accounts.len(), 1);
    assert_eq!(accounts[0].0, "acc_1");
    assert_eq!(transfers(&accounts[0].1.withdrawals), vec![("b".to_string(), 10000)]);
    assert_eq!(transfers(&accounts[0].1.deposits), vec![("a".to_string(), 5000)]);
    assert!(!ledger.is_empty());
}

#[test]
fn sweep_scenario_single_deficit_pot() {
    let state = state_of(12000, vec![pot("a", "A", 5000, Some(10000))]);
    let sweep = sweep_of(0, &["a"]);
    let ledger = sweep.transactions(&state).unwrap();
    let accounts = ledger.accounts();
    assert!(accounts[0].1.withdrawals.is_empty());
    assert_eq!(transfers(&accounts[0].1.deposits), vec![("a".to_string(), 5000)]);
}

#[test]
fn sweep_scenario_pot_without_goal() {
    let state = state_of(100000, vec![pot("a", "Holiday", 5000, None)]);
    let sweep = sweep_of(0, &["holiday"]);
    let computed = sweep.transactions(&state);
    assert_eq!(message_of(computed), Some(Error::NoPotGoal("Holiday".to_string())));
}

#[test]
fn account_goal_is_given_in_major_units() {
    // spare cash = 100000 - 900 * 100 = 10000
    let state = state_of(100000, vec![pot("a", "A", 0, Some(50000))]);
    let sweep = sweep_of(900, &["a"]);
    let ledger = sweep.transactions(&state).unwrap();
    assert_eq!(transfers(&ledger.accounts()[0].1.deposits), vec![("a".to_string(), 10000)]);
}

#[test]
fn unknown_account_is_not_found() {
    let state = state_of(100000, vec![pot("a", "A", 0, Some(50000))]);
    let sweep = Sweep::new("acc_9".to_string(), 0).with_pot("a".to_string());
    assert_eq!(message_of(sweep.transactions(&state)), Some(Error::NotFound("acc_9".to_string())));
}

#[test]
fn unknown_pot_is_not_found() {
    let state = state_of(100000, vec![pot("a", "A", 0, Some(50000))]);
    let sweep = sweep_of(0, &["a", "b"]);
    let computed = sweep.transactions(&state);
    assert_eq!(message_of(computed), Some(Error::NotFound("b".to_string())));
}

#[test]
fn pots_on_goal_give_an_empty_ledger() {
    let state = state_of(
        100000,
        vec![pot("a", "A", 500, Some(500)), pot("b", "B", 0, Some(0))],
    );
    let sweep = sweep_of(0, &["a", "b"]);
    let ledger = sweep.transactions(&state).unwrap();
    assert!(ledger.is_empty());
    assert!(ledger.accounts().is_empty());
}

#[test]
fn only_configured_pots_are_swept() {
    let state = state_of(
        100000,
        vec![pot("a", "A", 900, Some(500)), pot("b", "B", 0, Some(700))],
    );
    let sweep = sweep_of(0, &["b"]);
    let ledger = sweep.transactions(&state).unwrap();
    let accounts = ledger.accounts();
    assert!(accounts[0].1.withdrawals.is_empty());
    assert_eq!(transfers(&accounts[0].1.deposits), vec![("b".to_string(), 700)]);
}

#[test]
fn extreme_goal_and_balance_do_not_overflow() {
    let state = state_of(i64::MAX, vec![pot("a", "A", i64::MIN, Some(i64::MAX))]);
    let sweep = sweep_of(i64::MIN, &["a"]);
    let ledger = sweep.transactions(&state).unwrap();
    assert_eq!(transfers(&ledger.accounts()[0].1.deposits), vec![("a".to_string(), u64::MAX)]);
    let sweep = sweep_of(i64::MAX, &["a"]);
    let ledger = sweep.transactions(&state).unwrap();
    assert!(ledger.is_empty());
}

#[test]
fn operation_names() {
    assert_eq!(Sweep::NAME, "Sweep");
    let op = Op::Sweep(sweep_of(0, &[]));
    assert_eq!(op.name(), "Sweep");
    assert_eq!(op.name(), Sweep::NAME);
}

#[test]
fn op_computes_what_its_operation_computes() {
    let state = state_of(12000, vec![pot("a", "A", 5000, Some(10000))]);
    let op = Op::Sweep(sweep_of(0, &["a"]));
    let ledger = op.transactions(&state).unwrap();
    assert_eq!(transfers(&ledger.accounts()[0].1.deposits), vec![("a".to_string(), 5000)]);
    let failing = Op::Sweep(sweep_of(0, &["zzz"]));
    assert_eq!(message_of(failing.transactions(&state)), Some(Error::NotFound("zzz".to_string())));
}

#[test]
fn errors_compare_by_kind_and_text() {
    assert_eq!(Error::NotFound("a".to_string()), Error::NotFound("a".to_string()));
    assert_ne!(Error::NotFound("a".to_string()), Error::NotFound("b".to_string()));
    assert_ne!(Error::NotFound("a".to_string()), Error::NoPotGoal("a".to_string()));
    assert_eq!(Error::NoPotGoal("a".to_string()), Error::NoPotGoal("a".to_string()));
}

#[test]
fn errors_render_as_text() {
    assert_eq!(Error::NotFound("lottery".to_string()).message(), "not found: lottery");
    assert_eq!(
        Error::NoPotGoal("Holiday".to_string()).message(),
        "Pot 'Holiday' has no 'goal amount' set"
    );
}

#[test]
fn state_keeps_one_account_per_id() {
    let mut state = State::default();
    assert!(state.get("acc_1").is_none());
    assert!(state.insert("acc_1".to_string(), Account { balance: 1, pots: vec![] }).is_none());
    assert!(state.insert("acc_2".to_string(), Account { balance: 2, pots: vec![] }).is_none());
    let replaced = state.insert("acc_1".to_string(), Account { balance: 3, pots: vec![] });
    assert_eq!(replaced.map(|account| account.balance), Some(1));
    assert_eq!(state.get("acc_1").map(|account| account.balance), Some(3));
    assert_eq!(state.get("acc_2").map(|account| account.balance), Some(2));
    assert!(state.get("acc_3").is_none());
}

fn account(id: &str, kind: AccountType) -> AccountInfo {
    AccountInfo { id: id.to_string(), description: String::new(), account_type: kind }
}

#[test]
fn sweep_defaults_to_the_retail_account() {
    let accounts = vec![
        account("acc_0", AccountType::UkBusiness),
        account("acc_1", AccountType::UkRetail),
    ];
    let sweep = Sweep::for_account(&accounts, None, 5, vec!["a".to_string()]).unwrap();
    assert_eq!(sweep.account_id(), "acc_1");
    assert_eq!(sweep.account_goal(), 5);
    assert_eq!(sweep.pots(), &vec!["a".to_string()]);
    let state = state_of(12000, vec![pot("a", "A", 5000, Some(10000))]);
    let ledger = sweep.transactions(&state).unwrap();
    assert_eq!(transfers(&ledger.accounts()[0].1.deposits), vec![("a".to_string(), 5000)]);
}

#[test]
fn sweep_takes_the_account_that_is_named() {
    let accounts = vec![
        account("acc_0", AccountType::UkBusiness),
        account("acc_1", AccountType::UkRetail),
    ];
    let sweep = Sweep::for_account(&accounts, Some("acc_0"), 0, vec![]).unwrap();
    assert_eq!(sweep.account_id(), "acc_0");
    let missing = Sweep::for_account(&accounts, Some("acc_7"), 0, vec![]).err();
    assert_eq!(missing, Some(Error::NotFound("acc_7".to_string())));
    let none = Sweep::for_account(&accounts[..1], None, 0, vec![]).err();
    assert_eq!(none, Some(Error::NotFound("unable to determine current account".to_string())));
}
