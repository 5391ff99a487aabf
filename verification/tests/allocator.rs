use monz0_lib::operation::allocator;
use monz0_lib::operation::allocator::calculate_transactions;
use monz0_lib::Pot;

fn pot(id: &str, balance: i64, goal: i64) -> Pot {
    Pot {
        id: id.to_string(),
        name: id.to_uppercase(),
        currency: "GBP".to_string(),
        balance,
        goal_amount: Some(goal),
        current_account_id: "acc_1".to_string(),
        deleted: false,
    }
}

fn amounts(list: &[(&Pot, i128)]) -> Vec<(String, i128)> {
    list.iter().map(|(pot, amount)| (pot.id.clone(), *amount)).collect()
}

fn entry(id: &str, amount: i128) -> (String, i128) {
    (id.to_string(), amount)
}

#[test]
fn scenario_surplus_is_withdrawn_and_deficit_is_filled() {
    let a = pot("a", 5000, 10000);
    let b = pot("b", 20000, 10000);
    let transactions = calculate_transactions(100000, 0, &[&a, &b]);
    assert_eq!(amounts(&transactions), vec![entry("b", -10000), entry("a", 5000)]);
}

#[test]
fn scenario_deposit_is_capped_by_need() {
    let a = pot("a", 5000, 10000);
    let transactions = calculate_transactions(12000, 0, &[&a]);
    assert_eq!(amounts(&transactions), vec![entry("a", 5000)]);
}

#[test]
fn withdrawals_are_exactly_the_pots_above_goal() {
    let a = pot("a", 700, 500);
    let b = pot("b", 100, 500);
    let c = pot("c", 500, 500);
    let d = pot("d", 501, 500);
    let (taken, remainder) = allocator::withdrawals(&[&a, &b, &c, &d]);
    assert_eq!(amounts(&taken), vec![entry("a", -200), entry("d", -1)]);
    assert_eq!(amounts(&remainder), vec![entry("b", 400)]);
}

#[test]
fn spare_cash_counts_goal_and_withdrawals() {
    // spare cash = 10000 - 4000 - 1000 = 5000
    let a = pot("a", 2000, 1000);
    let b = pot("b", 0, 6000);
    let transactions = calculate_transactions(10000, 4000, &[&a, &b]);
    assert_eq!(amounts(&transactions), vec![entry("a", -1000), entry("b", 5000)]);
}

#[test]
fn deposits_stop_when_spare_cash_runs_out() {
    let a = pot("a", 0, 300);
    let b = pot("b", 0, 300);
    let c = pot("c", 0, 300);
    let transactions = calculate_transactions(500, 0, &[&a, &b, &c]);
    assert_eq!(amounts(&transactions), vec![entry("a", 300), entry("b", 200)]);
}

#[test]
fn deposits_follow_the_order_of_the_pots() {
    let a = pot("a", 0, 300);
    let b = pot("b", 0, 300);
    let transactions = calculate_transactions(400, 0, &[&b, &a]);
    assert_eq!(amounts(&transactions), vec![entry("b", 300), entry("a", 100)]);
}

#[test]
fn deposits_stay_below_spare_cash_when_pots_need_less() {
    let a = pot("a", 0, 300);
    let b = pot("b", 0, 200);
    let transactions = calculate_transactions(100000, 0, &[&a, &b]);
    assert_eq!(amounts(&transactions), vec![entry("a", 300), entry("b", 200)]);
}

#[test]
fn negative_spare_cash_gives_no_deposits() {
    // the withdrawals alone exceed balance minus goal: 1000 - 0 - 5000 < 0
    let a = pot("a", 6000, 1000);
    let b = pot("b", 0, 500);
    let transactions = calculate_transactions(1000, 0, &[&a, &b]);
    assert_eq!(amounts(&transactions), vec![entry("a", -5000)]);
}

#[test]
fn zero_spare_cash_gives_no_deposits() {
    let a = pot("a", 0, 500);
    let transactions = calculate_transactions(700, 700, &[&a]);
    assert!(transactions.is_empty());
}

#[test]
fn account_below_goal_gives_no_deposits() {
    let a = pot("a", 0, 500);
    let transactions = calculate_transactions(100, 700, &[&a]);
    assert!(transactions.is_empty());
}

#[test]
fn pots_on_goal_get_no_entry() {
    let a = pot("a", 500, 500);
    let b = pot("b", 0, 0);
    let transactions = calculate_transactions(100000, 0, &[&a, &b]);
    assert!(transactions.is_empty());
}

#[test]
fn no_pots_give_no_transactions() {
    let transactions = calculate_transactions(100000, 0, &[]);
    assert!(transactions.is_empty());
}

#[test]
fn withdrawals_are_due_whatever_the_balance() {
    let a = pot("a", 900, 100);
    let transactions = calculate_transactions(-50000, 0, &[&a]);
    assert_eq!(amounts(&transactions), vec![entry("a", -800)]);
}

#[test]
fn extreme_amounts_do_not_overflow() {
    let a = pot("a", i64::MAX, i64::MIN);
    let b = pot("b", i64::MIN, i64::MAX);
    let transactions = calculate_transactions(i64::MAX, i128::MIN, &[&a, &b]);
    assert_eq!(
        amounts(&transactions),
        vec![entry("a", -(u64::MAX as i128)), entry("b", u64::MAX as i128)]
    );
    let none = calculate_transactions(i64::MIN, i128::MAX, &[&b]);
    assert!(none.is_empty());
}

#[test]
fn diff_is_goal_less_balance() {
    assert_eq!(pot("a", 5000, 10000).diff_unchecked(), 5000);
    assert_eq!(pot("a", 20000, 10000).diff_unchecked(), -10000);
    assert_eq!(pot("a", i64::MIN, i64::MAX).diff_unchecked(), u64::MAX as i128);
}

#[test]
fn withdrawals() {
    let savings = pot("savings", 120, 100);
    let holiday = pot("holiday", 80, 100);

    let (withdrawals, remainder) = allocator::withdrawals(&[&savings, &holiday]);

    assert_eq!(amounts(&withdrawals), vec![entry("savings", -20)]);
    assert_eq!(amounts(&remainder), vec![entry("holiday", 20)]);
}
