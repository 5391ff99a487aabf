use monz0_lib::names::{normalise, same_chars};
use monz0_lib::operation::error::Error;
use monz0_lib::operation::resolver::sort_and_filter_pots;
use monz0_lib::pot::find_pot_by_name;
use monz0_lib::Pot;

fn pot(id: &str, name: &str, account: &str, goal: Option<i64>, deleted: bool) -> Pot {
    Pot {
        id: id.to_string(),
        name: name.to_string(),
        currency: "GBP".to_string(),
        balance: 0,
        goal_amount: goal,
        current_account_id: account.to_string(),
        deleted,
    }
}

fn live(id: &str, name: &str) -> Pot {
    pot(id, name, "acc_1", Some(1000), false)
}

fn names(list: &[&str]) -> Vec<String> {
    list.iter().map(|name| name.to_string()).collect()
}

fn ids(found: Result<Vec<&Pot>, Error>) -> Result<Vec<String>, Error> {
    found.map(|pots| pots.iter().map(|pot| pot.id.clone()).collect())
}

fn chars(text: &str) -> Vec<char> {
    text.chars().collect()
}

#[test]
fn nothing_configured_resolves_to_nothing() {
    let found = sort_and_filter_pots("ACCOUNT_ID", &[], &[]);
    assert_eq!(ids(found), Ok(vec![]));
}

#[test]
fn pots_come_in_the_order_of_the_names() {
    let pots = vec![live("1", "bills"), live("2", "savings"), live("3", "holiday")];
    let found = sort_and_filter_pots("acc_1", &pots, &names(&["holiday", "bills", "savings"]));
    assert_eq!(ids(found), Ok(vec!["3".to_string(), "1".to_string(), "2".to_string()]));
}

#[test]
fn names_match_in_normal_form() {
    let pots = vec![live("1", "  \u{1F3E0} Bills "), live("2", "STUDENT loan\u{1F393}")];
    let found = sort_and_filter_pots("acc_1", &pots, &names(&["student LOAN", "\tbills\n"]));
    assert_eq!(ids(found), Ok(vec!["2".to_string(), "1".to_string()]));
}

#[test]
fn unconfigured_pots_are_left_out() {
    let pots = vec![live("1", "bills"), live("2", "savings")];
    let found = sort_and_filter_pots("acc_1", &pots, &names(&["savings"]));
    assert_eq!(ids(found), Ok(vec!["2".to_string()]));
}

#[test]
fn missing_name_is_not_found() {
    let pots = vec![live("1", "bills")];
    let found = sort_and_filter_pots("acc_1", &pots, &names(&["bills", "lottery"]));
    assert_eq!(ids(found), Err(Error::NotFound("lottery".to_string())));
}

#[test]
fn repeated_name_with_one_pot_fails_the_second_time() {
    let pots = vec![live("1", "bills"), live("2", "savings")];
    let found = sort_and_filter_pots("acc_1", &pots, &names(&["bills", "savings", " BILLS"]));
    assert_eq!(ids(found), Err(Error::NotFound(" BILLS".to_string())));
}

#[test]
fn repeated_name_takes_the_next_pot_of_that_name() {
    let pots = vec![live("1", "bills"), live("2", "Bills"), live("3", "bills")];
    let found = sort_and_filter_pots("acc_1", &pots, &names(&["bills", "bills"]));
    assert_eq!(ids(found), Ok(vec!["1".to_string(), "2".to_string()]));
}

#[test]
fn deleted_pots_are_excluded() {
    let pots = vec![pot("1", "bills", "acc_1", Some(10), true), live("2", "bills")];
    let found = sort_and_filter_pots("acc_1", &pots, &names(&["bills"]));
    assert_eq!(ids(found), Ok(vec!["2".to_string()]));
    let only_deleted = vec![pot("1", "bills", "acc_1", Some(10), true)];
    let found = sort_and_filter_pots("acc_1", &only_deleted, &names(&["bills"]));
    assert_eq!(ids(found), Err(Error::NotFound("bills".to_string())));
}

#[test]
fn pots_of_other_accounts_are_excluded() {
    let pots = vec![pot("1", "bills", "acc_2", Some(10), false), live("2", "bills")];
    let found = sort_and_filter_pots("acc_1", &pots, &names(&["bills"]));
    assert_eq!(ids(found), Ok(vec!["2".to_string()]));
    let found = sort_and_filter_pots("acc_3", &pots, &names(&["bills"]));
    assert_eq!(ids(found), Err(Error::NotFound("bills".to_string())));
}

#[test]
fn pot_without_goal_fails_even_if_not_configured() {
    let pots = vec![live("1", "bills"), pot("2", "Rainy Day", "acc_1", None, false)];
    let found = sort_and_filter_pots("acc_1", &pots, &names(&["bills"]));
    assert_eq!(ids(found), Err(Error::NoPotGoal("Rainy Day".to_string())));
}

#[test]
fn first_pot_without_goal_is_named() {
    let pots = vec![
        pot("1", "one", "acc_1", None, false),
        pot("2", "two", "acc_1", None, false),
    ];
    let found = sort_and_filter_pots("acc_1", &pots, &names(&["missing"]));
    assert_eq!(ids(found), Err(Error::NoPotGoal("one".to_string())));
}

#[test]
fn goal_is_not_asked_of_excluded_pots() {
    let pots = vec![
        pot("1", "gone", "acc_1", None, true),
        pot("2", "theirs", "acc_2", None, false),
        live("3", "bills"),
    ];
    let found = sort_and_filter_pots("acc_1", &pots, &names(&["bills"]));
    assert_eq!(ids(found), Ok(vec!["3".to_string()]));
}

#[test]
fn normalise_drops_non_ascii_lowers_and_trims() {
    assert_eq!(normalise("  Student Loan \u{1F393}\t"), chars("student loan"));
    assert_eq!(normalise("BILLS"), chars("bills"));
    assert_eq!(normalise("caf\u{e9} Fund"), chars("caf fund"));
    assert_eq!(normalise(" \u{b}\u{c}\r\n x \u{b}"), chars("x"));
    assert_eq!(normalise("a  b"), chars("a  b"));
    assert_eq!(normalise("@[`{Z"), chars("@[`{z"));
}

#[test]
fn normalise_of_blank_names_is_empty() {
    assert_eq!(normalise(""), chars(""));
    assert_eq!(normalise(" \t \n"), chars(""));
    assert_eq!(normalise("\u{1F600}\u{1F600}"), chars(""));
    assert_eq!(normalise(" \u{a0} "), chars(""));
}

#[test]
fn normalise_agrees_with_the_standard_library() {
    let samples = [
        "Bills",
        "  lottery  ",
        "\u{1F3E0} House \u{1F3E0}",
        "\u{1c}x\u{1f}",
        "\u{85}y\u{2003}",
        "MiXeD \u{b} CaSe",
    ];
    for sample in samples {
        let lowered: String =
            sample.chars().filter(char::is_ascii).map(|c| c.to_ascii_lowercase()).collect();
        assert_eq!(normalise(sample), chars(lowered.trim()));
    }
}

#[test]
fn same_chars_compares_whole_sequences() {
    assert!(same_chars(&chars("abc"), &chars("abc")));
    assert!(same_chars(&chars(""), &chars("")));
    assert!(!same_chars(&chars("abc"), &chars("abd")));
    assert!(!same_chars(&chars("abc"), &chars("ab")));
}

#[test]
fn find_pot_by_name_is_exact() {
    let pots = vec![live("1", "Bills"), live("2", "bills"), live("3", "bills")];
    assert_eq!(find_pot_by_name(&pots, "bills").map(|pot| pot.id.clone()), Some("2".to_string()));
    assert_eq!(find_pot_by_name(&pots, "Bills").map(|pot| pot.id.clone()), Some("1".to_string()));
    assert!(find_pot_by_name(&pots, "BILLS").is_none());
    assert!(find_pot_by_name(&[], "bills").is_none());
}
