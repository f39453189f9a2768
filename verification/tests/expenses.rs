use expense_splitter::error::StdError;
use expense_splitter::expenses::{add_expense, try_add_expense};
use expense_splitter::host::{Env, MessageInfo};
use expense_splitter::queries::{get_debts, get_expense};
use expense_splitter::registry::create_group;
use expense_splitter::state::{Debt, Ledger};
use expense_splitter::ContractError;

fn env() -> Env {
    Env { time: 7 }
}

fn caller(name: &str) -> MessageInfo {
    MessageInfo { sender: name.to_string(), funds: vec![] }
}

fn addr(name: &str) -> Result<String, StdError> {
    Ok(name.to_string())
}

fn names(list: &[&str]) -> Vec<String> {
    list.iter().map(|s| s.to_string()).collect()
}

fn debt(debtor: &str, creditor: &str, amount: u128) -> Debt {
    Debt { debtor: debtor.to_string(), creditor: creditor.to_string(), amount }
}

fn flat() -> Ledger {
    let mut ledger = Ledger::new();
    let members = vec![addr("bob"), addr("carol")];
    create_group(&mut ledger, env(), caller("alice"), "Flat".to_string(), members).unwrap();
    ledger
}

fn post(ledger: &mut Ledger, payer: &str, amount: u128, split: &[&str]) -> Result<(), ContractError> {
    let split = split.iter().map(|m| addr(m)).collect();
    add_expense(ledger, env(), caller(payer), 1, "Dinner".to_string(), amount, split).map(|_| ())
}

#[test]
fn remainder_of_the_division_is_charged_to_nobody() {
    let mut ledger = flat();
    post(&mut ledger, "alice", 100, &[]).unwrap();
    // 100 / 3 = 33; two sharers owe: 66 in all, 34 stay with the payer
    assert_eq!(
        vec![debt("bob", "alice", 33), debt("carol", "alice", 33)],
        get_debts(&ledger, 1).unwrap().debts
    );
}

#[test]
fn share_of_zero_leaves_no_debt() {
    let mut ledger = flat();
    post(&mut ledger, "alice", 2, &[]).unwrap();
    assert_eq!(0, ledger.debts.len());
    assert!(get_debts(&ledger, 1).unwrap().debts.is_empty());
    assert_eq!(1, ledger.expense_count);
    assert!(ledger.is_valid());
}

#[test]
fn debts_add_up_over_expenses_in_both_directions() {
    let mut ledger = flat();
    post(&mut ledger, "alice", 150, &[]).unwrap();
    post(&mut ledger, "alice", 30, &[]).unwrap();
    post(&mut ledger, "bob", 90, &[]).unwrap();
    assert_eq!(
        vec![
            debt("alice", "bob", 30),
            debt("bob", "alice", 60),
            debt("carol", "alice", 60),
            debt("carol", "bob", 30),
        ],
        get_debts(&ledger, 1).unwrap().debts
    );
}

#[test]
fn payer_outside_the_split_is_owed_by_every_sharer() {
    let mut ledger = flat();
    post(&mut ledger, "alice", 100, &["bob", "carol"]).unwrap();
    assert_eq!(
        vec![debt("bob", "alice", 50), debt("carol", "alice", 50)],
        get_debts(&ledger, 1).unwrap().debts
    );
}

#[test]
fn split_keeps_first_mentions_in_order() {
    let mut ledger = flat();
    let res = add_expense(
        &mut ledger,
        env(),
        caller("alice"),
        1,
        "Dinner".to_string(),
        90,
        vec![addr("carol"), addr("alice"), addr("carol"), addr("alice")],
    )
    .unwrap();
    assert_eq!(("split_between".to_string(), "2".to_string()), res.attributes[5]);
    let expense = get_expense(&ledger, 1).unwrap().expense;
    assert_eq!(names(&["carol", "alice"]), expense.split_between);
    assert_eq!("alice", expense.paid_by);
    assert_eq!(90, expense.amount);
    assert_eq!(1, expense.group_id);
    assert_eq!(7, expense.timestamp);
    assert!(!expense.settled);
    assert_eq!(vec![debt("carol", "alice", 45)], get_debts(&ledger, 1).unwrap().debts);
    assert_eq!(Some(&vec![1u64]), ledger.group_expenses.get(&1));
}

#[test]
fn payer_alone_in_the_split_owes_nothing() {
    let mut ledger = flat();
    post(&mut ledger, "alice", 90, &["alice"]).unwrap();
    assert_eq!(0, ledger.debts.len());
}

#[test]
fn add_expense_rejects_in_the_order_of_its_checks() {
    let mut ledger = flat();
    let blank = ContractError::InvalidExpenseDescription {
        reason: "Expense description cannot be empty".to_string(),
    };
    let long = ContractError::InvalidExpenseDescription {
        reason: "Description exceeds maximum length of 128".to_string(),
    };
    let zero =
        ContractError::InvalidAmount { reason: "Amount must be greater than zero".to_string() };

    let r = add_expense(&mut ledger, env(), caller("zed"), 9, "  ".to_string(), 0, vec![]);
    assert_eq!(blank, r.unwrap_err());
    let r = add_expense(&mut ledger, env(), caller("zed"), 9, "x".repeat(129), 0, vec![]);
    assert_eq!(long, r.unwrap_err());
    let r = add_expense(&mut ledger, env(), caller("zed"), 9, "x".repeat(128), 0, vec![]);
    assert_eq!(zero, r.unwrap_err());
    let r = add_expense(&mut ledger, env(), caller("zed"), 9, "Dinner".to_string(), 1, vec![]);
    assert_eq!(ContractError::GroupNotFound {}, r.unwrap_err());
    let r = add_expense(&mut ledger, env(), caller("zed"), 1, "Dinner".to_string(), 1, vec![]);
    assert_eq!(ContractError::UserNotInGroup {}, r.unwrap_err());
    let split = vec![addr("bob"), addr("zed"), Err(StdError::GenericErr { msg: "bad".to_string() })];
    let r = add_expense(&mut ledger, env(), caller("alice"), 1, "Dinner".to_string(), 1, split);
    assert_eq!(ContractError::UserNotInGroup {}, r.unwrap_err());
    let split = vec![addr("bob"), Err(StdError::GenericErr { msg: "bad".to_string() }), addr("zed")];
    let r = add_expense(&mut ledger, env(), caller("alice"), 1, "Dinner".to_string(), 1, split);
    assert_eq!(
        ContractError::Std(StdError::GenericErr { msg: "bad".to_string() }),
        r.unwrap_err()
    );

    assert_eq!(0, ledger.expense_count);
    assert_eq!(0, ledger.expenses.len());
    assert_eq!(0, ledger.debts.len());
    assert_eq!(Some(&Vec::<u64>::new()), ledger.group_expenses.get(&1));
}

#[test]
fn description_of_128_bytes_is_taken() {
    let mut ledger = flat();
    add_expense(&mut ledger, env(), caller("alice"), 1, "x".repeat(128), 3, vec![]).unwrap();
    assert_eq!(1, ledger.expense_count);
}

#[test]
fn expense_identifiers_count_up_across_groups() {
    let mut ledger = flat();
    create_group(&mut ledger, env(), caller("bob"), "Trip".to_string(), vec![]).unwrap();
    post(&mut ledger, "alice", 30, &[]).unwrap();
    add_expense(&mut ledger, env(), caller("bob"), 2, "Fuel".to_string(), 5, vec![]).unwrap();
    post(&mut ledger, "carol", 30, &[]).unwrap();
    assert_eq!(3, ledger.expense_count);
    assert_eq!(Some(&vec![1u64, 3]), ledger.group_expenses.get(&1));
    assert_eq!(Some(&vec![2u64]), ledger.group_expenses.get(&2));
    assert_eq!(2, get_expense(&ledger, 2).unwrap().expense.group_id);
}

#[test]
fn expense_that_would_overflow_a_debt_is_not_posted() {
    let mut ledger = Ledger::new();
    create_group(&mut ledger, env(), caller("alice"), "Flat".to_string(), vec![addr("bob")])
        .unwrap();
    let all = vec![addr("bob")];
    add_expense(&mut ledger, env(), caller("alice"), 1, "Gold".to_string(), u128::MAX, all)
        .unwrap();
    assert_eq!(u128::MAX, ledger.debt(1, &"bob".to_string(), &"alice".to_string()));
    let r = try_add_expense(
        &mut ledger,
        env(),
        caller("alice"),
        1,
        "Silver".to_string(),
        1,
        vec![addr("bob")],
    );
    assert_eq!(None, r);
    assert_eq!(1, ledger.expense_count);
    assert_eq!(1, ledger.expenses.len());
    assert_eq!(u128::MAX, ledger.debt(1, &"bob".to_string(), &"alice".to_string()));
    // a share of zero raises nothing and so fits
    let r = try_add_expense(&mut ledger, env(), caller("alice"), 1, "Gum".to_string(), 1, vec![]);
    assert!(matches!(r, Some(Ok(_))));
    assert_eq!(2, ledger.expense_count);
}

#[test]
fn expense_without_a_further_identifier_is_not_posted() {
    let mut ledger = flat();
    ledger.expense_count = u64::MAX;
    let r = try_add_expense(&mut ledger, env(), caller("alice"), 1, "Gum".to_string(), 9, vec![]);
    assert_eq!(None, r);
    assert_eq!(0, ledger.debts.len());
    let r = try_add_expense(&mut ledger, env(), caller("alice"), 1, "Gum".to_string(), 0, vec![]);
    assert_eq!(
        Some(Err(ContractError::InvalidAmount {
            reason: "Amount must be greater than zero".to_string()
        })),
        r
    );
}
