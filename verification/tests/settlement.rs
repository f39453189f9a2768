use expense_splitter::error::StdError;
use expense_splitter::expenses::add_expense;
use expense_splitter::host::{BankMsg, Coin, Env, MessageInfo};
use expense_splitter::queries::get_debts;
use expense_splitter::registry::create_group;
use expense_splitter::settlement::{settle_all_debts, settle_debt, try_settle_all_debts};
use expense_splitter::state::{Debt, DebtKey, Ledger};
use expense_splitter::ContractError;

fn env() -> Env {
    Env { time: 7 }
}

fn coin(amount: u128, denom: &str) -> Coin {
    Coin { denom: denom.to_string(), amount }
}

fn caller(name: &str) -> MessageInfo {
    MessageInfo { sender: name.to_string(), funds: vec![] }
}

fn paying(name: &str, amount: u128) -> MessageInfo {
    MessageInfo { sender: name.to_string(), funds: vec![coin(amount, "uxion")] }
}

fn addr(name: &str) -> Result<String, StdError> {
    Ok(name.to_string())
}

fn debt(debtor: &str, creditor: &str, amount: u128) -> Debt {
    Debt { debtor: debtor.to_string(), creditor: creditor.to_string(), amount }
}

fn send(to: &str, amount: u128) -> BankMsg {
    BankMsg::Send { to_address: to.to_string(), amount: vec![coin(amount, "uxion")] }
}

fn attrs(pairs: &[(&str, &str)]) -> Vec<(String, String)> {
    pairs.iter().map(|(k, v)| (k.to_string(), v.to_string())).collect()
}

/// alice, bob and carol; bob and carol owe alice 50 each.
fn flat() -> Ledger {
    let mut ledger = Ledger::new();
    let members = vec![addr("bob"), addr("carol")];
    create_group(&mut ledger, env(), caller("alice"), "Flat".to_string(), members).unwrap();
    add_expense(&mut ledger, env(), caller("alice"), 1, "Rent".to_string(), 150, vec![]).unwrap();
    ledger
}

#[test]
fn part_payment_leaves_the_rest_owed() {
    let mut ledger = flat();
    let res = settle_debt(&mut ledger, env(), paying("bob", 100), 1, addr("alice"), 20).unwrap();
    assert_eq!(vec![send("alice", 20)], res.messages);
    assert_eq!(
        attrs(&[
            ("action", "settle_debt"),
            ("group_id", "1"),
            ("from", "bob"),
            ("to", "alice"),
            ("amount", "20"),
            ("remaining_debt", "30"),
        ]),
        res.attributes
    );
    assert_eq!(
        vec![debt("bob", "alice", 30), debt("carol", "alice", 50)],
        get_debts(&ledger, 1).unwrap().debts
    );
}

#[test]
fn payment_in_full_takes_the_entry_away() {
    let mut ledger = flat();
    settle_debt(&mut ledger, env(), paying("bob", 50), 1, addr("alice"), 50).unwrap();
    let key = DebtKey::new(1, &"bob".to_string(), &"alice".to_string());
    assert_eq!(None, ledger.debts.get(&key));
    assert_eq!(0, ledger.debt(1, &"bob".to_string(), &"alice".to_string()));
    assert_eq!(1, ledger.debts.len());
    // nothing is owed any more
    let again = settle_debt(&mut ledger, env(), paying("bob", 50), 1, addr("alice"), 1);
    assert_eq!(ContractError::NoDebtExists {}, again.unwrap_err());
}

#[test]
fn settle_debt_rejects_in_the_order_of_its_checks() {
    let mut ledger = flat();
    let bad = Err(StdError::GenericErr { msg: "bad".to_string() });
    let r = settle_debt(&mut ledger, env(), paying("bob", 0), 9, bad, 0);
    assert_eq!(ContractError::Std(StdError::GenericErr { msg: "bad".to_string() }), r.unwrap_err());
    let r = settle_debt(&mut ledger, env(), paying("bob", 0), 9, addr("bob"), 0);
    assert_eq!(ContractError::CannotSettleWithSelf {}, r.unwrap_err());
    let r = settle_debt(&mut ledger, env(), paying("bob", 0), 9, addr("alice"), 0);
    assert_eq!(ContractError::GroupNotFound {}, r.unwrap_err());
    let r = settle_debt(&mut ledger, env(), paying("zed", 0), 1, addr("alice"), 0);
    assert_eq!(ContractError::UserNotInGroup {}, r.unwrap_err());
    let r = settle_debt(&mut ledger, env(), paying("bob", 0), 1, addr("zed"), 0);
    assert_eq!(ContractError::UserNotInGroup {}, r.unwrap_err());
    let r = settle_debt(&mut ledger, env(), paying("bob", 0), 1, addr("alice"), 0);
    assert_eq!(
        ContractError::InvalidAmount { reason: "Amount must be greater than zero".to_string() },
        r.unwrap_err()
    );
    let r = settle_debt(&mut ledger, env(), paying("alice", 0), 1, addr("bob"), 5);
    assert_eq!(ContractError::NoDebtExists {}, r.unwrap_err());
    let r = settle_debt(&mut ledger, env(), paying("bob", 0), 1, addr("alice"), 51);
    assert_eq!(ContractError::InvalidPayment {}, r.unwrap_err());
    let r = settle_debt(&mut ledger, env(), paying("bob", 49), 1, addr("alice"), 50);
    assert_eq!(
        ContractError::InsufficientFunds { needed: "50".to_string(), available: "49".to_string() },
        r.unwrap_err()
    );
    assert_eq!(
        vec![debt("bob", "alice", 50), debt("carol", "alice", 50)],
        get_debts(&ledger, 1).unwrap().debts
    );
}

#[test]
fn funds_count_in_the_one_currency_only() {
    let mut ledger = flat();
    let info = MessageInfo { sender: "bob".to_string(), funds: vec![coin(500, "uatom")] };
    let r = settle_debt(&mut ledger, env(), info, 1, addr("alice"), 50);
    assert_eq!(
        ContractError::InsufficientFunds { needed: "50".to_string(), available: "0".to_string() },
        r.unwrap_err()
    );
    let info = MessageInfo { sender: "bob".to_string(), funds: vec![] };
    let r = settle_debt(&mut ledger, env(), info, 1, addr("alice"), 50);
    assert_eq!(
        ContractError::InsufficientFunds { needed: "50".to_string(), available: "0".to_string() },
        r.unwrap_err()
    );
    // the first coin of the currency counts
    let funds = vec![coin(500, "uatom"), coin(10, "uxion"), coin(90, "uxion")];
    let info = MessageInfo { sender: "bob".to_string(), funds };
    assert_eq!(10, info.attached_funds());
    let r = settle_debt(&mut ledger, env(), info, 1, addr("alice"), 50);
    assert_eq!(
        ContractError::InsufficientFunds { needed: "50".to_string(), available: "10".to_string() },
        r.unwrap_err()
    );
    let funds = vec![coin(500, "uatom"), coin(60, "uxion")];
    let info = MessageInfo { sender: "bob".to_string(), funds };
    settle_debt(&mut ledger, env(), info, 1, addr("alice"), 50).unwrap();
}

#[test]
fn settle_all_with_too_little_attached_changes_nothing() {
    let mut ledger = flat();
    add_expense(&mut ledger, env(), caller("bob"), 1, "Power".to_string(), 90, vec![]).unwrap();
    // carol owes alice 50 and bob 30
    let before = get_debts(&ledger, 1).unwrap().debts;
    let r = settle_all_debts(&mut ledger, env(), paying("carol", 79), 1);
    assert_eq!(
        ContractError::InsufficientFunds { needed: "80".to_string(), available: "79".to_string() },
        r.unwrap_err()
    );
    assert_eq!(before, get_debts(&ledger, 1).unwrap().debts);
    assert_eq!(50, ledger.debt(1, &"carol".to_string(), &"alice".to_string()));
    assert_eq!(30, ledger.debt(1, &"carol".to_string(), &"bob".to_string()));
}

#[test]
fn settle_all_pays_what_the_caller_owes_and_nothing_else() {
    let mut ledger = flat();
    add_expense(&mut ledger, env(), caller("bob"), 1, "Power".to_string(), 90, vec![]).unwrap();
    // alice owes bob 30; bob owes alice 50; carol owes alice 50 and bob 30
    let res = settle_all_debts(&mut ledger, env(), paying("bob", 1000), 1).unwrap();
    assert_eq!(vec![send("alice", 50)], res.messages);
    assert_eq!(
        attrs(&[
            ("action", "settle_all_debts"),
            ("group_id", "1"),
            ("from", "bob"),
            ("total_paid", "50"),
            ("paid_to_0", "alice"),
            ("amount_0", "50"),
            ("total_payments", "1"),
        ]),
        res.attributes
    );
    assert_eq!(
        vec![debt("alice", "bob", 30), debt("carol", "alice", 50), debt("carol", "bob", 30)],
        get_debts(&ledger, 1).unwrap().debts
    );
}

#[test]
fn settle_all_without_debts_is_rejected() {
    let mut ledger = flat();
    let r = settle_all_debts(&mut ledger, env(), paying("alice", 1000), 1);
    assert_eq!(ContractError::NoDebtExists {}, r.unwrap_err());
    let r = settle_all_debts(&mut ledger, env(), paying("zed", 1000), 1);
    assert_eq!(ContractError::UserNotInGroup {}, r.unwrap_err());
    let r = settle_all_debts(&mut ledger, env(), paying("alice", 1000), 2);
    assert_eq!(ContractError::GroupNotFound {}, r.unwrap_err());
    assert_eq!(2, ledger.debts.len());
}

#[test]
fn settle_all_lists_five_payments_and_makes_them_all() {
    let mut ledger = Ledger::new();
    let members: Vec<_> = (1..=7).map(|i| Ok(format!("m{}", i))).collect();
    create_group(&mut ledger, env(), caller("zoe"), "Club".to_string(), members).unwrap();
    for i in 1..=7u128 {
        let payer = format!("m{}", i);
        let split = vec![addr("zoe"), Ok(payer.clone())];
        add_expense(&mut ledger, env(), caller(&payer), 1, "Round".to_string(), 2 * i, split)
            .unwrap();
    }
    let res = settle_all_debts(&mut ledger, env(), paying("zoe", 28), 1).unwrap();
    let expected: Vec<BankMsg> = (1..=7u128).map(|i| send(&format!("m{}", i), i)).collect();
    assert_eq!(expected, res.messages);
    assert_eq!(
        attrs(&[
            ("action", "settle_all_debts"),
            ("group_id", "1"),
            ("from", "zoe"),
            ("total_paid", "28"),
            ("paid_to_0", "m1"),
            ("amount_0", "1"),
            ("paid_to_1", "m2"),
            ("amount_1", "2"),
            ("paid_to_2", "m3"),
            ("amount_2", "3"),
            ("paid_to_3", "m4"),
            ("amount_3", "4"),
            ("paid_to_4", "m5"),
            ("amount_4", "5"),
            ("total_payments", "7"),
        ]),
        res.attributes
    );
    assert_eq!(0, ledger.debts.len());
}

#[test]
fn settle_all_pays_in_the_order_of_the_members() {
    let mut ledger = Ledger::new();
    let members = vec![addr("carol"), addr("bob")];
    create_group(&mut ledger, env(), caller("alice"), "Flat".to_string(), members).unwrap();
    let split = vec![addr("alice"), addr("bob")];
    add_expense(&mut ledger, env(), caller("bob"), 1, "A".to_string(), 10, split).unwrap();
    let split = vec![addr("alice"), addr("carol")];
    add_expense(&mut ledger, env(), caller("carol"), 1, "B".to_string(), 30, split).unwrap();
    let res = settle_all_debts(&mut ledger, env(), paying("alice", 20), 1).unwrap();
    assert_eq!(vec![send("carol", 15), send("bob", 5)], res.messages);
}

#[test]
fn settle_all_whose_sum_overflows_is_not_made() {
    let mut ledger = flat();
    let one = vec![addr("carol")];
    add_expense(&mut ledger, env(), caller("alice"), 1, "A".to_string(), u128::MAX - 50, one)
        .unwrap();
    let one = vec![addr("carol")];
    add_expense(&mut ledger, env(), caller("bob"), 1, "B".to_string(), 1, one).unwrap();
    assert_eq!(u128::MAX, ledger.debt(1, &"carol".to_string(), &"alice".to_string()));
    let r = try_settle_all_debts(&mut ledger, env(), paying("carol", u128::MAX), 1);
    assert_eq!(None, r);
    assert_eq!(u128::MAX, ledger.debt(1, &"carol".to_string(), &"alice".to_string()));
    assert_eq!(1, ledger.debt(1, &"carol".to_string(), &"bob".to_string()));
    let r = try_settle_all_debts(&mut ledger, env(), paying("bob", 50), 1);
    assert!(matches!(r, Some(Ok(_))));
}
