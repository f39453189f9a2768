use expense_splitter::contract::{execute, instantiate, query};
use expense_splitter::error::StdError;
use expense_splitter::host::{BankMsg, Coin, Env, MessageInfo};
use expense_splitter::msg::{ExecuteMsg, InstantiateMsg, QueryMsg, QueryResponse};
use expense_splitter::state::Ledger;

fn coins(amount: u128, denom: &str) -> Vec<Coin> {
    vec![Coin { denom: denom.to_string(), amount }]
}

fn mock_info(sender: &str, funds: &[Coin]) -> MessageInfo {
    MessageInfo { sender: sender.to_string(), funds: funds.to_vec() }
}

fn mock_env() -> Env {
    Env { time: 1_571_797_419_879_305_533 }
}

fn from_seconds(seconds: u64) -> u64 {
    seconds * 1_000_000_000
}

fn addr(name: &str) -> Result<String, StdError> {
    Ok(name.to_string())
}

fn attrs(pairs: &[(&str, &str)]) -> Vec<(String, String)> {
    pairs.iter().map(|(k, v)| (k.to_string(), v.to_string())).collect()
}

fn room_101(members: &[&str]) -> ExecuteMsg {
    ExecuteMsg::CreateGroup {
        name: "Room 101 Expenses".to_string(),
        members: members.iter().map(|m| addr(m)).collect(),
    }
}

fn expense(description: &str, amount: u128) -> ExecuteMsg {
    ExecuteMsg::AddExpense {
        group_id: 1,
        description: description.to_string(),
        amount,
        split_between: vec![],
    }
}

#[test]
fn proper_initialization() {
    let mut ledger = Ledger::new();
    let env = mock_env();

    let msg = InstantiateMsg {};
    let info = mock_info("creator", &coins(1000, "uxion"));

    let res = instantiate(&mut ledger, env, info, msg).unwrap();
    assert_eq!(0, res.messages.len());

    // Verify group count was initialized to 0
    assert_eq!(0u64, ledger.group_count);

    // Verify expense count was initialized to 0
    assert_eq!(0u64, ledger.expense_count);
}

#[test]
fn create_group_works() {
    let mut ledger = Ledger::new();
    let mut env = mock_env();
    env.time = from_seconds(1_000_000);

    // Initialize the contract
    let msg = InstantiateMsg {};
    let info = mock_info("creator", &coins(1000, "uxion"));
    instantiate(&mut ledger, env.clone(), info.clone(), msg).unwrap();

    // Create a group
    let msg = room_101(&["member1", "member2"]);
    let info = mock_info("creator", &[]);
    let res = execute(&mut ledger, env.clone(), info, msg).unwrap();

    // Check attributes
    assert_eq!(
        attrs(&[("action", "create_group"), ("id", "1"), ("creator", "creator"), ("members", "3")]),
        res.attributes
    );

    // Query the group
    let query_msg = QueryMsg::GetGroup { id: 1 };
    let res = match query(&ledger, env.clone(), query_msg).unwrap() {
        QueryResponse::Group(res) => res,
        other => panic!("unexpected answer: {:?}", other),
    };

    assert_eq!(1, res.group.id);
    assert_eq!("Room 101 Expenses", res.group.name);
    assert_eq!("creator".to_string(), res.group.creator);
    assert_eq!(3, res.group.members.len());
    assert!(res.group.members.contains(&"creator".to_string()));
    assert!(res.group.members.contains(&"member1".to_string()));
    assert!(res.group.members.contains(&"member2".to_string()));
    assert_eq!(from_seconds(1_000_000), res.group.created_at);
}

#[test]
fn add_expense_works() {
    let mut ledger = Ledger::new();
    let mut env = mock_env();
    env.time = from_seconds(1_000_000);

    // Initialize the contract
    let msg = InstantiateMsg {};
    let info = mock_info("creator", &coins(1000, "uxion"));
    instantiate(&mut ledger, env.clone(), info.clone(), msg).unwrap();

    // Create a group
    let info = mock_info("creator", &[]);
    execute(&mut ledger, env.clone(), info.clone(), room_101(&["member1", "member2"])).unwrap();

    // Add an expense; an empty split means split among all members
    let res = execute(&mut ledger, env.clone(), info.clone(), expense("Groceries", 150)).unwrap();

    // Check attributes
    assert_eq!(
        attrs(&[
            ("action", "add_expense"),
            ("id", "1"),
            ("group_id", "1"),
            ("paid_by", "creator"),
            ("amount", "150"),
            ("split_between", "3"),
        ]),
        res.attributes
    );

    // Query the expense
    let query_msg = QueryMsg::GetExpense { id: 1 };
    let res = match query(&ledger, env.clone(), query_msg).unwrap() {
        QueryResponse::Expense(res) => res,
        other => panic!("unexpected answer: {:?}", other),
    };

    assert_eq!(1, res.expense.id);
    assert_eq!("Groceries", res.expense.description);
    assert_eq!(150u128, res.expense.amount);
    assert_eq!("creator".to_string(), res.expense.paid_by);
    assert_eq!(3, res.expense.split_between.len());

    // Check debts - member1 should owe creator 50 (150/3)
    let query_msg = QueryMsg::GetDebts { group_id: 1 };
    let res = match query(&ledger, env.clone(), query_msg).unwrap() {
        QueryResponse::Debts(res) => res,
        other => panic!("unexpected answer: {:?}", other),
    };

    assert_eq!(2, res.debts.len()); // 2 members owe the creator

    // Find debt from member1 to creator
    let debt = res
        .debts
        .iter()
        .find(|d| d.debtor == "member1" && d.creditor == "creator")
        .unwrap();

    assert_eq!(50u128, debt.amount); // 150 / 3 = 50
}

#[test]
fn settle_debt_works() {
    let mut ledger = Ledger::new();
    let mut env = mock_env();
    env.time = from_seconds(1_000_000);

    // Initialize the contract
    let msg = InstantiateMsg {};
    let info = mock_info("creator", &coins(1000, "uxion"));
    instantiate(&mut ledger, env.clone(), info.clone(), msg).unwrap();

    // Create a group
    let info = mock_info("creator", &[]);
    execute(&mut ledger, env.clone(), info.clone(), room_101(&["member1", "member2"])).unwrap();

    // Add an expense - creator pays
    execute(&mut ledger, env.clone(), info.clone(), expense("Groceries", 150)).unwrap();

    // member1 settles debt with creator
    let msg = ExecuteMsg::SettleDebt { group_id: 1, to: addr("creator"), amount: 50 };
    let info = mock_info("member1", &coins(50, "uxion"));
    let res = execute(&mut ledger, env.clone(), info.clone(), msg).unwrap();

    // Check attributes and message
    assert_eq!(1, res.messages.len());
    assert_eq!(
        attrs(&[
            ("action", "settle_debt"),
            ("group_id", "1"),
            ("from", "member1"),
            ("to", "creator"),
            ("amount", "50"),
            ("remaining_debt", "0"),
        ]),
        res.attributes
    );
    assert_eq!(
        BankMsg::Send { to_address: "creator".to_string(), amount: coins(50, "uxion") },
        res.messages[0]
    );

    // Check debts - member1 should no longer owe creator
    let query_msg = QueryMsg::GetDebts { group_id: 1 };
    let res = match query(&ledger, env.clone(), query_msg).unwrap() {
        QueryResponse::Debts(res) => res,
        other => panic!("unexpected answer: {:?}", other),
    };

    assert_eq!(1, res.debts.len()); // Only member2 still owes the creator

    // The remaining debt should be from member2 to creator
    let debt = &res.debts[0];
    assert_eq!("member2".to_string(), debt.debtor);
    assert_eq!("creator".to_string(), debt.creditor);
    assert_eq!(50u128, debt.amount);
}

#[test]
fn settle_all_debts_works() {
    let mut ledger = Ledger::new();
    let mut env = mock_env();
    env.time = from_seconds(1_000_000);

    // Initialize the contract
    let msg = InstantiateMsg {};
    let info = mock_info("creator", &coins(1000, "uxion"));
    instantiate(&mut ledger, env.clone(), info.clone(), msg).unwrap();

    // Create a group
    let info = mock_info("creator", &[]);
    execute(&mut ledger, env.clone(), info.clone(), room_101(&["member1", "member2"])).unwrap();

    // Add expense from creator
    execute(&mut ledger, env.clone(), info.clone(), expense("Groceries", 150)).unwrap();

    // Add expense from member1
    let info = mock_info("member1", &[]);
    execute(&mut ledger, env.clone(), info.clone(), expense("Utilities", 90)).unwrap();

    // Now member2 owes both creator and member1
    // member2 settles all debts at once
    let msg = ExecuteMsg::SettleAllDebts { group_id: 1 };
    let info = mock_info("member2", &coins(80, "uxion")); // 50 to creator + 30 to member1
    let res = execute(&mut ledger, env.clone(), info.clone(), msg).unwrap();

    // Check messages - should be 2 transfers
    assert_eq!(2, res.messages.len());

    // Check there are no more debts for member2
    let query_msg = QueryMsg::GetBalanceSummary { group_id: 1, user: addr("member2") };
    let res = match query(&ledger, env.clone(), query_msg).unwrap() {
        QueryResponse::BalanceSummary(res) => res,
        other => panic!("unexpected answer: {:?}", other),
    };

    assert_eq!(0u128, res.total_owed);
    assert_eq!(0, res.balances.len()); // No balances should exist after settling all debts
}

#[test]
fn shared_household_from_first_expense_to_clean_slate() {
    let mut ledger = Ledger::new();
    let env = mock_env();
    instantiate(&mut ledger, env.clone(), mock_info("creator", &[]), InstantiateMsg {}).unwrap();
    execute(&mut ledger, env.clone(), mock_info("creator", &[]), room_101(&["m1", "m2"])).unwrap();

    execute(&mut ledger, env.clone(), mock_info("creator", &[]), expense("Groceries", 150))
        .unwrap();
    assert_eq!(50, ledger.debt(1, &"m1".to_string(), &"creator".to_string()));
    assert_eq!(50, ledger.debt(1, &"m2".to_string(), &"creator".to_string()));
    assert_eq!(0, ledger.debt(1, &"creator".to_string(), &"m1".to_string()));

    let msg = ExecuteMsg::SettleDebt { group_id: 1, to: addr("creator"), amount: 50 };
    execute(&mut ledger, env.clone(), mock_info("m1", &coins(50, "uxion")), msg).unwrap();
    assert_eq!(0, ledger.debt(1, &"m1".to_string(), &"creator".to_string()));
    assert_eq!(50, ledger.debt(1, &"m2".to_string(), &"creator".to_string()));
    assert_eq!(1, ledger.debts.len());

    execute(&mut ledger, env.clone(), mock_info("m1", &[]), expense("Utilities", 90)).unwrap();
    assert_eq!(30, ledger.debt(1, &"creator".to_string(), &"m1".to_string()));
    assert_eq!(30, ledger.debt(1, &"m2".to_string(), &"m1".to_string()));
    assert_eq!(50, ledger.debt(1, &"m2".to_string(), &"creator".to_string()));

    let msg = ExecuteMsg::SettleAllDebts { group_id: 1 };
    let res = execute(&mut ledger, env.clone(), mock_info("m2", &coins(80, "uxion")), msg).unwrap();
    assert_eq!(
        vec![
            BankMsg::Send { to_address: "creator".to_string(), amount: coins(50, "uxion") },
            BankMsg::Send { to_address: "m1".to_string(), amount: coins(30, "uxion") },
        ],
        res.messages
    );
    assert_eq!(
        attrs(&[
            ("action", "settle_all_debts"),
            ("group_id", "1"),
            ("from", "m2"),
            ("total_paid", "80"),
            ("paid_to_0", "creator"),
            ("amount_0", "50"),
            ("paid_to_1", "m1"),
            ("amount_1", "30"),
            ("total_payments", "2"),
        ]),
        res.attributes
    );

    let query_msg = QueryMsg::GetBalanceSummary { group_id: 1, user: addr("m2") };
    let summary = match query(&ledger, env.clone(), query_msg).unwrap() {
        QueryResponse::BalanceSummary(res) => res,
        other => panic!("unexpected answer: {:?}", other),
    };
    assert!(summary.balances.is_empty());
    assert_eq!(0, summary.total_owed);
    assert_eq!(0, summary.total_owed_to);
    assert_eq!(0, summary.net_balance);
}

#[test]
fn instantiate_answers_with_the_contract_name() {
    let mut ledger = Ledger::new();
    let res =
        instantiate(&mut ledger, mock_env(), mock_info("creator", &[]), InstantiateMsg {}).unwrap();
    assert_eq!(
        attrs(&[("method", "instantiate"), ("contract_name", "crates.io:expense-splitter")]),
        res.attributes
    );
    assert!(ledger.is_valid());
}

#[test]
fn rejected_message_leaves_the_ledger_as_it_was() {
    let mut ledger = Ledger::new();
    let env = mock_env();
    execute(&mut ledger, env.clone(), mock_info("creator", &[]), room_101(&["m1"])).unwrap();
    execute(&mut ledger, env.clone(), mock_info("creator", &[]), expense("Groceries", 100))
        .unwrap();
    let groups_before = ledger.group_count;
    let expenses_before = ledger.expense_count;
    let slots_before = ledger.debts.len();

    let bad = ExecuteMsg::AddExpense {
        group_id: 1,
        description: "Taxi".to_string(),
        amount: 10,
        split_between: vec![addr("m1"), addr("stranger")],
    };
    let err = execute(&mut ledger, env.clone(), mock_info("creator", &[]), bad).unwrap_err();
    assert_eq!(expense_splitter::ContractError::UserNotInGroup {}, err);
    assert_eq!(groups_before, ledger.group_count);
    assert_eq!(expenses_before, ledger.expense_count);
    assert_eq!(slots_before, ledger.debts.len());
    assert_eq!(50, ledger.debt(1, &"m1".to_string(), &"creator".to_string()));
}
