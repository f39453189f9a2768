use expense_splitter::contract::{execute, try_execute};
use expense_splitter::error::StdError;
use expense_splitter::host::{Env, MessageInfo};
use expense_splitter::msg::ExecuteMsg;
use expense_splitter::queries::get_group;
use expense_splitter::registry::{create_group, join_group, leave_group, try_create_group};
use expense_splitter::state::Ledger;
use expense_splitter::ContractError;

fn env() -> Env {
    Env { time: 42 }
}

fn caller(name: &str) -> MessageInfo {
    MessageInfo { sender: name.to_string(), funds: vec![] }
}

fn addr(name: &str) -> Result<String, StdError> {
    Ok(name.to_string())
}

fn names(list: &[&str]) -> Vec<String> {
    list.iter().map(|s| s.to_string()).collect()
}

fn attrs(pairs: &[(&str, &str)]) -> Vec<(String, String)> {
    pairs.iter().map(|(k, v)| (k.to_string(), v.to_string())).collect()
}

fn group_of(ledger: &mut Ledger, creator: &str, members: &[&str]) -> u64 {
    let members = members.iter().map(|m| addr(m)).collect();
    create_group(ledger, env(), caller(creator), "Flat".to_string(), members).unwrap();
    ledger.group_count
}

#[test]
fn create_group_collapses_repeated_members() {
    let mut ledger = Ledger::new();
    let members = vec![addr("bob"), addr("alice"), addr("bob"), addr("carol"), addr("alice")];
    let res =
        create_group(&mut ledger, env(), caller("alice"), "Flat".to_string(), members).unwrap();
    assert_eq!(
        attrs(&[("action", "create_group"), ("id", "1"), ("creator", "alice"), ("members", "3")]),
        res.attributes
    );
    assert!(res.messages.is_empty());
    let group = get_group(&ledger, 1).unwrap().group;
    assert_eq!(names(&["alice", "bob", "carol"]), group.members);
    assert_eq!("alice", group.creator);
    assert_eq!("Flat", group.name);
    assert_eq!(42, group.created_at);
    assert_eq!(1, group.id);
}

#[test]
fn create_group_of_the_caller_alone() {
    let mut ledger = Ledger::new();
    create_group(&mut ledger, env(), caller("alice"), "Solo".to_string(), vec![]).unwrap();
    let group = get_group(&ledger, 1).unwrap().group;
    assert_eq!(names(&["alice"]), group.members);
    assert_eq!(Some(&vec![1u64]), ledger.user_groups.get(&"alice".to_string()));
    assert_eq!(Some(&Vec::<u64>::new()), ledger.group_expenses.get(&1));
}

#[test]
fn create_group_takes_fifty_members_and_the_creator() {
    let mut ledger = Ledger::new();
    let members: Vec<_> = (0..50).map(|i| Ok(format!("member{}", i))).collect();
    let res =
        create_group(&mut ledger, env(), caller("creator"), "Big".to_string(), members).unwrap();
    assert_eq!(("members".to_string(), "51".to_string()), res.attributes[3]);
    assert_eq!(51, get_group(&ledger, 1).unwrap().group.members.len());
}

#[test]
fn create_group_rejects_fifty_one_members() {
    let mut ledger = Ledger::new();
    let members: Vec<_> = (0..51).map(|i| Ok(format!("member{}", i))).collect();
    let err = create_group(&mut ledger, env(), caller("creator"), "Big".to_string(), members)
        .unwrap_err();
    assert_eq!(
        ContractError::CustomError { val: "Too many members. Maximum is 50".to_string() },
        err
    );
    assert_eq!(0, ledger.group_count);
    assert_eq!(0, ledger.groups.len());
}

#[test]
fn create_group_rejects_blank_names() {
    for name in ["", "   ", "\t\n", "\u{3000}\u{a0}"] {
        let mut ledger = Ledger::new();
        let err = create_group(&mut ledger, env(), caller("creator"), name.to_string(), vec![])
            .unwrap_err();
        assert_eq!(
            ContractError::InvalidGroupName { reason: "Group name cannot be empty".to_string() },
            err
        );
        assert_eq!(0, ledger.group_count);
    }
}

#[test]
fn create_group_measures_the_name_in_bytes() {
    let mut ledger = Ledger::new();
    let exactly = "x".repeat(64);
    create_group(&mut ledger, env(), caller("creator"), exactly, vec![]).unwrap();
    let over = "x".repeat(65);
    let err = create_group(&mut ledger, env(), caller("creator"), over, vec![]).unwrap_err();
    assert_eq!(
        ContractError::InvalidGroupName {
            reason: "Group name exceeds maximum length of 64".to_string()
        },
        err
    );
    // 33 two-byte characters are 66 bytes
    let wide = "é".repeat(33);
    let err = create_group(&mut ledger, env(), caller("creator"), wide, vec![]).unwrap_err();
    assert_eq!(
        ContractError::InvalidGroupName {
            reason: "Group name exceeds maximum length of 64".to_string()
        },
        err
    );
    assert_eq!(1, ledger.group_count);
}

#[test]
fn create_group_passes_on_the_first_unresolved_member() {
    let mut ledger = Ledger::new();
    let members = vec![
        addr("bob"),
        Err(StdError::GenericErr { msg: "Invalid input: human address too short".to_string() }),
        Err(StdError::GenericErr { msg: "second".to_string() }),
    ];
    let err = create_group(&mut ledger, env(), caller("alice"), "Flat".to_string(), members)
        .unwrap_err();
    assert_eq!(
        ContractError::Std(StdError::GenericErr {
            msg: "Invalid input: human address too short".to_string()
        }),
        err
    );
    assert_eq!(0, ledger.group_count);
    assert_eq!(0, ledger.user_groups.len());
}

#[test]
fn create_group_checks_the_name_before_the_members() {
    let mut ledger = Ledger::new();
    let members = vec![Err(StdError::GenericErr { msg: "bad".to_string() })];
    let err =
        create_group(&mut ledger, env(), caller("alice"), " ".to_string(), members).unwrap_err();
    assert_eq!(
        ContractError::InvalidGroupName { reason: "Group name cannot be empty".to_string() },
        err
    );
}

#[test]
fn group_identifiers_count_up_and_are_not_given_again() {
    let mut ledger = Ledger::new();
    assert_eq!(1, group_of(&mut ledger, "alice", &[]));
    assert_eq!(2, group_of(&mut ledger, "alice", &["bob"]));
    leave_group(&mut ledger, env(), caller("alice"), 1).unwrap();
    assert!(get_group(&ledger, 1).is_err());
    assert_eq!(3, group_of(&mut ledger, "bob", &[]));
    assert_eq!(Some(&vec![2u64]), ledger.user_groups.get(&"alice".to_string()));
    assert_eq!(Some(&vec![2u64, 3]), ledger.user_groups.get(&"bob".to_string()));
}

#[test]
fn create_group_without_a_further_identifier() {
    let mut ledger = Ledger::new();
    ledger.group_count = u64::MAX;
    let r = try_create_group(&mut ledger, env(), caller("alice"), "Flat".to_string(), vec![]);
    assert_eq!(None, r);
    assert_eq!(u64::MAX, ledger.group_count);
    assert_eq!(0, ledger.groups.len());
    let msg = ExecuteMsg::CreateGroup { name: " ".to_string(), members: vec![] };
    let r = try_execute(&mut ledger, env(), caller("alice"), msg);
    assert_eq!(
        Some(Err(ContractError::InvalidGroupName {
            reason: "Group name cannot be empty".to_string()
        })),
        r
    );
}

#[test]
fn join_group_makes_the_caller_the_last_member() {
    let mut ledger = Ledger::new();
    group_of(&mut ledger, "alice", &["bob"]);
    let res = join_group(&mut ledger, env(), caller("carol"), 1).unwrap();
    assert_eq!(
        attrs(&[("action", "join_group"), ("group_id", "1"), ("user", "carol")]),
        res.attributes
    );
    assert_eq!(names(&["alice", "bob", "carol"]), get_group(&ledger, 1).unwrap().group.members);
    assert_eq!(Some(&vec![1u64]), ledger.user_groups.get(&"carol".to_string()));
    assert!(ledger.is_valid());
}

#[test]
fn join_group_rejects_members_and_unknown_groups() {
    let mut ledger = Ledger::new();
    group_of(&mut ledger, "alice", &["bob"]);
    assert_eq!(
        ContractError::UserAlreadyInGroup {},
        join_group(&mut ledger, env(), caller("bob"), 1).unwrap_err()
    );
    assert_eq!(
        ContractError::GroupNotFound {},
        join_group(&mut ledger, env(), caller("carol"), 2).unwrap_err()
    );
    assert_eq!(names(&["alice", "bob"]), get_group(&ledger, 1).unwrap().group.members);
    assert_eq!(None, ledger.user_groups.get(&"carol".to_string()));
}

#[test]
fn leave_group_takes_the_caller_out() {
    let mut ledger = Ledger::new();
    group_of(&mut ledger, "alice", &["bob", "carol"]);
    group_of(&mut ledger, "bob", &["alice"]);
    let res = leave_group(&mut ledger, env(), caller("bob"), 1).unwrap();
    assert_eq!(
        attrs(&[("action", "leave_group"), ("group_id", "1"), ("user", "bob")]),
        res.attributes
    );
    assert_eq!(names(&["alice", "carol"]), get_group(&ledger, 1).unwrap().group.members);
    assert_eq!(Some(&vec![2u64]), ledger.user_groups.get(&"bob".to_string()));
    assert_eq!(Some(&vec![1u64, 2]), ledger.user_groups.get(&"alice".to_string()));
}

#[test]
fn last_member_takes_the_group_along() {
    let mut ledger = Ledger::new();
    group_of(&mut ledger, "alice", &[]);
    let msg = ExecuteMsg::AddExpense {
        group_id: 1,
        description: "Rent".to_string(),
        amount: 10,
        split_between: vec![],
    };
    execute(&mut ledger, env(), caller("alice"), msg).unwrap();
    leave_group(&mut ledger, env(), caller("alice"), 1).unwrap();
    assert_eq!(0, ledger.groups.len());
    assert_eq!(None, ledger.group_expenses.get(&1));
    assert_eq!(None, ledger.user_groups.get(&"alice".to_string()));
    // the expense record stays, and the counters do not go back
    assert_eq!(1, ledger.expenses.len());
    assert_eq!(1, ledger.group_count);
    assert_eq!(1, ledger.expense_count);
}

#[test]
fn leave_group_is_refused_while_debts_stand() {
    let mut ledger = Ledger::new();
    group_of(&mut ledger, "alice", &["bob", "carol"]);
    let msg = ExecuteMsg::AddExpense {
        group_id: 1,
        description: "Rent".to_string(),
        amount: 90,
        split_between: vec![addr("alice"), addr("bob")],
    };
    execute(&mut ledger, env(), caller("alice"), msg).unwrap();
    let unsettled =
        ContractError::CustomError { val: "Cannot leave group with unsettled debts".to_string() };
    // bob owes alice: neither the debtor nor the creditor can leave
    assert_eq!(unsettled, leave_group(&mut ledger, env(), caller("bob"), 1).unwrap_err());
    assert_eq!(unsettled, leave_group(&mut ledger, env(), caller("alice"), 1).unwrap_err());
    assert_eq!(3, get_group(&ledger, 1).unwrap().group.members.len());
    // carol owes nobody and is owed nothing
    leave_group(&mut ledger, env(), caller("carol"), 1).unwrap();
    assert_eq!(names(&["alice", "bob"]), get_group(&ledger, 1).unwrap().group.members);
}

#[test]
fn leave_group_rejects_strangers_and_unknown_groups() {
    let mut ledger = Ledger::new();
    group_of(&mut ledger, "alice", &["bob"]);
    assert_eq!(
        ContractError::UserNotInGroup {},
        leave_group(&mut ledger, env(), caller("carol"), 1).unwrap_err()
    );
    assert_eq!(
        ContractError::GroupNotFound {},
        leave_group(&mut ledger, env(), caller("alice"), 7).unwrap_err()
    );
}
