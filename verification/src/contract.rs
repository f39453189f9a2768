//! The entry points: setting up the ledger, and handing a message to the
//! operation or the question that it names.
use vstd::prelude::*;
use crate::error::{ContractError, ErrorView, StdError, StdErrorView};
use crate::expenses::{add_expense_in_range, add_expense_post, try_add_expense};
use crate::host::{attached, Env, MessageInfo, Response, ResponseView};
use crate::msg::{
    outcome, ExecuteMsg, ExecuteMsgView, InstantiateMsg, QueryMsg, QueryMsgView, QueryResponse,
    QueryResponseView,
};
use crate::queries::{
    get_balance_summary_in_range, get_balance_summary_spec, get_debts_spec, get_expense_spec,
    get_group_expenses_spec, get_group_spec, get_user_groups_spec, try_get_balance_summary,
};
use crate::registry::{
    create_group_in_range, create_group_post, join_group_post, leave_group_post, try_create_group,
};
use crate::seqs::views;
use crate::settlement::{
    settle_all_debts_in_range, settle_all_debts_post, settle_debt_post, try_settle_all_debts,
};
use crate::state::{Ledger, LedgerView};

pub use crate::expenses::add_expense;
pub use crate::queries::{
    get_balance_summary, get_debts, get_expense, get_group, get_group_expenses, get_user_groups,
};
pub use crate::registry::{create_group, join_group, leave_group};
pub use crate::settlement::{settle_all_debts, settle_debt};

verus! {

/// The name that the ledger answers its set-up with.
pub const CONTRACT_NAME: &'static str = "crates.io:expense-splitter";

/// The answer to the set-up.
pub open spec fn instantiate_response() -> ResponseView {
    ResponseView {
        messages: Seq::empty(),
        attributes: seq![
            ("method"@, "instantiate"@),
            ("contract_name"@, "crates.io:expense-splitter"@),
        ],
    }
}

/// Sets both counters to zero, so that the first group and the first
/// expense get the identifier 1. Whatever else the ledger holds stays.
pub fn instantiate(ledger: &mut Ledger, _env: Env, _info: MessageInfo, _msg: InstantiateMsg) -> (r:
    Result<Response, ContractError>)
    requires
        old(ledger).wf(),
    ensures
        final(ledger).wf(),
        final(ledger)@ == (LedgerView { group_count: 0, expense_count: 0, ..old(ledger)@ }),
        old(ledger)@.holds_nothing() ==> final(ledger)@.consistent(),
        outcome(r) == Ok::<ResponseView, ErrorView>(instantiate_response()),
{
    ledger.group_count = 0;
    ledger.expense_count = 0;
    let mut response = Response::new();
    response.add_attribute("method", String::from_str("instantiate"));
    response.add_attribute("contract_name", String::from_str("crates.io:expense-splitter"));
    assert(response@.attributes =~= instantiate_response().attributes);
    Ok(response)
}

/// Whether the ledger has room for what `msg` asks: see the operation that
/// it names.
pub open spec fn execute_in_range(pre: LedgerView, sender: Seq<char>, msg: ExecuteMsgView) -> bool {
    match msg {
        ExecuteMsgView::CreateGroup { name, members } => create_group_in_range(pre, name, members),
        ExecuteMsgView::AddExpense {
            group_id,
            description,
            amount,
            split_between,
        } => add_expense_in_range(pre, sender, group_id, description, amount, split_between),
        ExecuteMsgView::SettleAllDebts { group_id } => settle_all_debts_in_range(
            pre,
            sender,
            group_id,
        ),
        _ => true,
    }
}

/// What `msg` does: what the operation that it names does.
pub open spec fn execute_post(
    pre: LedgerView,
    time: u64,
    sender: Seq<char>,
    funds: u128,
    msg: ExecuteMsgView,
    post: LedgerView,
    result: Result<ResponseView, ErrorView>,
) -> bool {
    match msg {
        ExecuteMsgView::CreateGroup { name, members } => create_group_post(
            pre,
            time,
            sender,
            name,
            members,
            post,
            result,
        ),
        ExecuteMsgView::AddExpense {
            group_id,
            description,
            amount,
            split_between,
        } => add_expense_post(
            pre,
            time,
            sender,
            group_id,
            description,
            amount,
            split_between,
            post,
            result,
        ),
        ExecuteMsgView::SettleDebt { group_id, to, amount } => settle_debt_post(
            pre,
            sender,
            funds,
            group_id,
            to,
            amount,
            post,
            result,
        ),
        ExecuteMsgView::SettleAllDebts { group_id } => settle_all_debts_post(
            pre,
            sender,
            funds,
            group_id,
            post,
            result,
        ),
        ExecuteMsgView::JoinGroup { group_id } => join_group_post(
            pre,
            sender,
            group_id,
            post,
            result,
        ),
        ExecuteMsgView::LeaveGroup { group_id } => leave_group_post(
            pre,
            sender,
            group_id,
            post,
            result,
        ),
    }
}

/// Hands `msg` to the operation that it names, where the ledger has room
/// for what it asks. Answers `None`, and changes nothing, where it has not.
pub fn try_execute(ledger: &mut Ledger, env: Env, info: MessageInfo, msg: ExecuteMsg) -> (r: Option<
    Result<Response, ContractError>,
>)
    requires
        old(ledger).wf(),
    ensures
        final(ledger).wf(),
        old(ledger)@.consistent() ==> final(ledger)@.consistent(),
        r is Some <==> execute_in_range(old(ledger)@, info.sender@, msg@),
        match r {
            Some(res) => execute_post(
                old(ledger)@,
                env.time,
                info.sender@,
                attached(views(info.funds@)),
                msg@,
                final(ledger)@,
                outcome(res),
            ),
            None => final(ledger)@ == old(ledger)@,
        },
{
    match msg {
        ExecuteMsg::CreateGroup { name, members } => try_create_group(
            ledger,
            env,
            info,
            name,
            members,
        ),
        ExecuteMsg::AddExpense { group_id, description, amount, split_between } => try_add_expense(
            ledger,
            env,
            info,
            group_id,
            description,
            amount,
            split_between,
        ),
        ExecuteMsg::SettleDebt { group_id, to, amount } => Some(
            settle_debt(ledger, env, info, group_id, to, amount),
        ),
        ExecuteMsg::SettleAllDebts { group_id } => try_settle_all_debts(
            ledger,
            env,
            info,
            group_id,
        ),
        ExecuteMsg::JoinGroup { group_id } => Some(join_group(ledger, env, info, group_id)),
        ExecuteMsg::LeaveGroup { group_id } => Some(leave_group(ledger, env, info, group_id)),
    }
}

/// Hands `msg` to the operation that it names. A rejected message leaves
/// the ledger as it was.
pub fn execute(ledger: &mut Ledger, env: Env, info: MessageInfo, msg: ExecuteMsg) -> (r: Result<
    Response,
    ContractError,
>)
    requires
        old(ledger).wf(),
        execute_in_range(old(ledger)@, info.sender@, msg@),
    ensures
        final(ledger).wf(),
        old(ledger)@.consistent() ==> final(ledger)@.consistent(),
        execute_post(
            old(ledger)@,
            env.time,
            info.sender@,
            attached(views(info.funds@)),
            msg@,
            final(ledger)@,
            outcome(r),
        ),
{
    try_execute(ledger, env, info, msg).unwrap()
}

/// Whether the answer to `msg` fits its machine integers: see the question
/// that it names.
pub open spec fn query_in_range(pre: LedgerView, msg: QueryMsgView) -> bool {
    match msg {
        QueryMsgView::GetBalanceSummary { group_id, user } => get_balance_summary_in_range(
            pre,
            group_id,
            user,
        ),
        _ => true,
    }
}

/// The answer to `msg`: that of the question that it names.
pub open spec fn query_spec(pre: LedgerView, msg: QueryMsgView) -> Result<
    QueryResponseView,
    StdErrorView,
> {
    match msg {
        QueryMsgView::GetGroup { id } => match get_group_spec(pre, id) {
            Ok(a) => Ok(QueryResponseView::Group(a)),
            Err(e) => Err(e),
        },
        QueryMsgView::GetUserGroups { user, limit, start_after } => match get_user_groups_spec(
            pre,
            user,
            limit,
            start_after,
        ) {
            Ok(a) => Ok(QueryResponseView::Groups(a)),
            Err(e) => Err(e),
        },
        QueryMsgView::GetExpense { id } => match get_expense_spec(pre, id) {
            Ok(a) => Ok(QueryResponseView::Expense(a)),
            Err(e) => Err(e),
        },
        QueryMsgView::GetGroupExpenses {
            group_id,
            limit,
            start_after,
        } => match get_group_expenses_spec(pre, group_id, limit, start_after) {
            Ok(a) => Ok(QueryResponseView::Expenses(a)),
            Err(e) => Err(e),
        },
        QueryMsgView::GetDebts { group_id } => match get_debts_spec(pre, group_id) {
            Ok(a) => Ok(QueryResponseView::Debts(a)),
            Err(e) => Err(e),
        },
        QueryMsgView::GetBalanceSummary { group_id, user } => match get_balance_summary_spec(
            pre,
            group_id,
            user,
        ) {
            Ok(a) => Ok(QueryResponseView::BalanceSummary(a)),
            Err(e) => Err(e),
        },
    }
}

/// Hands `msg` to the question that it names, where the answer fits its
/// machine integers, and answers `None` where it does not.
pub fn try_query(ledger: &Ledger, _env: Env, msg: QueryMsg) -> (r: Option<
    Result<QueryResponse, StdError>,
>)
    requires
        ledger.wf(),
    ensures
        r is Some <==> query_in_range(ledger@, msg@),
        r matches Some(res) ==> outcome(res) == query_spec(ledger@, msg@),
{
    match msg {
        QueryMsg::GetGroup { id } => Some(
            match get_group(ledger, id) {
                Ok(a) => Ok(QueryResponse::Group(a)),
                Err(e) => Err(e),
            },
        ),
        QueryMsg::GetUserGroups { user, limit, start_after } => Some(
            match get_user_groups(ledger, user, limit, start_after) {
                Ok(a) => Ok(QueryResponse::Groups(a)),
                Err(e) => Err(e),
            },
        ),
        QueryMsg::GetExpense { id } => Some(
            match get_expense(ledger, id) {
                Ok(a) => Ok(QueryResponse::Expense(a)),
                Err(e) => Err(e),
            },
        ),
        QueryMsg::GetGroupExpenses { group_id, limit, start_after } => Some(
            match get_group_expenses(ledger, group_id, limit, start_after) {
                Ok(a) => Ok(QueryResponse::Expenses(a)),
                Err(e) => Err(e),
            },
        ),
        QueryMsg::GetDebts { group_id } => Some(
            match get_debts(ledger, group_id) {
                Ok(a) => Ok(QueryResponse::Debts(a)),
                Err(e) => Err(e),
            },
        ),
        QueryMsg::GetBalanceSummary { group_id, user } => match try_get_balance_summary(
            ledger,
            group_id,
            user,
        ) {
            Some(Ok(a)) => Some(Ok(QueryResponse::BalanceSummary(a))),
            Some(Err(e)) => Some(Err(e)),
            None => None,
        },
    }
}

/// Hands `msg` to the question that it names.
pub fn query(ledger: &Ledger, env: Env, msg: QueryMsg) -> (r: Result<QueryResponse, StdError>)
    requires
        ledger.wf(),
        query_in_range(ledger@, msg@),
    ensures
        outcome(r) == query_spec(ledger@, msg@),
{
    try_query(ledger, env, msg).unwrap()
}

} // verus!
