//! The messages that the ledger takes and the answers that queries give.
use vstd::prelude::*;
use crate::host::{party, parties, Resolved, ResolvedView};
use crate::seqs::views;
use crate::state::{Debt, DebtView, Expense, ExpenseView, Group, GroupView};

verus! {

/// Setting up a ledger takes no parameters.
#[derive(Clone, Debug, PartialEq, Eq)]
pub struct InstantiateMsg {
}

/// An operation that changes the ledger. Parties come as the identity
/// service resolved them.
#[derive(Debug, PartialEq, Eq)]
pub enum ExecuteMsg {
    /// Create a group of the caller and `members`.
    CreateGroup { name: String, members: Vec<Resolved> },
    /// Post an expense that the caller paid; an empty `split_between` stands
    /// for all members of the group.
    AddExpense { group_id: u64, description: String, amount: u128, split_between: Vec<Resolved> },
    /// Pay `amount` of what the caller owes `to`.
    SettleDebt { group_id: u64, to: Resolved, amount: u128 },
    /// Pay all that the caller owes within the group.
    SettleAllDebts { group_id: u64 },
    JoinGroup { group_id: u64 },
    LeaveGroup { group_id: u64 },
}

/// What an [`ExecuteMsg`] holds, as contracts speak of it.
pub enum ExecuteMsgView {
    CreateGroup { name: Seq<char>, members: Seq<ResolvedView> },
    AddExpense {
        group_id: u64,
        description: Seq<char>,
        amount: u128,
        split_between: Seq<ResolvedView>,
    },
    SettleDebt { group_id: u64, to: ResolvedView, amount: u128 },
    SettleAllDebts { group_id: u64 },
    JoinGroup { group_id: u64 },
    LeaveGroup { group_id: u64 },
}

impl View for ExecuteMsg {
    type V = ExecuteMsgView;

    open spec fn view(&self) -> ExecuteMsgView {
        match *self {
            ExecuteMsg::CreateGroup { name, members } => ExecuteMsgView::CreateGroup {
                name: name@,
                members: parties(members@),
            },
            ExecuteMsg::AddExpense {
                group_id,
                description,
                amount,
                split_between,
            } => ExecuteMsgView::AddExpense {
                group_id,
                description: description@,
                amount,
                split_between: parties(split_between@),
            },
            ExecuteMsg::SettleDebt { group_id, to, amount } => ExecuteMsgView::SettleDebt {
                group_id,
                to: party(to),
                amount,
            },
            ExecuteMsg::SettleAllDebts { group_id } => ExecuteMsgView::SettleAllDebts { group_id },
            ExecuteMsg::JoinGroup { group_id } => ExecuteMsgView::JoinGroup { group_id },
            ExecuteMsg::LeaveGroup { group_id } => ExecuteMsgView::LeaveGroup { group_id },
        }
    }
}

/// A question to the ledger.
#[derive(Debug, PartialEq, Eq)]
pub enum QueryMsg {
    GetGroup { id: u64 },
    /// The groups that `user` is a member of, a page at a time.
    GetUserGroups { user: Resolved, limit: Option<u32>, start_after: Option<u64> },
    GetExpense { id: u64 },
    /// The expenses posted against a group, a page at a time.
    GetGroupExpenses { group_id: u64, limit: Option<u32>, start_after: Option<u64> },
    /// All debts between the members of a group.
    GetDebts { group_id: u64 },
    /// Where `user` stands with each other member of a group.
    GetBalanceSummary { group_id: u64, user: Resolved },
}

/// What a [`QueryMsg`] holds, as contracts speak of it.
pub enum QueryMsgView {
    GetGroup { id: u64 },
    GetUserGroups { user: ResolvedView, limit: Option<u32>, start_after: Option<u64> },
    GetExpense { id: u64 },
    GetGroupExpenses { group_id: u64, limit: Option<u32>, start_after: Option<u64> },
    GetDebts { group_id: u64 },
    GetBalanceSummary { group_id: u64, user: ResolvedView },
}

impl View for QueryMsg {
    type V = QueryMsgView;

    open spec fn view(&self) -> QueryMsgView {
        match *self {
            QueryMsg::GetGroup { id } => QueryMsgView::GetGroup { id },
            QueryMsg::GetUserGroups { user, limit, start_after } => QueryMsgView::GetUserGroups {
                user: party(user),
                limit,
                start_after,
            },
            QueryMsg::GetExpense { id } => QueryMsgView::GetExpense { id },
            QueryMsg::GetGroupExpenses {
                group_id,
                limit,
                start_after,
            } => QueryMsgView::GetGroupExpenses { group_id, limit, start_after },
            QueryMsg::GetDebts { group_id } => QueryMsgView::GetDebts { group_id },
            QueryMsg::GetBalanceSummary { group_id, user } => QueryMsgView::GetBalanceSummary {
                group_id,
                user: party(user),
            },
        }
    }
}

#[derive(Debug, PartialEq, Eq)]
pub struct GroupResponse {
    pub group: Group,
}

impl View for GroupResponse {
    type V = GroupView;

    open spec fn view(&self) -> GroupView {
        self.group@
    }
}

#[derive(Debug, PartialEq, Eq)]
pub struct GroupsResponse {
    pub groups: Vec<Group>,
}

impl View for GroupsResponse {
    type V = Seq<GroupView>;

    open spec fn view(&self) -> Seq<GroupView> {
        views(self.groups@)
    }
}

#[derive(Debug, PartialEq, Eq)]
pub struct ExpenseResponse {
    pub expense: Expense,
}

impl View for ExpenseResponse {
    type V = ExpenseView;

    open spec fn view(&self) -> ExpenseView {
        self.expense@
    }
}

#[derive(Debug, PartialEq, Eq)]
pub struct ExpensesResponse {
    pub expenses: Vec<Expense>,
}

impl View for ExpensesResponse {
    type V = Seq<ExpenseView>;

    open spec fn view(&self) -> Seq<ExpenseView> {
        views(self.expenses@)
    }
}

#[derive(Debug, PartialEq, Eq)]
pub struct DebtsResponse {
    pub debts: Vec<Debt>,
}

impl View for DebtsResponse {
    type V = Seq<DebtView>;

    open spec fn view(&self) -> Seq<DebtView> {
        views(self.debts@)
    }
}

/// Where a party stands with one other member: `amount` is what remains
/// after the two directions are set off against each other; `direction` is
/// -1 where the party owes it and 1 where the party is owed it.
#[derive(Debug, PartialEq, Eq)]
pub struct Balance {
    pub other_user: String,
    pub amount: u128,
    pub direction: i8,
}

/// What a [`Balance`] holds, as contracts speak of it.
pub struct BalanceView {
    pub other_user: Seq<char>,
    pub amount: u128,
    pub direction: i8,
}

impl View for Balance {
    type V = BalanceView;

    open spec fn view(&self) -> BalanceView {
        BalanceView { other_user: self.other_user@, amount: self.amount, direction: self.direction }
    }
}

#[derive(Debug, PartialEq, Eq)]
pub struct BalanceSummaryResponse {
    pub balances: Vec<Balance>,
    /// All that the party owes others, net.
    pub total_owed: u128,
    /// All that others owe the party, net.
    pub total_owed_to: u128,
    /// `total_owed_to` less `total_owed`; zero where that would be negative.
    pub net_balance: u128,
}

/// What a [`BalanceSummaryResponse`] holds, as contracts speak of it.
pub struct SummaryView {
    pub balances: Seq<BalanceView>,
    pub total_owed: u128,
    pub total_owed_to: u128,
    pub net_balance: u128,
}

impl View for BalanceSummaryResponse {
    type V = SummaryView;

    open spec fn view(&self) -> SummaryView {
        SummaryView {
            balances: views(self.balances@),
            total_owed: self.total_owed,
            total_owed_to: self.total_owed_to,
            net_balance: self.net_balance,
        }
    }
}

/// The answer to a [`QueryMsg`], one variant for each kind of question.
#[derive(Debug, PartialEq, Eq)]
pub enum QueryResponse {
    Group(GroupResponse),
    Groups(GroupsResponse),
    Expense(ExpenseResponse),
    Expenses(ExpensesResponse),
    Debts(DebtsResponse),
    BalanceSummary(BalanceSummaryResponse),
}

/// What a [`QueryResponse`] holds, as contracts speak of it.
pub enum QueryResponseView {
    Group(GroupView),
    Groups(Seq<GroupView>),
    Expense(ExpenseView),
    Expenses(Seq<ExpenseView>),
    Debts(Seq<DebtView>),
    BalanceSummary(SummaryView),
}

impl View for QueryResponse {
    type V = QueryResponseView;

    open spec fn view(&self) -> QueryResponseView {
        match *self {
            QueryResponse::Group(r) => QueryResponseView::Group(r@),
            QueryResponse::Groups(r) => QueryResponseView::Groups(r@),
            QueryResponse::Expense(r) => QueryResponseView::Expense(r@),
            QueryResponse::Expenses(r) => QueryResponseView::Expenses(r@),
            QueryResponse::Debts(r) => QueryResponseView::Debts(r@),
            QueryResponse::BalanceSummary(r) => QueryResponseView::BalanceSummary(r@),
        }
    }
}

/// The view of what an operation ended with.
pub open spec fn outcome<T: View, E: View>(r: Result<T, E>) -> Result<T::V, E::V> {
    match r {
        Ok(t) => Ok(t@),
        Err(e) => Err(e@),
    }
}

} // verus!
