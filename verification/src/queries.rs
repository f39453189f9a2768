//! Read-only questions to the ledger: single records, paged listings, the
//! debts within a group, and where one member stands with the others.
use vstd::prelude::*;
use crate::error::{StdError, StdErrorView};
use crate::host::{party, Resolved, ResolvedView};
use crate::msg::{
    outcome, Balance, BalanceSummaryResponse, BalanceView, DebtsResponse, ExpenseResponse,
    ExpensesResponse, GroupResponse, GroupsResponse, SummaryView,
};
use crate::seqs::{first_index, has_name, lemma_filter_step, lemma_first_index, views};
use crate::sorting::{ascending, lemma_insert_at, sort_ids, stable_sort};
use crate::state::{listed, owed, Debt, DebtView, Debts, Expense, ExpenseView, Group, GroupView, Ledger, LedgerView};

verus! {

/// Page size of a listing that names no limit.
pub const DEFAULT_LIMIT: u32 = 10;

/// Largest page that a listing hands out, whatever limit was asked for.
pub const MAX_LIMIT: u32 = 30;

/// The kind that a missing group is reported under by the look-up of a
/// single record.
pub open spec fn group_kind() -> Seq<char> {
    "expense_splitter::state::Group"@
}

/// The kind that a missing expense is reported under.
pub open spec fn expense_kind() -> Seq<char> {
    "expense_splitter::state::Expense"@
}

/// The error of a record of kind `kind` that was not found.
pub open spec fn not_found(kind: Seq<char>) -> StdErrorView {
    StdErrorView::NotFound { kind }
}

/// The group `id`, or the error that there is none.
pub open spec fn get_group_spec(pre: LedgerView, id: u64) -> Result<GroupView, StdErrorView> {
    if pre.groups.contains_key(id) {
        Ok(pre.groups[id])
    } else {
        Err(not_found(group_kind()))
    }
}

/// The expense `id`, or the error that there is none.
pub open spec fn get_expense_spec(pre: LedgerView, id: u64) -> Result<ExpenseView, StdErrorView> {
    if pre.expenses.contains_key(id) {
        Ok(pre.expenses[id])
    } else {
        Err(not_found(expense_kind()))
    }
}

/// Looks up one group.
pub fn get_group(ledger: &Ledger, id: u64) -> (r: Result<GroupResponse, StdError>)
    requires
        ledger.wf(),
    ensures
        outcome(r) == get_group_spec(ledger@, id),
{
    match ledger.groups.get(&id) {
        Some(group) => Ok(GroupResponse { group: group.duplicate() }),
        None => Err(StdError::not_found("expense_splitter::state::Group")),
    }
}

/// Looks up one expense.
pub fn get_expense(ledger: &Ledger, id: u64) -> (r: Result<ExpenseResponse, StdError>)
    requires
        ledger.wf(),
    ensures
        outcome(r) == get_expense_spec(ledger@, id),
{
    match ledger.expenses.get(&id) {
        Some(expense) => Ok(ExpenseResponse { expense: expense.duplicate() }),
        None => Err(StdError::not_found("expense_splitter::state::Expense")),
    }
}

/// The page size that a listing uses for a requested limit.
pub open spec fn page_size(limit: Option<u32>) -> nat {
    match limit {
        Some(l) => if l < MAX_LIMIT {
            l as nat
        } else {
            MAX_LIMIT as nat
        },
        None => DEFAULT_LIMIT as nat,
    }
}

/// Holds of the identifiers behind the cursor: all of them where there is
/// no cursor.
pub open spec fn above(cursor: Option<u64>) -> spec_fn(u64) -> bool {
    |id: u64|
        match cursor {
            Some(c) => id > c,
            None => true,
        }
}

/// One page of `ids`: those behind the cursor, by size, as many as the page
/// takes.
pub open spec fn page(ids: Seq<u64>, limit: Option<u32>, start_after: Option<u64>) -> Seq<u64> {
    let sorted = stable_sort(ids.filter(above(start_after)), ascending());
    if page_size(limit) < sorted.len() {
        sorted.take(page_size(limit) as int)
    } else {
        sorted
    }
}

/// Holds of the identifiers that `records` has no record for.
pub open spec fn missing<V>(records: Map<u64, V>) -> spec_fn(u64) -> bool {
    |id: u64| !records.contains_key(id)
}

/// The records of `ids`, in order, or the error that one of them is missing.
pub open spec fn resolve<V>(records: Map<u64, V>, ids: Seq<u64>, kind: Seq<char>) -> Result<
    Seq<V>,
    StdErrorView,
> {
    if first_index(ids, missing(records)) < ids.len() {
        Err(not_found(kind))
    } else {
        Ok(Seq::new(ids.len(), |i: int| records[ids[i]]))
    }
}

/// What the listing of a party's groups answers.
pub open spec fn get_user_groups_spec(
    pre: LedgerView,
    user: ResolvedView,
    limit: Option<u32>,
    start_after: Option<u64>,
) -> Result<Seq<GroupView>, StdErrorView> {
    match user {
        Err(e) => Err(e),
        Ok(name) => resolve(
            pre.groups,
            page(listed(pre.user_groups, name), limit, start_after),
            group_kind(),
        ),
    }
}

/// What the listing of a group's expenses answers.
pub open spec fn get_group_expenses_spec(
    pre: LedgerView,
    group_id: u64,
    limit: Option<u32>,
    start_after: Option<u64>,
) -> Result<Seq<ExpenseView>, StdErrorView> {
    if !pre.groups.contains_key(group_id) {
        Err(not_found("Group"@))
    } else {
        resolve(
            pre.expenses,
            page(listed(pre.group_expenses, group_id), limit, start_after),
            expense_kind(),
        )
    }
}

fn ids_above(v: &Vec<u64>, cursor: Option<u64>) -> (c: Vec<u64>)
    ensures
        c@ == v@.filter(above(cursor)),
{
    let ghost keep = above(cursor);
    let mut c: Vec<u64> = Vec::new();
    let mut i: usize = 0;
    proof {
        reveal(Seq::filter);
        assert(c@ =~= v@.take(0).filter(keep));
    }
    while i < v.len()
        invariant
            i <= v.len(),
            keep == above(cursor),
            c@ == v@.take(i as int).filter(keep),
        decreases v.len() - i,
    {
        proof {
            lemma_filter_step(v@, keep, i as int);
        }
        let behind = match cursor {
            Some(at) => v[i] > at,
            None => true,
        };
        if behind {
            c.push(v[i]);
        }
        i += 1;
    }
    assert(v@.take(i as int) =~= v@);
    c
}

fn page_of(ids: &Vec<u64>, limit: Option<u32>, start_after: Option<u64>) -> (p: Vec<u64>)
    ensures
        p@ == page(ids@, limit, start_after),
{
    let size: usize = match limit {
        Some(l) => if l < MAX_LIMIT {
            l as usize
        } else {
            MAX_LIMIT as usize
        },
        None => DEFAULT_LIMIT as usize,
    };
    let mut sorted = sort_ids(&ids_above(ids, start_after));
    if size < sorted.len() {
        sorted.truncate(size);
        assert(sorted@ =~= page(ids@, limit, start_after));
    }
    sorted
}

/// Lists the groups that `user` is a member of, a page at a time: those
/// with an identifier behind `start_after`, by identifier, at most `limit`
/// of them and never more than the largest page.
pub fn get_user_groups(
    ledger: &Ledger,
    user: Resolved,
    limit: Option<u32>,
    start_after: Option<u64>,
) -> (r: Result<GroupsResponse, StdError>)
    requires
        ledger.wf(),
    ensures
        outcome(r) == get_user_groups_spec(ledger@, party(user), limit, start_after),
{
    let ghost want = get_user_groups_spec(ledger@, party(user), limit, start_after);
    let name = match user {
        Ok(name) => name,
        Err(e) => {
            return Err(e);
        },
    };
    let ids = match ledger.user_groups.get(&name) {
        Some(ids) => page_of(ids, limit, start_after),
        None => page_of(&Vec::new(), limit, start_after),
    };
    let ghost bad = missing(ledger@.groups);
    assert(want == resolve(ledger@.groups, ids@, group_kind()));
    let mut groups: Vec<Group> = Vec::new();
    let mut i: usize = 0;
    while i < ids.len()
        invariant
            i <= ids.len(),
            ledger.wf(),
            bad == missing(ledger@.groups),
            want == resolve(ledger@.groups, ids@, group_kind()),
            want == get_user_groups_spec(ledger@, party(user), limit, start_after),
            groups.len() == i,
            forall|j: int| 0 <= j < i ==> !bad(#[trigger] ids@[j]),
            forall|j: int| 0 <= j < i ==> (#[trigger] groups@[j])@ == ledger@.groups[ids@[j]],
        decreases ids.len() - i,
    {
        match ledger.groups.get(&ids[i]) {
            Some(group) => {
                groups.push(group.duplicate());
            },
            None => {
                proof {
                    assert(bad(ids@[i as int]));
                    lemma_first_index(ids@, bad, i as int);
                }
                return Err(StdError::not_found("expense_splitter::state::Group"));
            },
        }
        i += 1;
    }
    proof {
        lemma_first_index(ids@, bad, i as int);
        assert(views(groups@) =~= Seq::new(ids@.len(), |i: int| ledger@.groups[ids@[i]]));
    }
    Ok(GroupsResponse { groups })
}

/// Lists the expenses posted against a group, a page at a time: those with
/// an identifier behind `start_after`, by identifier, at most `limit` of
/// them and never more than the largest page.
pub fn get_group_expenses(
    ledger: &Ledger,
    group_id: u64,
    limit: Option<u32>,
    start_after: Option<u64>,
) -> (r: Result<ExpensesResponse, StdError>)
    requires
        ledger.wf(),
    ensures
        outcome(r) == get_group_expenses_spec(ledger@, group_id, limit, start_after),
{
    let ghost want = get_group_expenses_spec(ledger@, group_id, limit, start_after);
    if !ledger.groups.contains_key(&group_id) {
        return Err(StdError::not_found("Group"));
    }
    let ids = match ledger.group_expenses.get(&group_id) {
        Some(ids) => page_of(ids, limit, start_after),
        None => page_of(&Vec::new(), limit, start_after),
    };
    let ghost bad = missing(ledger@.expenses);
    assert(want == resolve(ledger@.expenses, ids@, expense_kind()));
    let mut expenses: Vec<Expense> = Vec::new();
    let mut i: usize = 0;
    while i < ids.len()
        invariant
            i <= ids.len(),
            ledger.wf(),
            bad == missing(ledger@.expenses),
            want == resolve(ledger@.expenses, ids@, expense_kind()),
            want == get_group_expenses_spec(ledger@, group_id, limit, start_after),
            expenses.len() == i,
            forall|j: int| 0 <= j < i ==> !bad(#[trigger] ids@[j]),
            forall|j: int| 0 <= j < i ==> (#[trigger] expenses@[j])@ == ledger@.expenses[ids@[j]],
        decreases ids.len() - i,
    {
        match ledger.expenses.get(&ids[i]) {
            Some(expense) => {
                expenses.push(expense.duplicate());
            },
            None => {
                proof {
                    assert(bad(ids@[i as int]));
                    lemma_first_index(ids@, bad, i as int);
                }
                return Err(StdError::not_found("expense_splitter::state::Expense"));
            },
        }
        i += 1;
    }
    proof {
        lemma_first_index(ids@, bad, i as int);
        assert(views(expenses@) =~= Seq::new(ids@.len(), |i: int| ledger@.expenses[ids@[i]]));
    }
    Ok(ExpensesResponse { expenses })
}

/// What `debtor` owes a member, where it owes that member anything.
pub open spec fn debt_to(debts: Debts, group_id: u64, debtor: Seq<char>) -> spec_fn(
    Seq<char>,
) -> Option<DebtView> {
    |creditor: Seq<char>|
        if creditor != debtor && owed(debts, group_id, debtor, creditor) > 0 {
            Some(
                DebtView {
                    debtor,
                    creditor,
                    amount: owed(debts, group_id, debtor, creditor) as u128,
                },
            )
        } else {
            None
        }
}

/// The debts of the first `n` of `members` to any other of `members`: debtor
/// by debtor in the order of `members`, and for each debtor creditor by
/// creditor in that order.
pub open spec fn debts_among(debts: Debts, group_id: u64, members: Seq<Seq<char>>, n: nat) -> Seq<
    DebtView,
>
    decreases n,
{
    if n == 0 {
        Seq::empty()
    } else {
        debts_among(debts, group_id, members, (n - 1) as nat) + members.filter_map(
            debt_to(debts, group_id, members[n - 1]),
        )
    }
}

/// What the listing of a group's debts answers.
pub open spec fn get_debts_spec(pre: LedgerView, group_id: u64) -> Result<
    Seq<DebtView>,
    StdErrorView,
> {
    if !pre.groups.contains_key(group_id) {
        Err(not_found("Group"@))
    } else {
        let members = pre.groups[group_id].members;
        Ok(debts_among(pre.debts, group_id, members, members.len()))
    }
}

/// Lists every debt between two members of the group.
pub fn get_debts(ledger: &Ledger, group_id: u64) -> (r: Result<DebtsResponse, StdError>)
    requires
        ledger.wf(),
    ensures
        outcome(r) == get_debts_spec(ledger@, group_id),
{
    let group = match ledger.groups.get(&group_id) {
        Some(group) => group,
        None => {
            return Err(StdError::not_found("Group"));
        },
    };
    let ghost all = views(group.members@);
    let ghost book = ledger@.debts;
    let mut debts: Vec<Debt> = Vec::new();
    let mut i: usize = 0;
    assert(views(debts@) =~= debts_among(book, group_id, all, 0));
    while i < group.members.len()
        invariant
            i <= group.members.len(),
            ledger.wf(),
            book == ledger@.debts,
            all == views(group.members@),
            views(debts@) == debts_among(book, group_id, all, i as nat),
        decreases group.members.len() - i,
    {
        let debtor = &group.members[i];
        let ghost done = views(debts@);
        let ghost row = debt_to(book, group_id, all[i as int]);
        let mut j: usize = 0;
        assert(all.take(0).filter_map(row) =~= Seq::<DebtView>::empty());
        assert(views(debts@) =~= done + all.take(0).filter_map(row));
        while j < group.members.len()
            invariant
                j <= group.members.len(),
                i < group.members.len(),
                ledger.wf(),
                book == ledger@.debts,
                all == views(group.members@),
                debtor@ == all[i as int],
                row == debt_to(book, group_id, all[i as int]),
                views(debts@) == done + all.take(j as int).filter_map(row),
            decreases group.members.len() - j,
        {
            let creditor = &group.members[j];
            proof {
                all.lemma_filter_map_take_succ(row, j as int);
                assert(creditor@ == all[j as int]);
            }
            if *debtor != *creditor {
                let amount = ledger.debt(group_id, debtor, creditor);
                if amount != 0 {
                    let ghost listed_before = views(debts@);
                    let debt = Debt { debtor: debtor.clone(), creditor: creditor.clone(), amount };
                    assert(row(all[j as int]) == Some(debt@));
                    debts.push(debt);
                    assert(views(debts@) =~= listed_before.push(debt@));
                    assert(views(debts@) =~= done + all.take(j + 1).filter_map(row));
                }
            }
            j += 1;
        }
        assert(all.take(j as int) =~= all);
        i += 1;
    }
    Ok(DebtsResponse { debts })
}

/// Where `user` stands with a member, where either owes the other anything:
/// the difference of what they owe each other, and -1 where `user` owes
/// more than it is owed, 1 where it does not.
pub open spec fn standing(debts: Debts, group_id: u64, user: Seq<char>) -> spec_fn(
    Seq<char>,
) -> Option<BalanceView> {
    |other: Seq<char>|
        {
            let user_owes = owed(debts, group_id, user, other);
            let other_owes = owed(debts, group_id, other, user);
            if other == user || (user_owes == 0 && other_owes == 0) {
                None
            } else if user_owes > other_owes {
                Some(
                    BalanceView {
                        other_user: other,
                        amount: (user_owes - other_owes) as u128,
                        direction: -1i8,
                    },
                )
            } else {
                Some(
                    BalanceView {
                        other_user: other,
                        amount: (other_owes - user_owes) as u128,
                        direction: 1,
                    },
                )
            }
        }
}

/// The sum of the amounts of those of `balances` that have the direction
/// `direction`.
pub open spec fn total_of(balances: Seq<BalanceView>, direction: i8) -> nat
    decreases balances.len(),
{
    if balances.len() == 0 {
        0
    } else {
        total_of(balances.drop_last(), direction) + if balances.last().direction == direction {
            balances.last().amount as nat
        } else {
            0
        }
    }
}

/// The order in which balances are listed: what the party owes before what
/// it is owed, and within either by amount.
pub open spec fn owing_first() -> spec_fn(BalanceView, BalanceView) -> bool {
    |a: BalanceView, b: BalanceView|
        a.direction < b.direction || (a.direction == b.direction && a.amount <= b.amount)
}

/// The summary that is made of the balances `raw`, which are in the order
/// of the group's members.
pub open spec fn summary(raw: Seq<BalanceView>) -> SummaryView {
    let total_owed = total_of(raw, -1i8);
    let total_owed_to = total_of(raw, 1);
    SummaryView {
        balances: stable_sort(raw, owing_first()),
        total_owed: total_owed as u128,
        total_owed_to: total_owed_to as u128,
        net_balance: if total_owed_to >= total_owed {
            (total_owed_to - total_owed) as u128
        } else {
            0
        },
    }
}

/// What the balance summary of `user` within the group answers.
pub open spec fn get_balance_summary_spec(pre: LedgerView, group_id: u64, user: ResolvedView) -> Result<
    SummaryView,
    StdErrorView,
> {
    match user {
        Err(e) => Err(e),
        Ok(name) => {
            if !pre.groups.contains_key(group_id) {
                Err(not_found("Group"@))
            } else if !pre.groups[group_id].members.contains(name) {
                Err(StdErrorView::GenericErr { msg: "User is not a member of this group"@ })
            } else {
                Ok(
                    summary(
                        pre.groups[group_id].members.filter_map(
                            standing(pre.debts, group_id, name),
                        ),
                    ),
                )
            }
        },
    }
}

/// Whether both totals of the summary fit in 128 bits; they do where the
/// question is answered with an error.
pub open spec fn get_balance_summary_in_range(
    pre: LedgerView,
    group_id: u64,
    user: ResolvedView,
) -> bool {
    user is Ok && pre.groups.contains_key(group_id) && pre.groups[group_id].members.contains(
        user->Ok_0,
    ) ==> {
        let raw = pre.groups[group_id].members.filter_map(
            standing(pre.debts, group_id, user->Ok_0),
        );
        total_of(raw, -1i8) <= u128::MAX && total_of(raw, 1) <= u128::MAX
    }
}

/// The total over a front part of the members' balances is at most the
/// total over all.
pub proof fn lemma_total_of_grows(
    members: Seq<Seq<char>>,
    f: spec_fn(Seq<char>) -> Option<BalanceView>,
    direction: i8,
    i: int,
)
    requires
        0 <= i <= members.len(),
    ensures
        total_of(members.take(i).filter_map(f), direction) <= total_of(
            members.filter_map(f),
            direction,
        ),
    decreases members.len() - i,
{
    if i < members.len() {
        lemma_total_of_grows(members, f, direction, i + 1);
        lemma_standings_step(members, f, direction, i);
    } else {
        assert(members.take(i) =~= members);
    }
}

/// What one more member adds to the balances of a front part of the
/// members, and to their total.
pub proof fn lemma_standings_step(
    members: Seq<Seq<char>>,
    f: spec_fn(Seq<char>) -> Option<BalanceView>,
    direction: i8,
    i: int,
)
    requires
        0 <= i < members.len(),
    ensures
        ({
            let upto = members.take(i).filter_map(f);
            let next = members.take(i + 1).filter_map(f);
            match f(members[i]) {
                Some(b) => next == upto.push(b) && total_of(next, direction) == total_of(
                    upto,
                    direction,
                ) + if b.direction == direction {
                    b.amount as nat
                } else {
                    0
                },
                None => next == upto,
            }
        }),
{
    members.lemma_filter_map_take_succ(f, i);
    let upto = members.take(i).filter_map(f);
    let next = members.take(i + 1).filter_map(f);
    match f(members[i]) {
        Some(b) => {
            assert(next =~= upto.push(b));
            assert(next.drop_last() =~= upto);
        },
        None => {
            assert(next =~= upto);
        },
    }
}

fn sort_balances(v: &Vec<Balance>) -> (r: Vec<Balance>)
    ensures
        views(r@) == stable_sort(views(v@), owing_first()),
{
    let ghost all = views(v@);
    let mut r: Vec<Balance> = Vec::new();
    let mut i: usize = 0;
    assert(all.take(0) =~= Seq::<BalanceView>::empty());
    assert(views(r@) =~= Seq::<BalanceView>::empty());
    while i < v.len()
        invariant
            i <= v.len(),
            all == views(v@),
            views(r@) == stable_sort(all.take(i as int), owing_first()),
        decreases v.len() - i,
    {
        let x = Balance {
            other_user: v[i].other_user.clone(),
            amount: v[i].amount,
            direction: v[i].direction,
        };
        assert(x@ == all[i as int]);
        let ghost before = views(r@);
        let mut j: usize = r.len();
        while j > 0 && (r[j - 1].direction > x.direction || (r[j - 1].direction == x.direction
            && r[j - 1].amount > x.amount))
            invariant
                j <= r.len(),
                before == views(r@),
                forall|k: int| j <= k < r.len() ==> !owing_first()(#[trigger] before[k], x@),
            decreases j,
        {
            j -= 1;
        }
        proof {
            lemma_insert_at(before, x@, owing_first(), j as int);
            assert(all.take(i + 1).drop_last() =~= all.take(i as int));
        }
        r.insert(j, x);
        assert(views(r@) =~= before.insert(j as int, x@));
        i += 1;
    }
    assert(all.take(i as int) =~= all);
    r
}

/// Answers where `user` stands with each other member of the group, where
/// both totals fit in 128 bits, and `None` where one does not.
pub fn try_get_balance_summary(ledger: &Ledger, group_id: u64, user: Resolved) -> (r: Option<
    Result<BalanceSummaryResponse, StdError>,
>)
    requires
        ledger.wf(),
    ensures
        r is Some <==> get_balance_summary_in_range(ledger@, group_id, party(user)),
        r matches Some(res) ==> outcome(res) == get_balance_summary_spec(
            ledger@,
            group_id,
            party(user),
        ),
{
    let ghost asked = party(user);
    let name = match user {
        Ok(name) => name,
        Err(e) => {
            return Some(Err(e));
        },
    };
    let group = match ledger.groups.get(&group_id) {
        Some(group) => group,
        None => {
            return Some(Err(StdError::not_found("Group")));
        },
    };
    if !has_name(&group.members, &name) {
        return Some(Err(StdError::generic_err("User is not a member of this group")));
    }
    let ghost all = views(group.members@);
    let ghost f = standing(ledger@.debts, group_id, name@);
    let mut balances: Vec<Balance> = Vec::new();
    let mut total_owed: u128 = 0;
    let mut total_owed_to: u128 = 0;
    let mut i: usize = 0;
    assert(all.take(0).filter_map(f) =~= Seq::<BalanceView>::empty());
    assert(views(balances@) =~= Seq::<BalanceView>::empty());
    while i < group.members.len()
        invariant
            i <= group.members.len(),
            ledger.wf(),
            all == views(group.members@),
            ledger@.groups.contains_key(group_id),
            ledger@.groups[group_id].members == all,
            all.contains(name@),
            asked == Ok::<Seq<char>, StdErrorView>(name@),
            asked == party(user),
            f == standing(ledger@.debts, group_id, name@),
            views(balances@) == all.take(i as int).filter_map(f),
            total_owed == total_of(all.take(i as int).filter_map(f), -1i8),
            total_owed_to == total_of(all.take(i as int).filter_map(f), 1),
        decreases group.members.len() - i,
    {
        let other = &group.members[i];
        proof {
            assert(other@ == all[i as int]);
            lemma_standings_step(all, f, -1i8, i as int);
            lemma_standings_step(all, f, 1, i as int);
            lemma_total_of_grows(all, f, -1i8, i + 1);
            lemma_total_of_grows(all, f, 1, i + 1);
        }
        if *other != name {
            let user_owes = ledger.debt(group_id, &name, other);
            let other_owes = ledger.debt(group_id, other, &name);
            if user_owes != 0 || other_owes != 0 {
                if user_owes > other_owes {
                    let amount = user_owes - other_owes;
                    assert(f(all[i as int]) == Some(
                        BalanceView { other_user: other@, amount, direction: -1i8 },
                    ));
                    if total_owed > u128::MAX - amount {
                        return None;
                    }
                    total_owed = total_owed + amount;
                    balances.push(Balance { other_user: other.clone(), amount, direction: -1 });
                } else {
                    let amount = other_owes - user_owes;
                    assert(f(all[i as int]) == Some(
                        BalanceView { other_user: other@, amount, direction: 1i8 },
                    ));
                    if total_owed_to > u128::MAX - amount {
                        return None;
                    }
                    total_owed_to = total_owed_to + amount;
                    balances.push(Balance { other_user: other.clone(), amount, direction: 1 });
                }
                assert(views(balances@) =~= all.take(i + 1).filter_map(f));
            }
        }
        i += 1;
    }
    assert(all.take(i as int) =~= all);
    let sorted = sort_balances(&balances);
    let net_balance = if total_owed_to >= total_owed {
        total_owed_to - total_owed
    } else {
        0
    };
    Some(Ok(BalanceSummaryResponse { balances: sorted, total_owed, total_owed_to, net_balance }))
}

/// Answers where `user` stands with each other member of the group: one
/// balance for each member with whom anything is owed either way, what the
/// party owes first and by amount within either direction, and the totals.
pub fn get_balance_summary(ledger: &Ledger, group_id: u64, user: Resolved) -> (r: Result<
    BalanceSummaryResponse,
    StdError,
>)
    requires
        ledger.wf(),
        get_balance_summary_in_range(ledger@, group_id, party(user)),
    ensures
        outcome(r) == get_balance_summary_spec(ledger@, group_id, party(user)),
{
    try_get_balance_summary(ledger, group_id, user).unwrap()
}

} // verus!
