//! What holds of the operations whatever the ledger and the call, proved
//! from the operations' contracts.
use vstd::prelude::*;
use crate::consistency::{
    lemma_add_expense_consistent, lemma_cleared_consistent, lemma_create_group_consistent,
    lemma_join_group_consistent, lemma_leave_group_consistent, lemma_settle_debt_consistent,
    lemma_sharers,
};
use crate::contract::{execute_in_range, execute_post};
use crate::error::{ErrorView, StdErrorView};
use crate::expenses::{
    add_expense_error, add_expense_in_range, add_expense_post, charge, charge_fits, charged,
    outsider, per_head, sharers,
};
use crate::host::{names_of, ResolvedView, ResponseView};
use crate::msg::{BalanceView, ExecuteMsgView, SummaryView};
use crate::queries::{
    above, get_balance_summary_spec, get_expense_spec, get_group_expenses_spec, get_group_spec,
    get_user_groups_spec, missing, owing_first, page, page_size, standing, summary, total_of,
    MAX_LIMIT,
};
use crate::registry::{
    create_group_error, create_group_post, founders, join_group_error, leave_group_error,
    leave_group_post, unresolved,
};
use crate::seqs::{
    lemma_distinct, lemma_filter_members, lemma_filter_step, lemma_first_index,
    lemma_first_index_bounds, lemma_take_step, other_than,
};
use crate::settlement::{
    dues, settle_all_debts_error, settle_all_debts_post, settle_debt_error, settle_debt_post,
    total_due,
};
use crate::sorting::{
    ascending, insert_by, lemma_stable_sort, sorted, stable_sort, total_preorder,
};
use crate::state::{listed, owed, Debts, LedgerView};

verus! {

/// A group that was created is found under the next identifier, with the
/// caller as its creator and first member. Its members are the caller and
/// the parties that the caller named, each once: at most 51.
pub proof fn law_created_group(
    pre: LedgerView,
    time: u64,
    sender: Seq<char>,
    name: Seq<char>,
    members: Seq<ResolvedView>,
    post: LedgerView,
    result: Result<ResponseView, ErrorView>,
)
    requires
        pre.group_count < u64::MAX,
        create_group_post(pre, time, sender, name, members, post, result),
        result is Ok,
    ensures
        get_group_spec(post, (pre.group_count + 1) as u64) is Ok,
        ({
            let group = get_group_spec(post, (pre.group_count + 1) as u64)->Ok_0;
            &&& group.creator == sender
            &&& group.members[0] == sender
            &&& group.members.contains(sender)
            &&& group.members.no_duplicates()
            &&& group.members.len() <= members.len() + 1 <= 51
            &&& forall|m: Seq<char>|
                group.members.contains(m) <==> m == sender || exists|i: int|
                    0 <= i < members.len() && #[trigger] members[i] == Ok::<
                        Seq<char>,
                        StdErrorView,
                    >(m)
        }),
{
    let pool = seq![sender] + names_of(members);
    let who = founders(sender, members);
    lemma_distinct(pool);
    lemma_first_index_bounds(members, unresolved());
    assert(create_group_error(name, members) is None);
    assert(pool[0] == sender);
    assert(who.contains(sender));
    assert forall|m: Seq<char>|
        who.contains(m) <==> m == sender || exists|i: int|
            0 <= i < members.len() && #[trigger] members[i] == Ok::<Seq<char>, StdErrorView>(
                m,
            ) by {
        if pool.contains(m) {
            let k = choose|k: int| 0 <= k < pool.len() && pool[k] == m;
            if k > 0 {
                assert(!unresolved()(members[k - 1]));
                assert(members[k - 1] == Ok::<Seq<char>, StdErrorView>(m));
            }
        }
        if exists|i: int|
            0 <= i < members.len() && #[trigger] members[i] == Ok::<Seq<char>, StdErrorView>(m) {
            let i = choose|i: int|
                0 <= i < members.len() && #[trigger] members[i] == Ok::<Seq<char>, StdErrorView>(
                    m,
                );
            assert(pool[i + 1] == m);
        }
    }
}

/// An expense that was posted is found under the next identifier. Its
/// amount is not zero, the caller paid it and is a member of the group, and
/// those who share it are members of the group, each once and at least one:
/// all members where the caller named nobody.
pub proof fn law_posted_expense(
    pre: LedgerView,
    time: u64,
    sender: Seq<char>,
    group_id: u64,
    description: Seq<char>,
    amount: u128,
    split: Seq<ResolvedView>,
    post: LedgerView,
    result: Result<ResponseView, ErrorView>,
)
    requires
        pre.valid(),
        pre.expense_count < u64::MAX,
        add_expense_post(pre, time, sender, group_id, description, amount, split, post, result),
        result is Ok,
    ensures
        get_expense_spec(post, (pre.expense_count + 1) as u64) is Ok,
        ({
            let expense = get_expense_spec(post, (pre.expense_count + 1) as u64)->Ok_0;
            let members = pre.groups[group_id].members;
            &&& pre.groups.contains_key(group_id)
            &&& expense.group_id == group_id
            &&& expense.amount == amount > 0
            &&& expense.paid_by == sender
            &&& members.contains(sender)
            &&& expense.split_between.len() > 0
            &&& expense.split_between.no_duplicates()
            &&& forall|m: Seq<char>| #[trigger]
                expense.split_between.contains(m) ==> members.contains(m)
            &&& split.len() == 0 ==> expense.split_between == members
            &&& !expense.settled
        }),
{
    let members = pre.groups[group_id].members;
    lemma_first_index_bounds(split, outsider(members));
    lemma_sharers(members, split);
}

/// What the debts of `who`, other than the payer, to the payer have risen
/// by from `before` to `after`, taken together.
pub open spec fn raised(
    before: Debts,
    after: Debts,
    group_id: u64,
    payer: Seq<char>,
    who: Seq<Seq<char>>,
) -> int
    decreases who.len(),
{
    if who.len() == 0 {
        0
    } else {
        raised(before, after, group_id, payer, who.drop_last()) + if who.last() != payer {
            owed(after, group_id, who.last(), payer) - owed(before, group_id, who.last(), payer)
        } else {
            0
        }
    }
}

/// How many of `who` are other than the payer.
pub open spec fn others(who: Seq<Seq<char>>, payer: Seq<char>) -> nat {
    who.filter(other_than(payer)).len()
}

proof fn lemma_raised_front(
    before: Debts,
    group_id: u64,
    payer: Seq<char>,
    who: Seq<Seq<char>>,
    share: u128,
    i: int,
)
    requires
        0 <= i <= who.len(),
        charge_fits(before, group_id, payer, who, share),
    ensures
        raised(before, charge(before, group_id, payer, who, share), group_id, payer, who.take(i))
            == share * others(who.take(i), payer),
        others(who.take(i), payer) <= i,
        who.take(i).contains(payer) && who.no_duplicates() ==> others(who.take(i), payer) == i
            - 1,
        !who.take(i).contains(payer) ==> others(who.take(i), payer) == i,
    decreases i,
{
    let after = charge(before, group_id, payer, who, share);
    if i == 0 {
        reveal(Seq::filter);
        assert(who.take(0).filter(other_than(payer)).len() == 0);
        assert(share * 0 == 0);
    } else {
        let upto = who.take(i - 1);
        let next = who.take(i);
        let m = who[i - 1];
        lemma_raised_front(before, group_id, payer, who, share, i - 1);
        lemma_filter_step(who, other_than(payer), i - 1);
        assert(next.drop_last() =~= upto);
        assert(next.last() == m);
        let n = others(upto, payer);
        if m != payer {
            assert(charged((group_id, m, payer), group_id, payer, who));
            assert(owed(after, group_id, m, payer) - owed(before, group_id, m, payer) == share);
            assert(share * (n + 1) == share * n + share) by (nonlinear_arith);
        }
        lemma_take_step(who, i - 1);
    }
}

/// When `who` are charged their share of `amount`, the debt of each of them
/// but the payer to the payer rises by the share and no other debt changes.
/// Taken together the debts rise by the share times the number of those
/// sharers, and never by more than `amount`.
pub proof fn lemma_charge_sum(
    before: Debts,
    group_id: u64,
    payer: Seq<char>,
    who: Seq<Seq<char>>,
    amount: u128,
)
    requires
        who.no_duplicates(),
        charge_fits(before, group_id, payer, who, per_head(amount, who.len())),
    ensures
        ({
            let share = per_head(amount, who.len());
            let after = charge(before, group_id, payer, who, share);
            &&& raised(before, after, group_id, payer, who) == share * others(who, payer)
            &&& who.contains(payer) ==> others(who, payer) == who.len() - 1
            &&& !who.contains(payer) ==> others(who, payer) == who.len()
            &&& share * others(who, payer) <= amount
            &&& forall|k: (u64, Seq<char>, Seq<char>)|
                !charged(k, group_id, payer, who) ==> owed(after, k.0, k.1, k.2) == owed(
                    before,
                    k.0,
                    k.1,
                    k.2,
                )
            &&& forall|i: int|
                0 <= i < who.len() && #[trigger] who[i] != payer ==> owed(
                    after,
                    group_id,
                    who[i],
                    payer,
                ) == owed(before, group_id, who[i], payer) + share
        }),
{
    let share = per_head(amount, who.len());
    let after = charge(before, group_id, payer, who, share);
    lemma_raised_front(before, group_id, payer, who, share, who.len() as int);
    assert(who.take(who.len() as int) =~= who);
    let n = others(who, payer);
    let k = who.len();
    if k > 0 {
        assert(share * k <= amount) by (nonlinear_arith)
            requires
                k > 0,
                share == amount as nat / k,
        ;
        assert(share * n <= share * k) by (nonlinear_arith)
            requires
                n <= k,
                share >= 0,
        ;
    } else {
        assert(share * n == 0) by (nonlinear_arith)
            requires
                share == 0,
        ;
    }
    assert forall|i: int| 0 <= i < who.len() && #[trigger] who[i] != payer implies owed(
        after,
        group_id,
        who[i],
        payer,
    ) == owed(before, group_id, who[i], payer) + share by {
        assert(charged((group_id, who[i], payer), group_id, payer, who));
    }
}

/// When an expense of `amount` is split among `k` sharers, the debt of each
/// sharer other than the payer to the payer rises by `amount / k`, rounded
/// down, and no other debt changes. Taken together the debts rise by that
/// share times the number of those sharers, which is `k - 1` where the payer
/// shares the expense, and never by more than `amount`: what the division
/// leaves over is charged to nobody.
pub proof fn law_split_sum(
    pre: LedgerView,
    time: u64,
    sender: Seq<char>,
    group_id: u64,
    description: Seq<char>,
    amount: u128,
    split: Seq<ResolvedView>,
    post: LedgerView,
    result: Result<ResponseView, ErrorView>,
)
    requires
        pre.valid(),
        add_expense_in_range(pre, sender, group_id, description, amount, split),
        add_expense_post(pre, time, sender, group_id, description, amount, split, post, result),
        result is Ok,
    ensures
        ({
            let who = sharers(pre.groups[group_id].members, split);
            let share = per_head(amount, who.len());
            &&& who.len() > 0
            &&& share == amount as nat / who.len()
            &&& raised(pre.debts, post.debts, group_id, sender, who) == share * others(who, sender)
            &&& who.contains(sender) ==> others(who, sender) == who.len() - 1
            &&& !who.contains(sender) ==> others(who, sender) == who.len()
            &&& share * others(who, sender) <= amount
            &&& forall|i: int|
                0 <= i < who.len() && #[trigger] who[i] != sender ==> owed(
                    post.debts,
                    group_id,
                    who[i],
                    sender,
                ) == owed(pre.debts, group_id, who[i], sender) + share
            &&& forall|k: (u64, Seq<char>, Seq<char>)|
                !charged(k, group_id, sender, who) ==> owed(post.debts, k.0, k.1, k.2) == owed(
                    pre.debts,
                    k.0,
                    k.1,
                    k.2,
                )
        }),
{
    let members = pre.groups[group_id].members;
    let who = sharers(members, split);
    lemma_first_index_bounds(split, outsider(members));
    lemma_sharers(members, split);
    lemma_charge_sum(pre.debts, group_id, sender, who, amount);
}

/// A payment to one creditor never exceeds what is owed. It leaves the debt
/// less by the payment, and takes the entry away where nothing is left, so
/// that a look-up then finds no debt. No other debt changes.
pub proof fn law_settle_debt(
    pre: LedgerView,
    sender: Seq<char>,
    funds: u128,
    group_id: u64,
    to: ResolvedView,
    amount: u128,
    post: LedgerView,
    result: Result<ResponseView, ErrorView>,
)
    requires
        settle_debt_post(pre, sender, funds, group_id, to, amount, post, result),
    ensures
        to is Ok && amount > owed(pre.debts, group_id, sender, to->Ok_0) ==> result is Err,
        result is Err ==> post == pre,
        result is Ok ==> ({
            let before = owed(pre.debts, group_id, sender, to->Ok_0);
            let key = (group_id, sender, to->Ok_0);
            &&& to is Ok
            &&& 0 < amount <= before
            &&& owed(post.debts, group_id, sender, to->Ok_0) == before - amount
            &&& before == amount ==> !post.debts.contains_key(key)
            &&& forall|k: (u64, Seq<char>, Seq<char>)|
                k != key ==> owed(post.debts, k.0, k.1, k.2) == owed(pre.debts, k.0, k.1, k.2)
        }),
{
}

/// Paying all creditors is all or nothing. Where the funds attached to the
/// call are less than the sum of what the caller owes the members of the
/// group, the call is rejected, and a rejected call takes no debt away and
/// asks for no transfer. An accepted call leaves the caller owing no member
/// anything and asks for one transfer for each creditor.
pub proof fn law_settle_all_or_nothing(
    pre: LedgerView,
    sender: Seq<char>,
    funds: u128,
    group_id: u64,
    post: LedgerView,
    result: Result<ResponseView, ErrorView>,
)
    requires
        settle_all_debts_post(pre, sender, funds, group_id, post, result),
    ensures
        result is Err ==> post == pre,
        pre.groups.contains_key(group_id) && funds < total_due(
            dues(pre.debts, group_id, sender, pre.groups[group_id].members),
        ) ==> result is Err,
        result is Ok ==> ({
            let members = pre.groups[group_id].members;
            &&& pre.groups.contains_key(group_id)
            &&& result->Ok_0.messages.len() == dues(pre.debts, group_id, sender, members).len()
            &&& forall|i: int|
                0 <= i < members.len() && #[trigger] members[i] != sender ==> owed(
                    post.debts,
                    group_id,
                    sender,
                    members[i],
                ) == 0
        }),
{
}

proof fn lemma_total_of_insert(
    s: Seq<BalanceView>,
    x: BalanceView,
    leq: spec_fn(BalanceView, BalanceView) -> bool,
    direction: i8,
)
    ensures
        total_of(insert_by(s, x, leq), direction) == total_of(s, direction) + if x.direction
            == direction {
            x.amount as nat
        } else {
            0
        },
    decreases s.len(),
{
    if s.len() == 0 {
        assert(seq![x].drop_last() =~= s);
    } else if leq(s.last(), x) {
        assert(s.push(x).drop_last() =~= s);
    } else {
        lemma_total_of_insert(s.drop_last(), x, leq, direction);
        let r = insert_by(s.drop_last(), x, leq);
        assert(r.push(s.last()).drop_last() =~= r);
    }
}

proof fn lemma_total_of_sorted(
    s: Seq<BalanceView>,
    leq: spec_fn(BalanceView, BalanceView) -> bool,
    direction: i8,
)
    ensures
        total_of(stable_sort(s, leq), direction) == total_of(s, direction),
    decreases s.len(),
{
    if s.len() > 0 {
        lemma_total_of_sorted(s.drop_last(), leq, direction);
        lemma_total_of_insert(stable_sort(s.drop_last(), leq), s.last(), leq, direction);
    }
}

/// The order in which balances are listed orders any two balances, and
/// transitively.
pub proof fn lemma_owing_first_orders()
    ensures
        total_preorder(owing_first()),
{
}

/// A balance summary lists a member only where the party owes that member
/// something or that member owes the party something, and lists no member
/// twice; what the party owes comes before what it is owed, and within
/// either the amounts ascend. The two totals are the sums of the listed
/// amounts of either direction, and the net balance is what the party is
/// owed less what it owes, or zero where that would be negative.
pub proof fn law_balance_summary(
    pre: LedgerView,
    group_id: u64,
    user: ResolvedView,
    answer: SummaryView,
)
    requires
        pre.valid(),
        get_balance_summary_spec(pre, group_id, user) == Ok::<SummaryView, StdErrorView>(answer),
        total_of(
            pre.groups[group_id].members.filter_map(standing(pre.debts, group_id, user->Ok_0)),
            -1i8,
        ) <= u128::MAX,
        total_of(
            pre.groups[group_id].members.filter_map(standing(pre.debts, group_id, user->Ok_0)),
            1i8,
        ) <= u128::MAX,
    ensures
        forall|i: int|
            0 <= i < answer.balances.len() ==> ({
                let b = #[trigger] answer.balances[i];
                &&& pre.groups[group_id].members.contains(b.other_user)
                &&& b.other_user != user->Ok_0
                &&& owed(pre.debts, group_id, user->Ok_0, b.other_user) > 0 || owed(
                    pre.debts,
                    group_id,
                    b.other_user,
                    user->Ok_0,
                ) > 0
                &&& Some(b) == standing(pre.debts, group_id, user->Ok_0)(b.other_user)
            }),
        forall|i: int, j: int|
            0 <= i < j < answer.balances.len() ==> answer.balances[i].other_user
                != answer.balances[j].other_user,
        sorted(answer.balances, owing_first()),
        answer.total_owed == total_of(answer.balances, -1i8),
        answer.total_owed_to == total_of(answer.balances, 1i8),
        answer.net_balance >= 0,
        answer.net_balance == if answer.total_owed_to >= answer.total_owed {
            answer.total_owed_to - answer.total_owed
        } else {
            0
        },
{
    let name = user->Ok_0;
    let members = pre.groups[group_id].members;
    let f = standing(pre.debts, group_id, name);
    let raw = members.filter_map(f);
    assert(answer == summary(raw));
    lemma_total_of_sorted(raw, owing_first(), -1i8);
    lemma_total_of_sorted(raw, owing_first(), 1i8);
    lemma_owing_first_orders();
    lemma_stable_sort(raw, owing_first());
    lemma_standings_members(members, f);
    assert forall|i: int| 0 <= i < answer.balances.len() implies ({
        let b = #[trigger] answer.balances[i];
        &&& members.contains(b.other_user)
        &&& b.other_user != name
        &&& owed(pre.debts, group_id, name, b.other_user) > 0 || owed(
            pre.debts,
            group_id,
            b.other_user,
            name,
        ) > 0
        &&& Some(b) == f(b.other_user)
    }) by {
        let b = answer.balances[i];
        assert(answer.balances.contains(b));
        assert(raw.contains(b));
        let m = choose|m: Seq<char>| members.contains(m) && f(m) == Some(b);
        assert(b.other_user == m);
    }
    assert forall|i: int, j: int| 0 <= i < j < answer.balances.len() implies answer.balances[i].other_user
        != answer.balances[j].other_user by {
        let a = answer.balances[i];
        let b = answer.balances[j];
        assert(Some(a) == f(a.other_user));
        assert(Some(b) == f(b.other_user));
        assert(members.no_duplicates());
        assert(answer.balances.no_duplicates());
    }
}

/// Every balance of the members comes from a member, and where no member
/// occurs twice, no balance does.
proof fn lemma_standings_members(
    members: Seq<Seq<char>>,
    f: spec_fn(Seq<char>) -> Option<BalanceView>,
)
    requires
        forall|m: Seq<char>| (#[trigger] f(m)) is Some ==> f(m)->0.other_user == m,
    ensures
        forall|b: BalanceView| #[trigger]
            members.filter_map(f).contains(b) ==> exists|m: Seq<char>|
                members.contains(m) && f(m) == Some(b),
        members.no_duplicates() ==> members.filter_map(f).no_duplicates(),
    decreases members.len(),
{
    if members.len() > 0 {
        let t = members.drop_last();
        let x = members.last();
        lemma_standings_members(t, f);
        let ft = t.filter_map(f);
        let fs = members.filter_map(f);
        assert forall|b: BalanceView| #[trigger] fs.contains(b) implies exists|m: Seq<char>|
            members.contains(m) && f(m) == Some(b) by {
            let j = choose|j: int| 0 <= j < fs.len() && fs[j] == b;
            if j < ft.len() {
                assert(ft[j] == b);
                assert(ft.contains(b));
                let m = choose|m: Seq<char>| t.contains(m) && f(m) == Some(b);
                let k = choose|k: int| 0 <= k < t.len() && t[k] == m;
                assert(members[k] == m);
                assert(members.contains(m) && f(m) == Some(b));
            } else {
                assert(f(x) == Some(b));
                assert(members[members.len() - 1] == x);
                assert(members.contains(x) && f(x) == Some(b));
            }
        }
        if members.no_duplicates() {
            assert forall|i: int, j: int| 0 <= i < j < t.len() implies t[i] != t[j] by {
                assert(members[i] != members[j]);
            }
            assert forall|i: int, j: int| 0 <= i < j < fs.len() implies fs[i] != fs[j] by {
                if j == ft.len() {
                    assert(ft[i] == fs[i]);
                    assert(ft.contains(ft[i]));
                    let m = choose|m: Seq<char>| t.contains(m) && f(m) == Some(ft[i]);
                    let k = choose|k: int| 0 <= k < t.len() && t[k] == m;
                    assert(members[k] != members[members.len() - 1]);
                } else {
                    assert(ft[i] != ft[j]);
                }
            }
        }
    }
}

/// Nobody leaves a group while it owes another member anything or another
/// member owes it anything: the call is rejected and changes nothing. The
/// last member can always leave, and the group and the list of its expenses
/// go with it.
pub proof fn law_leave_group(
    pre: LedgerView,
    sender: Seq<char>,
    group_id: u64,
    post: LedgerView,
    result: Result<ResponseView, ErrorView>,
    other: Seq<char>,
)
    requires
        leave_group_post(pre, sender, group_id, post, result),
        pre.groups.contains_key(group_id),
        pre.groups[group_id].members.contains(sender),
    ensures
        pre.groups[group_id].members.contains(other) && other != sender && (owed(
            pre.debts,
            group_id,
            sender,
            other,
        ) > 0 || owed(pre.debts, group_id, other, sender) > 0) ==> result is Err && post == pre,
        pre.groups[group_id].members.len() == 1 ==> result is Ok && !post.groups.contains_key(
            group_id,
        ) && !post.group_expenses.contains_key(group_id),
        result is Ok ==> post.groups.contains_key(group_id) ==> 
            !post.groups[group_id].members.contains(sender),
{
    let members = pre.groups[group_id].members;
    lemma_filter_members(members, other_than(sender));
    if members.contains(other) && other != sender && (owed(pre.debts, group_id, sender, other) > 0
        || owed(pre.debts, group_id, other, sender) > 0) {
        let i = choose|i: int| 0 <= i < members.len() && members[i] == other;
        assert(members[i] != sender);
    }
    if members.len() == 1 {
        let k = choose|k: int| 0 <= k < members.len() && members[k] == sender;
        assert(members[0] == sender);
        let rest = members.filter(other_than(sender));
        if rest.len() > 0 {
            assert(rest.contains(rest[0]));
            let j = choose|j: int| 0 <= j < members.len() && members[j] == rest[0];
        }
    }
}

/// A page holds at most as many identifiers as were asked for and never
/// more than 30, all of them from the list and behind the cursor, in
/// ascending order: strictly where the list holds none twice. It holds the
/// lowest of them: one that is left out is not below any that is in.
pub proof fn law_page(ids: Seq<u64>, limit: Option<u32>, start_after: Option<u64>)
    ensures
        ({
            let p = page(ids, limit, start_after);
            &&& p.len() <= page_size(limit) <= MAX_LIMIT
            &&& limit matches Some(l) ==> p.len() <= l
            &&& forall|i: int| 0 <= i < p.len() ==> ids.contains(#[trigger] p[i])
            &&& forall|i: int|
                0 <= i < p.len() && start_after is Some ==> #[trigger] p[i] > start_after->0
            &&& forall|i: int, j: int| 0 <= i < j < p.len() ==> p[i] <= p[j]
            &&& ids.no_duplicates() ==> forall|i: int, j: int| 0 <= i < j < p.len() ==> p[i] < p[j]
            &&& forall|x: u64|
                ids.contains(x) && above(start_after)(x) && !p.contains(x) ==> p.len()
                    == page_size(limit) && forall|i: int| 0 <= i < p.len() ==> p[i] <= x
        }),
{
    let keep = above(start_after);
    let behind = ids.filter(keep);
    let s = stable_sort(behind, ascending());
    let p = page(ids, limit, start_after);
    lemma_filter_members(ids, keep);
    lemma_stable_sort(behind, ascending());
    assert(total_preorder(ascending()));
    assert forall|i: int| 0 <= i < p.len() implies ids.contains(#[trigger] p[i]) && keep(p[i]) by {
        assert(s[i] == p[i]);
        assert(s.contains(s[i]));
        assert(behind.contains(p[i]));
    }
    assert forall|i: int, j: int| 0 <= i < j < p.len() implies p[i] <= p[j] by {
        assert(ascending()(s[i], s[j]));
    }
    if ids.no_duplicates() {
        assert forall|i: int, j: int| 0 <= i < j < p.len() implies p[i] < p[j] by {
            assert(ascending()(s[i], s[j]));
            assert(s[i] != s[j]);
        }
    }
    assert forall|x: u64| ids.contains(x) && keep(x) && !p.contains(x) implies p.len()
        == page_size(limit) && forall|i: int| 0 <= i < p.len() ==> p[i] <= x by {
        assert(behind.contains(x));
        assert(s.contains(x));
        let k = choose|k: int| 0 <= k < s.len() && s[k] == x;
        if k < p.len() {
            assert(p[k] == x);
        }
        assert forall|i: int| 0 <= i < p.len() implies p[i] <= x by {
            assert(ascending()(s[i], s[k]));
        }
    }
}

/// In a consistent ledger the listing of a party's groups finds every
/// group that it lists. The groups come strictly ascending by identifier,
/// each behind the cursor, each with the party among its members, at most
/// as many as the page takes.
pub proof fn law_user_groups_listing(
    pre: LedgerView,
    user: Seq<char>,
    limit: Option<u32>,
    start_after: Option<u64>,
)
    requires
        pre.consistent(),
    ensures
        get_user_groups_spec(pre, Ok(user), limit, start_after) is Ok,
        ({
            let groups = get_user_groups_spec(pre, Ok(user), limit, start_after)->Ok_0;
            &&& groups.len() <= page_size(limit) <= MAX_LIMIT
            &&& forall|i: int| 0 <= i < groups.len() ==> (#[trigger] groups[i]).members.contains(user)
            &&& forall|i: int|
                0 <= i < groups.len() && start_after is Some ==> (#[trigger] groups[i]).id
                    > start_after->0
            &&& forall|i: int, j: int| 0 <= i < j < groups.len() ==> groups[i].id < groups[j].id
        }),
{
    let list = listed(pre.user_groups, user);
    let ids = page(list, limit, start_after);
    law_page(list, limit, start_after);
    assert forall|i: int| 0 <= i < ids.len() implies !missing(pre.groups)(#[trigger] ids[i])
        && pre.groups[ids[i]].id == ids[i] && pre.groups[ids[i]].members.contains(user) by {
        assert(list.contains(ids[i]));
        assert(pre.indexed(user, ids[i]));
        assert(pre.member(user, ids[i]));
    }
    lemma_first_index(ids, missing(pre.groups), ids.len() as int);
}

/// In a consistent ledger the listing of a group's expenses finds every
/// expense that it lists. The expenses come strictly ascending by
/// identifier, each behind the cursor, each posted against the group, at
/// most as many as the page takes.
pub proof fn law_group_expenses_listing(
    pre: LedgerView,
    group_id: u64,
    limit: Option<u32>,
    start_after: Option<u64>,
)
    requires
        pre.consistent(),
        pre.groups.contains_key(group_id),
    ensures
        get_group_expenses_spec(pre, group_id, limit, start_after) is Ok,
        ({
            let expenses = get_group_expenses_spec(pre, group_id, limit, start_after)->Ok_0;
            &&& expenses.len() <= page_size(limit) <= MAX_LIMIT
            &&& forall|i: int| 0 <= i < expenses.len() ==> (#[trigger] expenses[i]).group_id == group_id
            &&& forall|i: int|
                0 <= i < expenses.len() && start_after is Some ==> (#[trigger] expenses[i]).id
                    > start_after->0
            &&& forall|i: int, j: int|
                0 <= i < j < expenses.len() ==> expenses[i].id < expenses[j].id
        }),
{
    let list = listed(pre.group_expenses, group_id);
    let ids = page(list, limit, start_after);
    law_page(list, limit, start_after);
    assert(pre.group_expenses.contains_key(group_id));
    assert forall|i: int| 0 <= i < ids.len() implies !missing(pre.expenses)(#[trigger] ids[i])
        && pre.expenses[ids[i]].id == ids[i] && pre.expenses[ids[i]].group_id == group_id by {
        assert(list.contains(ids[i]));
        assert(pre.filed(group_id, ids[i]));
        assert(pre.posted(group_id, ids[i]));
    }
    lemma_first_index(ids, missing(pre.expenses), ids.len() as int);
}

/// Whatever message a valid and consistent ledger takes, it stays valid and
/// consistent: every group keeps a member and lists none twice, both
/// indices stay true to the groups and the expenses, no identifier is given
/// twice, and debts stand between members only.
pub proof fn law_execute_keeps_consistent(
    pre: LedgerView,
    time: u64,
    sender: Seq<char>,
    funds: u128,
    msg: ExecuteMsgView,
    post: LedgerView,
    result: Result<ResponseView, ErrorView>,
)
    requires
        pre.valid(),
        pre.consistent(),
        execute_in_range(pre, sender, msg),
        execute_post(pre, time, sender, funds, msg, post, result),
    ensures
        post.valid(),
        post.consistent(),
        post.group_count >= pre.group_count,
        post.expense_count >= pre.expense_count,
        result is Err ==> post == pre,
{
    match msg {
        ExecuteMsgView::CreateGroup { name, members } => {
            if create_group_error(name, members) is None {
                lemma_create_group_consistent(pre, time, sender, name, members);
            }
        },
        ExecuteMsgView::AddExpense { group_id, description, amount, split_between } => {
            if add_expense_error(pre, sender, group_id, description, amount, split_between)
                is None {
                lemma_add_expense_consistent(
                    pre,
                    time,
                    sender,
                    group_id,
                    description,
                    amount,
                    split_between,
                );
            }
        },
        ExecuteMsgView::SettleDebt { group_id, to, amount } => {
            if settle_debt_error(pre, sender, funds, group_id, to, amount) is None {
                lemma_settle_debt_consistent(pre, sender, funds, group_id, to, amount);
            }
        },
        ExecuteMsgView::SettleAllDebts { group_id } => {
            if settle_all_debts_error(pre, sender, funds, group_id) is None {
                lemma_cleared_consistent(pre, sender, group_id, pre.groups[group_id].members);
            }
        },
        ExecuteMsgView::JoinGroup { group_id } => {
            if join_group_error(pre, sender, group_id) is None {
                lemma_join_group_consistent(pre, sender, group_id);
            }
        },
        ExecuteMsgView::LeaveGroup { group_id } => {
            if leave_group_error(pre, sender, group_id) is None {
                lemma_leave_group_consistent(pre, sender, group_id);
            }
        },
    }
}

} // verus!
