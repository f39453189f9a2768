//! Every operation keeps a consistent ledger consistent.
use vstd::prelude::*;
use crate::expenses::{add_expense_error, add_expense_ledger, charged, per_head, sharers};
use crate::host::{names_of, ResolvedView};
use crate::registry::{
    create_group_error, create_group_ledger, entangled, founders, join_group_error,
    join_group_ledger, leave_group_error, leave_group_ledger,
};
use crate::seqs::{lemma_distinct, lemma_filter_members, lemma_first_index_bounds, lemma_push, other_than};
use crate::settlement::{cleared, pay_down, settle_debt_error};
use crate::state::{listed, owed, LedgerView};

verus! {

/// Creating a group keeps a consistent ledger consistent.
pub proof fn lemma_create_group_consistent(
    pre: LedgerView,
    time: u64,
    sender: Seq<char>,
    name: Seq<char>,
    members: Seq<ResolvedView>,
)
    requires
        pre.valid(),
        pre.consistent(),
        pre.group_count < u64::MAX,
        create_group_error(name, members) is None,
    ensures
        create_group_ledger(pre, time, sender, name, members).valid(),
        create_group_ledger(pre, time, sender, name, members).consistent(),
{
    let post = create_group_ledger(pre, time, sender, name, members);
    let id = (pre.group_count + 1) as u64;
    let who = founders(sender, members);
    lemma_distinct(seq![sender] + names_of(members));
    assert(!pre.groups.contains_key(id));
    assert forall|user: Seq<char>, g: u64|
        #![trigger post.indexed(user, g)]
        #![trigger post.member(user, g)]
        post.indexed(user, g) == post.member(user, g) by {
        assert(pre.indexed(user, g) == pre.member(user, g));
        assert(pre.indexed(user, id) == pre.member(user, id));
        lemma_push(listed(pre.user_groups, user), id);
    }
    assert forall|user: Seq<char>| #[trigger] post.user_groups.contains_key(user) implies post.user_groups[user].no_duplicates()
        && post.user_groups[user].len() > 0 by {
        assert(pre.indexed(user, id) == pre.member(user, id));
        lemma_push(listed(pre.user_groups, user), id);
    }
    assert forall|g: u64, e: u64|
        #![trigger post.filed(g, e)]
        #![trigger post.posted(g, e)]
        post.filed(g, e) == post.posted(g, e) by {
        assert(pre.filed(g, e) == pre.posted(g, e));
        assert(post.group_expenses[id] =~= Seq::<u64>::empty());
    }
    assert forall|k: (u64, Seq<char>, Seq<char>)| #[trigger]
        post.debts.contains_key(k) implies post.member(k.1, k.0) && post.member(k.2, k.0) by {
        assert(pre.member(k.1, k.0) && pre.member(k.2, k.0));
    }
    assert forall|g: u64| #[trigger] post.group_expenses.contains_key(g) implies post.groups.contains_key(g)
        && post.group_expenses[g].no_duplicates() by {
        if g != id {
            assert(pre.group_expenses.contains_key(g));
        }
    }
}

/// Joining a group keeps a consistent ledger consistent.
pub proof fn lemma_join_group_consistent(pre: LedgerView, sender: Seq<char>, group_id: u64)
    requires
        pre.valid(),
        pre.consistent(),
        join_group_error(pre, sender, group_id) is None,
    ensures
        join_group_ledger(pre, sender, group_id).valid(),
        join_group_ledger(pre, sender, group_id).consistent(),
{
    let post = join_group_ledger(pre, sender, group_id);
    let before = pre.groups[group_id].members;
    lemma_push(before, sender);
    lemma_push(listed(pre.user_groups, sender), group_id);
    assert(pre.indexed(sender, group_id) == pre.member(sender, group_id));
    assert forall|user: Seq<char>, g: u64|
        #![trigger post.indexed(user, g)]
        #![trigger post.member(user, g)]
        post.indexed(user, g) == post.member(user, g) by {
        assert(pre.indexed(user, g) == pre.member(user, g));
    }
    assert forall|g: u64, e: u64|
        #![trigger post.filed(g, e)]
        #![trigger post.posted(g, e)]
        post.filed(g, e) == post.posted(g, e) by {
        assert(pre.filed(g, e) == pre.posted(g, e));
    }
    assert forall|k: (u64, Seq<char>, Seq<char>)| #[trigger]
        post.debts.contains_key(k) implies post.member(k.1, k.0) && post.member(k.2, k.0) by {
        assert(pre.member(k.1, k.0) && pre.member(k.2, k.0));
    }
    assert forall|g: u64| #[trigger] post.groups.contains_key(g) implies post.group_expenses.contains_key(
        g,
    ) by {
        assert(pre.groups.contains_key(g));
    }
}

/// Leaving a group keeps a consistent ledger consistent.
pub proof fn lemma_leave_group_consistent(pre: LedgerView, sender: Seq<char>, group_id: u64)
    requires
        pre.valid(),
        pre.consistent(),
        leave_group_error(pre, sender, group_id) is None,
    ensures
        leave_group_ledger(pre, sender, group_id).valid(),
        leave_group_ledger(pre, sender, group_id).consistent(),
{
    let post = leave_group_ledger(pre, sender, group_id);
    let before = pre.groups[group_id].members;
    let rest = before.filter(other_than(sender));
    let list = listed(pre.user_groups, sender);
    let kept = list.filter(other_than(group_id));
    lemma_filter_members(before, other_than(sender));
    lemma_filter_members(list, other_than(group_id));
    assert(pre.indexed(sender, group_id) == pre.member(sender, group_id));
    assert forall|user: Seq<char>, g: u64|
        #![trigger post.indexed(user, g)]
        #![trigger post.member(user, g)]
        post.indexed(user, g) == post.member(user, g) by {
        assert(pre.indexed(user, g) == pre.member(user, g));
        assert(rest.contains(user) <==> before.contains(user) && user != sender);
        assert(kept.contains(g) <==> list.contains(g) && g != group_id);
        if rest.len() == 0 && rest.contains(user) {
            let i = choose|i: int| 0 <= i < rest.len() && rest[i] == user;
        }
        if kept.len() == 0 && kept.contains(g) {
            let i = choose|i: int| 0 <= i < kept.len() && kept[i] == g;
        }
    }
    assert forall|g: u64, e: u64|
        #![trigger post.filed(g, e)]
        #![trigger post.posted(g, e)]
        post.filed(g, e) == post.posted(g, e) by {
        assert(pre.filed(g, e) == pre.posted(g, e));
    }
    assert forall|k: (u64, Seq<char>, Seq<char>)| #[trigger]
        post.debts.contains_key(k) implies post.member(k.1, k.0) && post.member(k.2, k.0) by {
        assert(pre.member(k.1, k.0) && pre.member(k.2, k.0));
        if k.0 == group_id {
            // a debt of the leaver, or to it, would have kept it in
            assert(pre.debts[k] > 0 && k.1 != k.2);
            if k.1 == sender {
                let i = choose|i: int| 0 <= i < before.len() && before[i] == k.2;
                assert(before[i] != sender && owed(pre.debts, group_id, sender, before[i]) > 0);
                assert(entangled(pre.debts, group_id, sender, before));
            }
            if k.2 == sender {
                let i = choose|i: int| 0 <= i < before.len() && before[i] == k.1;
                assert(before[i] != sender && owed(pre.debts, group_id, before[i], sender) > 0);
                assert(entangled(pre.debts, group_id, sender, before));
            }
            assert(rest.contains(k.1) && rest.contains(k.2));
        }
    }
    assert forall|g: u64| #[trigger] post.groups.contains_key(g) implies post.group_expenses.contains_key(
        g,
    ) by {
        assert(pre.groups.contains_key(g));
    }
    assert forall|g: u64| #[trigger] post.group_expenses.contains_key(g) implies post.groups.contains_key(g)
        && post.group_expenses[g].no_duplicates() by {
        assert(pre.group_expenses.contains_key(g));
    }
    assert forall|user: Seq<char>| #[trigger] post.user_groups.contains_key(user) implies post.user_groups[user].no_duplicates()
        && post.user_groups[user].len() > 0 by {
        if user != sender {
            assert(pre.user_groups.contains_key(user));
        } else {
            if pre.user_groups.contains_key(sender) {
                assert(list.no_duplicates());
            }
        }
    }
}

/// Posting an expense keeps a consistent ledger consistent.
pub proof fn lemma_add_expense_consistent(
    pre: LedgerView,
    time: u64,
    sender: Seq<char>,
    group_id: u64,
    description: Seq<char>,
    amount: u128,
    split: Seq<ResolvedView>,
)
    requires
        pre.valid(),
        pre.consistent(),
        pre.expense_count < u64::MAX,
        add_expense_error(pre, sender, group_id, description, amount, split) is None,
        crate::expenses::charge_fits(
            pre.debts,
            group_id,
            sender,
            sharers(pre.groups[group_id].members, split),
            per_head(amount, sharers(pre.groups[group_id].members, split).len()),
        ),
    ensures
        add_expense_ledger(pre, time, sender, group_id, description, amount, split).valid(),
        add_expense_ledger(pre, time, sender, group_id, description, amount, split).consistent(),
{
    let post = add_expense_ledger(pre, time, sender, group_id, description, amount, split);
    let id = (pre.expense_count + 1) as u64;
    let members = pre.groups[group_id].members;
    let who = sharers(members, split);
    let share = per_head(amount, who.len());
    lemma_first_index_bounds(split, crate::expenses::outsider(members));
    lemma_sharers(members, split);
    assert(!pre.expenses.contains_key(id));
    lemma_push(listed(pre.group_expenses, group_id), id);
    assert(pre.filed(group_id, id) == pre.posted(group_id, id));
    assert(pre.group_expenses.contains_key(group_id));
    assert forall|user: Seq<char>, g: u64|
        #![trigger post.indexed(user, g)]
        #![trigger post.member(user, g)]
        post.indexed(user, g) == post.member(user, g) by {
        assert(pre.indexed(user, g) == pre.member(user, g));
    }
    assert forall|g: u64, e: u64|
        #![trigger post.filed(g, e)]
        #![trigger post.posted(g, e)]
        post.filed(g, e) == post.posted(g, e) by {
        assert(pre.filed(g, e) == pre.posted(g, e));
        assert(pre.filed(g, id) == pre.posted(g, id));
    }
    assert forall|k: (u64, Seq<char>, Seq<char>)| #[trigger]
        post.debts.contains_key(k) implies post.member(k.1, k.0) && post.member(k.2, k.0)
        && post.debts[k] > 0 && k.1 != k.2 by {
        if pre.debts.contains_key(k) {
            assert(pre.member(k.1, k.0) && pre.member(k.2, k.0));
        }
        if share > 0 && charged(k, group_id, sender, who) {
            assert(members.contains(k.1));
        }
    }
    assert forall|g: u64| #[trigger] post.group_expenses.contains_key(g) implies post.groups.contains_key(g)
        && post.group_expenses[g].no_duplicates() by {
        if g != group_id {
            assert(pre.group_expenses.contains_key(g));
        }
    }
    assert forall|e: u64| #[trigger] post.expenses.contains_key(e) implies {
        &&& 1 <= e <= post.expense_count
        &&& post.expenses[e].id == e
        &&& 1 <= post.expenses[e].group_id <= post.group_count
        &&& post.expenses[e].amount > 0
        &&& post.expenses[e].split_between.len() > 0
    } by {
        if e != id {
            assert(pre.expenses.contains_key(e));
        }
    }
}

/// Those who share an expense that is not rejected are members of the
/// group, each once, and at least one.
pub proof fn lemma_sharers(members: Seq<Seq<char>>, split: Seq<ResolvedView>)
    requires
        members.no_duplicates(),
        members.len() > 0,
        crate::seqs::first_index(split, crate::expenses::outsider(members)) == split.len(),
    ensures
        sharers(members, split).no_duplicates(),
        sharers(members, split).len() > 0,
        forall|m: Seq<char>| #[trigger] sharers(members, split).contains(m) ==> members.contains(m),
{
    let who = sharers(members, split);
    if split.len() > 0 {
        let given = names_of(split);
        lemma_distinct(given);
        lemma_first_index_bounds(split, crate::expenses::outsider(members));
        assert forall|m: Seq<char>| #[trigger] who.contains(m) implies members.contains(m) by {
            assert(given.contains(m));
            let i = choose|i: int| 0 <= i < given.len() && given[i] == m;
            assert(!crate::expenses::outsider(members)(split[i]));
        }
    }
}

/// A payment to one creditor keeps a consistent ledger consistent.
pub proof fn lemma_settle_debt_consistent(
    pre: LedgerView,
    sender: Seq<char>,
    funds: u128,
    group_id: u64,
    to: ResolvedView,
    amount: u128,
)
    requires
        pre.valid(),
        pre.consistent(),
        settle_debt_error(pre, sender, funds, group_id, to, amount) is None,
    ensures
        (LedgerView { debts: pay_down(pre.debts, group_id, sender, to->Ok_0, amount), ..pre }).valid(),
        (LedgerView {
            debts: pay_down(pre.debts, group_id, sender, to->Ok_0, amount),
            ..pre
        }).consistent(),
{
    let post = LedgerView { debts: pay_down(pre.debts, group_id, sender, to->Ok_0, amount), ..pre };
    assert forall|user: Seq<char>, g: u64|
        #![trigger post.indexed(user, g)]
        #![trigger post.member(user, g)]
        post.indexed(user, g) == post.member(user, g) by {
        assert(pre.indexed(user, g) == pre.member(user, g));
    }
    assert forall|g: u64, e: u64|
        #![trigger post.filed(g, e)]
        #![trigger post.posted(g, e)]
        post.filed(g, e) == post.posted(g, e) by {
        assert(pre.filed(g, e) == pre.posted(g, e));
    }
    assert forall|k: (u64, Seq<char>, Seq<char>)| #[trigger]
        post.debts.contains_key(k) implies post.member(k.1, k.0) && post.member(k.2, k.0) by {
        if pre.debts.contains_key(k) {
            assert(pre.member(k.1, k.0) && pre.member(k.2, k.0));
        }
    }
}

/// Taking debts away keeps a consistent ledger consistent.
pub proof fn lemma_cleared_consistent(
    pre: LedgerView,
    sender: Seq<char>,
    group_id: u64,
    members: Seq<Seq<char>>,
)
    requires
        pre.valid(),
        pre.consistent(),
    ensures
        (LedgerView { debts: cleared(pre.debts, group_id, sender, members), ..pre }).valid(),
        (LedgerView { debts: cleared(pre.debts, group_id, sender, members), ..pre }).consistent(),
{
    let post = LedgerView { debts: cleared(pre.debts, group_id, sender, members), ..pre };
    assert forall|user: Seq<char>, g: u64|
        #![trigger post.indexed(user, g)]
        #![trigger post.member(user, g)]
        post.indexed(user, g) == post.member(user, g) by {
        assert(pre.indexed(user, g) == pre.member(user, g));
    }
    assert forall|g: u64, e: u64|
        #![trigger post.filed(g, e)]
        #![trigger post.posted(g, e)]
        post.filed(g, e) == post.posted(g, e) by {
        assert(pre.filed(g, e) == pre.posted(g, e));
    }
    assert forall|k: (u64, Seq<char>, Seq<char>)| #[trigger]
        post.debts.contains_key(k) implies post.member(k.1, k.0) && post.member(k.2, k.0) by {
        assert(pre.debts.contains_key(k));
        assert(pre.member(k.1, k.0) && pre.member(k.2, k.0));
    }
}

} // verus!
