//! Posting an expense: who shares it, what each sharer comes to owe the
//! payer, and the record that is kept of it.
use vstd::prelude::*;
use crate::consistency::lemma_add_expense_consistent;
use crate::error::{ContractError, ErrorView};
use crate::host::{names_of, parties, Env, MessageInfo, Resolved, ResolvedView, Response, ResponseView};
use crate::msg::outcome;
use crate::seqs::{
    copy_ids, copy_names, distinct, first_index, has_name, lemma_distinct, lemma_first_index,
    lemma_take_step, views,
};
use crate::state::{listed, owed, DebtKey, Debts, Expense, ExpenseView, Ledger, LedgerView};
use crate::table::Table;
use crate::text::{blank, byte_len, decimal, decimal_string, is_blank, utf8_len};

verus! {

/// The longest description that an expense can have, in bytes.
pub const MAX_EXPENSE_DESCRIPTION_LENGTH: usize = 128;

/// Holds of a resolved identifier that cannot share an expense of a group
/// with the members `members`: it names no party, or a party outside.
pub open spec fn outsider(members: Seq<Seq<char>>) -> spec_fn(ResolvedView) -> bool {
    |r: ResolvedView|
        match r {
            Ok(name) => !members.contains(name),
            Err(_) => true,
        }
}

/// The error that a resolved identifier which cannot share an expense gives.
pub open spec fn outsider_error(r: ResolvedView) -> ErrorView {
    match r {
        Ok(_) => ErrorView::UserNotInGroup,
        Err(e) => ErrorView::Std(e),
    }
}

/// Why an expense is rejected, if it is: the first of the reasons, in the
/// order in which they are listed here, that applies.
pub open spec fn add_expense_error(
    pre: LedgerView,
    sender: Seq<char>,
    group_id: u64,
    description: Seq<char>,
    amount: u128,
    split: Seq<ResolvedView>,
) -> Option<ErrorView> {
    if blank(description) {
        Some(
            ErrorView::InvalidExpenseDescription { reason: "Expense description cannot be empty"@ },
        )
    } else if byte_len(description) > MAX_EXPENSE_DESCRIPTION_LENGTH {
        Some(
            ErrorView::InvalidExpenseDescription {
                reason: "Description exceeds maximum length of 128"@,
            },
        )
    } else if amount == 0 {
        Some(ErrorView::InvalidAmount { reason: "Amount must be greater than zero"@ })
    } else if !pre.groups.contains_key(group_id) {
        Some(ErrorView::GroupNotFound)
    } else if !pre.groups[group_id].members.contains(sender) {
        Some(ErrorView::UserNotInGroup)
    } else {
        let i = first_index(split, outsider(pre.groups[group_id].members));
        if i < split.len() {
            Some(outsider_error(split[i]))
        } else {
            None
        }
    }
}

/// Who shares an expense: all members where the caller named nobody, else
/// those the caller named, each once, in the order of their first mention.
pub open spec fn sharers(members: Seq<Seq<char>>, split: Seq<ResolvedView>) -> Seq<Seq<char>> {
    if split.len() == 0 {
        members
    } else {
        distinct(names_of(split))
    }
}

/// The share of each of `count` sharers in `amount`: the quotient, rounded
/// down; the remainder is charged to nobody.
pub open spec fn per_head(amount: u128, count: nat) -> u128 {
    if count == 0 {
        0
    } else {
        (amount as nat / count) as u128
    }
}

/// Whether `k` is the debt of one of `sharers`, other than the payer, to the
/// payer within `group_id`.
pub open spec fn charged(
    k: (u64, Seq<char>, Seq<char>),
    group_id: u64,
    payer: Seq<char>,
    sharers: Seq<Seq<char>>,
) -> bool {
    k.0 == group_id && k.2 == payer && k.1 != payer && sharers.contains(k.1)
}

/// The debts after each of `sharers` but the payer has come to owe the payer
/// `share` more. A share of zero changes nothing.
pub open spec fn charge(
    debts: Debts,
    group_id: u64,
    payer: Seq<char>,
    sharers: Seq<Seq<char>>,
    share: u128,
) -> Debts {
    if share == 0 {
        debts
    } else {
        Map::new(
            |k: (u64, Seq<char>, Seq<char>)|
                debts.contains_key(k) || charged(k, group_id, payer, sharers),
            |k: (u64, Seq<char>, Seq<char>)|
                if charged(k, group_id, payer, sharers) {
                    (owed(debts, k.0, k.1, k.2) + share) as u128
                } else {
                    debts[k]
                },
        )
    }
}

/// Whether every debt that `charge` raises stays within 128 bits.
pub open spec fn charge_fits(
    debts: Debts,
    group_id: u64,
    payer: Seq<char>,
    sharers: Seq<Seq<char>>,
    share: u128,
) -> bool {
    forall|i: int|
        0 <= i < sharers.len() && #[trigger] sharers[i] != payer ==> owed(
            debts,
            group_id,
            sharers[i],
            payer,
        ) + share <= u128::MAX
}

/// Whether the ledger has room for the expense: it is rejected anyway, or a
/// further identifier and every raised debt fit their machine integers.
pub open spec fn add_expense_in_range(
    pre: LedgerView,
    sender: Seq<char>,
    group_id: u64,
    description: Seq<char>,
    amount: u128,
    split: Seq<ResolvedView>,
) -> bool {
    add_expense_error(pre, sender, group_id, description, amount, split) is None ==> {
        let who = sharers(pre.groups[group_id].members, split);
        &&& pre.expense_count < u64::MAX
        &&& charge_fits(pre.debts, group_id, sender, who, per_head(amount, who.len()))
    }
}

/// The ledger after an expense that is not rejected.
pub open spec fn add_expense_ledger(
    pre: LedgerView,
    time: u64,
    sender: Seq<char>,
    group_id: u64,
    description: Seq<char>,
    amount: u128,
    split: Seq<ResolvedView>,
) -> LedgerView {
    let id = (pre.expense_count + 1) as u64;
    let who = sharers(pre.groups[group_id].members, split);
    LedgerView {
        expense_count: id,
        expenses: pre.expenses.insert(
            id,
            ExpenseView {
                id,
                group_id,
                description,
                amount,
                paid_by: sender,
                split_between: who,
                timestamp: time,
                settled: false,
            },
        ),
        group_expenses: pre.group_expenses.insert(
            group_id,
            listed(pre.group_expenses, group_id).push(id),
        ),
        debts: charge(pre.debts, group_id, sender, who, per_head(amount, who.len())),
        ..pre
    }
}

/// The answer to an expense that is not rejected.
pub open spec fn add_expense_response(
    pre: LedgerView,
    sender: Seq<char>,
    group_id: u64,
    amount: u128,
    split: Seq<ResolvedView>,
) -> ResponseView {
    let who = sharers(pre.groups[group_id].members, split);
    ResponseView {
        messages: Seq::empty(),
        attributes: seq![
            ("action"@, "add_expense"@),
            ("id"@, decimal((pre.expense_count + 1) as nat)),
            ("group_id"@, decimal(group_id as nat)),
            ("paid_by"@, sender),
            ("amount"@, decimal(amount as nat)),
            ("split_between"@, decimal(who.len())),
        ],
    }
}

/// What posting an expense does: it ends with the error and changes nothing,
/// or it ends with the answer and leaves the ledger with the expense posted.
pub open spec fn add_expense_post(
    pre: LedgerView,
    time: u64,
    sender: Seq<char>,
    group_id: u64,
    description: Seq<char>,
    amount: u128,
    split: Seq<ResolvedView>,
    post: LedgerView,
    result: Result<ResponseView, ErrorView>,
) -> bool {
    match add_expense_error(pre, sender, group_id, description, amount, split) {
        Some(e) => result == Err::<ResponseView, ErrorView>(e) && post == pre,
        None => result == Ok::<ResponseView, ErrorView>(
            add_expense_response(pre, sender, group_id, amount, split),
        ) && post == add_expense_ledger(pre, time, sender, group_id, description, amount, split),
    }
}

fn resolve_split(members: &Vec<String>, split_between: &Vec<Resolved>) -> (r: Result<
    Vec<String>,
    ContractError,
>)
    ensures
        ({
            let split = parties(split_between@);
            let i = first_index(split, outsider(views(members@)));
            match r {
                Ok(v) => i == split.len() && views(v@) == distinct(names_of(split)),
                Err(e) => i < split.len() && e@ == outsider_error(split[i]),
            }
        }),
{
    let ghost split = parties(split_between@);
    let ghost bad = outsider(views(members@));
    let mut validated: Vec<String> = Vec::new();
    let mut i: usize = 0;
    assert(names_of(split).take(0) =~= Seq::<Seq<char>>::empty());
    assert(views(validated@) =~= Seq::<Seq<char>>::empty());
    while i < split_between.len()
        invariant
            i <= split_between.len(),
            split == parties(split_between@),
            bad == outsider(views(members@)),
            forall|j: int| 0 <= j < i ==> !bad(#[trigger] split[j]),
            views(validated@) == distinct(names_of(split).take(i as int)),
        decreases split_between.len() - i,
    {
        let ghost upto = names_of(split).take(i as int);
        let ghost next = names_of(split).take(i + 1);
        assert(next.drop_last() =~= upto);
        match &split_between[i] {
            Err(e) => {
                proof {
                    assert(bad(split[i as int]));
                    lemma_first_index(split, bad, i as int);
                }
                return Err(ContractError::Std(e.duplicate()));
            },
            Ok(name) => {
                assert(split[i as int] == Ok::<Seq<char>, crate::error::StdErrorView>(name@));
                if !has_name(members, name) {
                    proof {
                        assert(bad(split[i as int]));
                        lemma_first_index(split, bad, i as int);
                    }
                    return Err(ContractError::UserNotInGroup {  });
                }
                assert(next.last() == name@);
                if !has_name(&validated, name) {
                    validated.push(name.clone());
                    assert(views(validated@) =~= distinct(upto).push(name@));
                }
            },
        }
        i += 1;
    }
    proof {
        lemma_first_index(split, bad, i as int);
        assert(names_of(split).take(i as int) =~= names_of(split));
    }
    Ok(validated)
}

fn charge_in_range(
    ledger: &Ledger,
    group_id: u64,
    payer: &String,
    who: &Vec<String>,
    share: u128,
) -> (b: bool)
    requires
        ledger.debts.wf(),
    ensures
        b == charge_fits(ledger@.debts, group_id, payer@, views(who@), share),
{
    let mut i: usize = 0;
    while i < who.len()
        invariant
            i <= who.len(),
            ledger.debts.wf(),
            forall|j: int|
                0 <= j < i && #[trigger] views(who@)[j] != payer@ ==> owed(
                    ledger@.debts,
                    group_id,
                    views(who@)[j],
                    payer@,
                ) + share <= u128::MAX,
        decreases who.len() - i,
    {
        if who[i] != *payer {
            let current = ledger.debt(group_id, &who[i], payer);
            if current > u128::MAX - share {
                assert(views(who@)[i as int] != payer@);
                return false;
            }
        }
        i += 1;
    }
    true
}

fn charge_all(
    debts: &mut Table<DebtKey, u128>,
    group_id: u64,
    payer: &String,
    who: &Vec<String>,
    share: u128,
)
    requires
        old(debts).wf(),
        views(who@).no_duplicates(),
        charge_fits(old(debts)@, group_id, payer@, views(who@), share),
    ensures
        final(debts).wf(),
        final(debts)@ == charge(old(debts)@, group_id, payer@, views(who@), share),
{
    if share == 0 {
        return ;
    }
    let ghost pre = debts@;
    let ghost all = views(who@);
    let mut i: usize = 0;
    assert(debts@ =~= charge(pre, group_id, payer@, all.take(0), share));
    while i < who.len()
        invariant
            i <= who.len(),
            share > 0,
            debts.wf(),
            all == views(who@),
            all.no_duplicates(),
            charge_fits(pre, group_id, payer@, all, share),
            debts@ == charge(pre, group_id, payer@, all.take(i as int), share),
        decreases who.len() - i,
    {
        let ghost before = debts@;
        let ghost upto = all.take(i as int);
        let ghost next = all.take(i + 1);
        let ghost name = all[i as int];
        assert(name == who@[i as int]@);
        proof {
            lemma_take_step(all, i as int);
        }
        if who[i] != *payer {
            let key = DebtKey::new(group_id, &who[i], payer);
            let current = match debts.get(&key) {
                Some(a) => *a,
                None => 0,
            };
            assert(!charged(key@, group_id, payer@, upto));
            assert(current == owed(pre, group_id, name, payer@));
            debts.insert(key, current + share);
            assert(debts@ =~= charge(pre, group_id, payer@, next, share));
        } else {
            assert(debts@ =~= charge(pre, group_id, payer@, next, share));
        }
        i += 1;
    }
    assert(all.take(i as int) =~= all);
}

/// Posts an expense that the caller paid, where the ledger has room for it.
/// Answers `None`, and changes nothing, where it has not.
pub fn try_add_expense(
    ledger: &mut Ledger,
    env: Env,
    info: MessageInfo,
    group_id: u64,
    description: String,
    amount: u128,
    split_between: Vec<Resolved>,
) -> (r: Option<Result<Response, ContractError>>)
    requires
        old(ledger).wf(),
    ensures
        final(ledger).wf(),
        old(ledger)@.consistent() ==> final(ledger)@.consistent(),
        r is Some <==> add_expense_in_range(
            old(ledger)@,
            info.sender@,
            group_id,
            description@,
            amount,
            parties(split_between@),
        ),
        match r {
            Some(res) => add_expense_post(
                old(ledger)@,
                env.time,
                info.sender@,
                group_id,
                description@,
                amount,
                parties(split_between@),
                final(ledger)@,
                outcome(res),
            ),
            None => final(ledger)@ == old(ledger)@,
        },
{
    let ghost pre = ledger@;
    let ghost split = parties(split_between@);
    if is_blank(description.as_str()) {
        return Some(
            Err(
                ContractError::InvalidExpenseDescription {
                    reason: String::from_str("Expense description cannot be empty"),
                },
            ),
        );
    }
    if utf8_len(description.as_str()) > MAX_EXPENSE_DESCRIPTION_LENGTH {
        return Some(
            Err(
                ContractError::InvalidExpenseDescription {
                    reason: String::from_str("Description exceeds maximum length of 128"),
                },
            ),
        );
    }
    if amount == 0 {
        return Some(
            Err(
                ContractError::InvalidAmount {
                    reason: String::from_str("Amount must be greater than zero"),
                },
            ),
        );
    }
    let members = match ledger.groups.get(&group_id) {
        Some(group) => copy_names(&group.members),
        None => {
            return Some(Err(ContractError::GroupNotFound {  }));
        },
    };
    assert(views(members@) == pre.groups[group_id].members);
    if !has_name(&members, &info.sender) {
        return Some(Err(ContractError::UserNotInGroup {  }));
    }
    let who = if split_between.len() == 0 {
        proof {
            lemma_first_index(split, outsider(views(members@)), 0);
        }
        members
    } else {
        match resolve_split(&members, &split_between) {
            Ok(v) => v,
            Err(e) => {
                return Some(Err(e));
            },
        }
    };
    assert(add_expense_error(pre, info.sender@, group_id, description@, amount, split) is None);
    assert(views(who@) == sharers(pre.groups[group_id].members, split));
    proof {
        lemma_distinct(names_of(split));
    }
    assert(views(who@).no_duplicates());
    let count = who.len();
    let share: u128 = if count == 0 {
        0
    } else {
        amount / (count as u128)
    };
    assert(share == per_head(amount, views(who@).len()));
    if ledger.expense_count == u64::MAX {
        return None;
    }
    if !charge_in_range(ledger, group_id, &info.sender, &who, share) {
        return None;
    }
    let id = ledger.expense_count + 1;
    ledger.expense_count = id;
    let expense = Expense {
        id,
        group_id,
        description,
        amount,
        paid_by: info.sender.clone(),
        split_between: copy_names(&who),
        timestamp: env.time,
        settled: false,
    };
    ledger.expenses.insert(id, expense);
    let mut list = match ledger.group_expenses.get(&group_id) {
        Some(ids) => copy_ids(ids),
        None => Vec::new(),
    };
    list.push(id);
    ledger.group_expenses.insert(group_id, list);
    charge_all(&mut ledger.debts, group_id, &info.sender, &who, share);
    let mut response = Response::new();
    response.add_attribute("action", String::from_str("add_expense"));
    response.add_attribute("id", decimal_string(id as u128));
    response.add_attribute("group_id", decimal_string(group_id as u128));
    response.add_attribute("paid_by", info.sender.clone());
    response.add_attribute("amount", decimal_string(amount));
    response.add_attribute("split_between", decimal_string(count as u128));
    assert(response@.attributes =~= add_expense_response(
        pre,
        info.sender@,
        group_id,
        amount,
        split,
    ).attributes);
    assert(ledger@ == add_expense_ledger(
        pre,
        env.time,
        info.sender@,
        group_id,
        description@,
        amount,
        split,
    ));
    proof {
        if pre.consistent() {
            lemma_add_expense_consistent(
                pre,
                env.time,
                info.sender@,
                group_id,
                description@,
                amount,
                split,
            );
        }
    }
    Some(Ok(response))
}

/// Posts an expense of `amount` that the caller paid for the group, shared
/// by `split_between`, or by all members where that is empty.
pub fn add_expense(
    ledger: &mut Ledger,
    env: Env,
    info: MessageInfo,
    group_id: u64,
    description: String,
    amount: u128,
    split_between: Vec<Resolved>,
) -> (r: Result<Response, ContractError>)
    requires
        old(ledger).wf(),
        add_expense_in_range(
            old(ledger)@,
            info.sender@,
            group_id,
            description@,
            amount,
            parties(split_between@),
        ),
    ensures
        final(ledger).wf(),
        old(ledger)@.consistent() ==> final(ledger)@.consistent(),
        add_expense_post(
            old(ledger)@,
            env.time,
            info.sender@,
            group_id,
            description@,
            amount,
            parties(split_between@),
            final(ledger)@,
            outcome(r),
        ),
{
    try_add_expense(ledger, env, info, group_id, description, amount, split_between).unwrap()
}

} // verus!
