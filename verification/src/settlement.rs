//! Settling debts: paying one creditor in part or in full, and paying every
//! creditor within a group at once.
use vstd::prelude::*;
use crate::consistency::{lemma_cleared_consistent, lemma_settle_debt_consistent};
use crate::error::{ContractError, ErrorView};
use crate::host::{attached, payment, BankMsgView, MessageInfo, Resolved, ResolvedView, Response, ResponseView, Env};
use crate::host::party;
use crate::msg::outcome;
use crate::seqs::{copy_names, has_name, lemma_take_step, views};
use crate::state::{owed, DebtKey, Debts, Ledger, LedgerView};
use crate::table::Table;
use crate::text::{decimal, decimal_string};

verus! {

/// Why a payment to one creditor is rejected, if it is: the first of the
/// reasons, in the order in which they are listed here, that applies.
pub open spec fn settle_debt_error(
    pre: LedgerView,
    sender: Seq<char>,
    funds: u128,
    group_id: u64,
    to: ResolvedView,
    amount: u128,
) -> Option<ErrorView> {
    match to {
        Err(e) => Some(ErrorView::Std(e)),
        Ok(recipient) => {
            if sender == recipient {
                Some(ErrorView::CannotSettleWithSelf)
            } else if !pre.groups.contains_key(group_id) {
                Some(ErrorView::GroupNotFound)
            } else if !pre.groups[group_id].members.contains(sender)
                || !pre.groups[group_id].members.contains(recipient) {
                Some(ErrorView::UserNotInGroup)
            } else if amount == 0 {
                Some(ErrorView::InvalidAmount { reason: "Amount must be greater than zero"@ })
            } else if owed(pre.debts, group_id, sender, recipient) == 0 {
                Some(ErrorView::NoDebtExists)
            } else if amount > owed(pre.debts, group_id, sender, recipient) {
                Some(ErrorView::InvalidPayment)
            } else if funds < amount {
                Some(
                    ErrorView::InsufficientFunds {
                        needed: decimal(amount as nat),
                        available: decimal(funds as nat),
                    },
                )
            } else {
                None
            }
        },
    }
}

/// The debts after `debtor` has paid `creditor` `amount` of what it owes:
/// a debt that is paid in full leaves the ledger.
pub open spec fn pay_down(
    debts: Debts,
    group_id: u64,
    debtor: Seq<char>,
    creditor: Seq<char>,
    amount: u128,
) -> Debts {
    let rest = owed(debts, group_id, debtor, creditor) - amount;
    if rest <= 0 {
        debts.remove((group_id, debtor, creditor))
    } else {
        debts.insert((group_id, debtor, creditor), rest as u128)
    }
}

/// The answer to a payment to one creditor that is not rejected.
pub open spec fn settle_debt_response(
    pre: LedgerView,
    sender: Seq<char>,
    group_id: u64,
    recipient: Seq<char>,
    amount: u128,
) -> ResponseView {
    ResponseView {
        messages: seq![payment(recipient, amount)],
        attributes: seq![
            ("action"@, "settle_debt"@),
            ("group_id"@, decimal(group_id as nat)),
            ("from"@, sender),
            ("to"@, recipient),
            ("amount"@, decimal(amount as nat)),
            (
                "remaining_debt"@,
                decimal((owed(pre.debts, group_id, sender, recipient) - amount) as nat),
            ),
        ],
    }
}

/// What a payment to one creditor does: it ends with the error and changes
/// nothing, or it ends with the answer and leaves the debt paid down.
pub open spec fn settle_debt_post(
    pre: LedgerView,
    sender: Seq<char>,
    funds: u128,
    group_id: u64,
    to: ResolvedView,
    amount: u128,
    post: LedgerView,
    result: Result<ResponseView, ErrorView>,
) -> bool {
    match settle_debt_error(pre, sender, funds, group_id, to, amount) {
        Some(e) => result == Err::<ResponseView, ErrorView>(e) && post == pre,
        None => result == Ok::<ResponseView, ErrorView>(
            settle_debt_response(pre, sender, group_id, to->Ok_0, amount),
        ) && post == (LedgerView {
            debts: pay_down(pre.debts, group_id, sender, to->Ok_0, amount),
            ..pre
        }),
    }
}

/// Pays `amount` of what the caller owes `to` within the group, out of the
/// funds attached to the call, and asks for the transfer to `to`.
pub fn settle_debt(
    ledger: &mut Ledger,
    _env: Env,
    info: MessageInfo,
    group_id: u64,
    to: Resolved,
    amount: u128,
) -> (r: Result<Response, ContractError>)
    requires
        old(ledger).wf(),
    ensures
        final(ledger).wf(),
        old(ledger)@.consistent() ==> final(ledger)@.consistent(),
        settle_debt_post(
            old(ledger)@,
            info.sender@,
            attached(views(info.funds@)),
            group_id,
            party(to),
            amount,
            final(ledger)@,
            outcome(r),
        ),
{
    let ghost pre = ledger@;
    let recipient = match to {
        Ok(name) => name,
        Err(e) => {
            return Err(ContractError::Std(e));
        },
    };
    if info.sender == recipient {
        return Err(ContractError::CannotSettleWithSelf {  });
    }
    match ledger.groups.get(&group_id) {
        Some(group) => {
            if !has_name(&group.members, &info.sender) || !has_name(&group.members, &recipient) {
                return Err(ContractError::UserNotInGroup {  });
            }
        },
        None => {
            return Err(ContractError::GroupNotFound {  });
        },
    }
    if amount == 0 {
        return Err(
            ContractError::InvalidAmount {
                reason: String::from_str("Amount must be greater than zero"),
            },
        );
    }
    let debt = ledger.debt(group_id, &info.sender, &recipient);
    if debt == 0 {
        return Err(ContractError::NoDebtExists {  });
    }
    if amount > debt {
        return Err(ContractError::InvalidPayment {  });
    }
    let funds = info.attached_funds();
    if funds < amount {
        return Err(
            ContractError::InsufficientFunds {
                needed: decimal_string(amount),
                available: decimal_string(funds),
            },
        );
    }
    let rest = debt - amount;
    let key = DebtKey::new(group_id, &info.sender, &recipient);
    if rest == 0 {
        ledger.debts.remove(&key);
    } else {
        ledger.debts.insert(key, rest);
    }
    let mut response = Response::new();
    response.add_payment(&recipient, amount);
    response.add_attribute("action", String::from_str("settle_debt"));
    response.add_attribute("group_id", decimal_string(group_id as u128));
    response.add_attribute("from", info.sender.clone());
    response.add_attribute("to", recipient.clone());
    response.add_attribute("amount", decimal_string(amount));
    response.add_attribute("remaining_debt", decimal_string(rest));
    proof {
        let want = settle_debt_response(pre, info.sender@, group_id, recipient@, amount);
        assert(response@.attributes =~= want.attributes);
        assert(response@.messages =~= want.messages);
        assert(ledger@.debts == pay_down(pre.debts, group_id, info.sender@, recipient@, amount));
        if pre.consistent() {
            lemma_settle_debt_consistent(
                pre,
                info.sender@,
                funds,
                group_id,
                Ok(recipient@),
                amount,
            );
        }
    }
    Ok(response)
}

/// What the caller owes a member, where it owes that member anything.
pub open spec fn due(debts: Debts, group_id: u64, sender: Seq<char>) -> spec_fn(Seq<char>) -> Option<
    (Seq<char>, u128),
> {
    |m: Seq<char>|
        if m != sender && owed(debts, group_id, sender, m) > 0 {
            Some((m, owed(debts, group_id, sender, m) as u128))
        } else {
            None
        }
}

/// The creditors of the caller among `members`, in the order of `members`,
/// each with what it is owed.
pub open spec fn dues(debts: Debts, group_id: u64, sender: Seq<char>, members: Seq<Seq<char>>) -> Seq<
    (Seq<char>, u128),
> {
    members.filter_map(due(debts, group_id, sender))
}

/// The sum of the amounts of `dues`.
pub open spec fn total_due(dues: Seq<(Seq<char>, u128)>) -> nat
    decreases dues.len(),
{
    if dues.len() == 0 {
        0
    } else {
        total_due(dues.drop_last()) + dues.last().1 as nat
    }
}

/// The transfers that pay `dues`, one for each, in order.
pub open spec fn payments(dues: Seq<(Seq<char>, u128)>) -> Seq<BankMsgView> {
    Seq::new(dues.len(), |i: int| payment(dues[i].0, dues[i].1))
}

/// How many payments an answer lists one by one.
pub const REPORTED_PAYMENTS: usize = 5;

/// The attributes that list the first `n` of `dues` one by one: for the
/// payment at index `i`, `paid_to_i` with the creditor and `amount_i` with
/// the amount.
pub open spec fn receipts(dues: Seq<(Seq<char>, u128)>, n: nat) -> Seq<(Seq<char>, Seq<char>)>
    decreases n,
{
    if n == 0 {
        Seq::empty()
    } else {
        let i = (n - 1) as nat;
        receipts(dues, i).push(("paid_to_"@ + decimal(i), dues[i as int].0)).push(
            ("amount_"@ + decimal(i), decimal(dues[i as int].1 as nat)),
        )
    }
}

/// How many of `count` payments are listed one by one.
pub open spec fn reported(count: nat) -> nat {
    if count < REPORTED_PAYMENTS {
        count
    } else {
        REPORTED_PAYMENTS as nat
    }
}

/// Why paying all creditors is rejected, if it is: the first of the reasons,
/// in the order in which they are listed here, that applies.
pub open spec fn settle_all_debts_error(
    pre: LedgerView,
    sender: Seq<char>,
    funds: u128,
    group_id: u64,
) -> Option<ErrorView> {
    if !pre.groups.contains_key(group_id) {
        Some(ErrorView::GroupNotFound)
    } else if !pre.groups[group_id].members.contains(sender) {
        Some(ErrorView::UserNotInGroup)
    } else {
        let total = total_due(dues(pre.debts, group_id, sender, pre.groups[group_id].members));
        if total == 0 {
            Some(ErrorView::NoDebtExists)
        } else if funds < total {
            Some(
                ErrorView::InsufficientFunds {
                    needed: decimal(total),
                    available: decimal(funds as nat),
                },
            )
        } else {
            None
        }
    }
}

/// Whether the sum of what the caller owes the members of the group fits in
/// 128 bits; it does where there is no such group or the caller is outside.
pub open spec fn settle_all_debts_in_range(pre: LedgerView, sender: Seq<char>, group_id: u64) -> bool {
    pre.groups.contains_key(group_id) && pre.groups[group_id].members.contains(sender)
        ==> total_due(dues(pre.debts, group_id, sender, pre.groups[group_id].members))
        <= u128::MAX
}

/// The debts without those of `debtor` to any other of `members`.
pub open spec fn cleared(debts: Debts, group_id: u64, debtor: Seq<char>, members: Seq<Seq<char>>) -> Debts {
    Map::new(
        |k: (u64, Seq<char>, Seq<char>)|
            debts.contains_key(k) && !(k.0 == group_id && k.1 == debtor && k.2 != debtor
                && members.contains(k.2)),
        |k: (u64, Seq<char>, Seq<char>)| debts[k],
    )
}

/// The answer to paying all creditors, where that is not rejected.
pub open spec fn settle_all_debts_response(
    pre: LedgerView,
    sender: Seq<char>,
    group_id: u64,
) -> ResponseView {
    let all = dues(pre.debts, group_id, sender, pre.groups[group_id].members);
    ResponseView {
        messages: payments(all),
        attributes: seq![
            ("action"@, "settle_all_debts"@),
            ("group_id"@, decimal(group_id as nat)),
            ("from"@, sender),
            ("total_paid"@, decimal(total_due(all))),
        ] + receipts(all, reported(all.len())) + seq![("total_payments"@, decimal(all.len()))],
    }
}

/// What paying all creditors does: it ends with the error and changes
/// nothing, or it ends with the answer and leaves the caller without debts
/// to the members of the group.
pub open spec fn settle_all_debts_post(
    pre: LedgerView,
    sender: Seq<char>,
    funds: u128,
    group_id: u64,
    post: LedgerView,
    result: Result<ResponseView, ErrorView>,
) -> bool {
    match settle_all_debts_error(pre, sender, funds, group_id) {
        Some(e) => result == Err::<ResponseView, ErrorView>(e) && post == pre,
        None => result == Ok::<ResponseView, ErrorView>(
            settle_all_debts_response(pre, sender, group_id),
        ) && post == (LedgerView {
            debts: cleared(pre.debts, group_id, sender, pre.groups[group_id].members),
            ..pre
        }),
    }
}

/// The sum over a front part of the members is at most the sum over all.
pub proof fn lemma_total_due_grows(
    debts: Debts,
    group_id: u64,
    sender: Seq<char>,
    members: Seq<Seq<char>>,
    i: int,
)
    requires
        0 <= i <= members.len(),
    ensures
        total_due(dues(debts, group_id, sender, members.take(i))) <= total_due(
            dues(debts, group_id, sender, members),
        ),
    decreases members.len() - i,
{
    if i < members.len() {
        lemma_total_due_grows(debts, group_id, sender, members, i + 1);
        lemma_dues_step(debts, group_id, sender, members, i);
    } else {
        assert(members.take(i) =~= members);
    }
}

/// What one more member adds to the dues of a front part of the members.
pub proof fn lemma_dues_step(
    debts: Debts,
    group_id: u64,
    sender: Seq<char>,
    members: Seq<Seq<char>>,
    i: int,
)
    requires
        0 <= i < members.len(),
    ensures
        ({
            let upto = dues(debts, group_id, sender, members.take(i));
            let next = dues(debts, group_id, sender, members.take(i + 1));
            match due(debts, group_id, sender)(members[i]) {
                Some(d) => next == upto.push(d) && total_due(next) == total_due(upto) + d.1,
                None => next == upto,
            }
        }),
{
    members.lemma_filter_map_take_succ(due(debts, group_id, sender), i);
    let upto = dues(debts, group_id, sender, members.take(i));
    let next = dues(debts, group_id, sender, members.take(i + 1));
    match due(debts, group_id, sender)(members[i]) {
        Some(d) => {
            assert(next =~= upto.push(d));
            assert(next.drop_last() =~= upto);
        },
        None => {
            assert(next =~= upto);
        },
    }
}

fn clear_debts(debts: &mut Table<DebtKey, u128>, group_id: u64, debtor: &String, members: &Vec<String>)
    requires
        old(debts).wf(),
    ensures
        final(debts).wf(),
        final(debts)@ == cleared(old(debts)@, group_id, debtor@, views(members@)),
{
    let ghost pre = debts@;
    let ghost all = views(members@);
    let mut i: usize = 0;
    assert(debts@ =~= cleared(pre, group_id, debtor@, all.take(0)));
    while i < members.len()
        invariant
            i <= members.len(),
            debts.wf(),
            all == views(members@),
            debts@ == cleared(pre, group_id, debtor@, all.take(i as int)),
        decreases members.len() - i,
    {
        let ghost upto = all.take(i as int);
        let ghost next = all.take(i + 1);
        let ghost name = all[i as int];
        assert(name == members@[i as int]@);
        proof {
            lemma_take_step(all, i as int);
        }
        if members[i] != *debtor {
            let key = DebtKey::new(group_id, debtor, &members[i]);
            debts.remove(&key);
        }
        assert(debts@ =~= cleared(pre, group_id, debtor@, next));
        i += 1;
    }
    assert(all.take(i as int) =~= all);
}

/// Pays all that the caller owes the members of the group, where the sum of
/// it fits in 128 bits. Answers `None`, and changes nothing, where it does
/// not.
pub fn try_settle_all_debts(
    ledger: &mut Ledger,
    _env: Env,
    info: MessageInfo,
    group_id: u64,
) -> (r: Option<Result<Response, ContractError>>)
    requires
        old(ledger).wf(),
    ensures
        final(ledger).wf(),
        old(ledger)@.consistent() ==> final(ledger)@.consistent(),
        r is Some <==> settle_all_debts_in_range(old(ledger)@, info.sender@, group_id),
        match r {
            Some(res) => settle_all_debts_post(
                old(ledger)@,
                info.sender@,
                attached(views(info.funds@)),
                group_id,
                final(ledger)@,
                outcome(res),
            ),
            None => final(ledger)@ == old(ledger)@,
        },
{
    let ghost pre = ledger@;
    let ghost sender = info.sender@;
    let members = match ledger.groups.get(&group_id) {
        Some(group) => copy_names(&group.members),
        None => {
            return Some(Err(ContractError::GroupNotFound {  }));
        },
    };
    if !has_name(&members, &info.sender) {
        return Some(Err(ContractError::UserNotInGroup {  }));
    }
    let ghost all = views(members@);
    let mut total: u128 = 0;
    let mut creditors: Vec<String> = Vec::new();
    let mut amounts: Vec<u128> = Vec::new();
    let mut i: usize = 0;
    assert(dues(pre.debts, group_id, sender, all.take(0)) =~= Seq::empty());
    while i < members.len()
        invariant
            i <= members.len(),
            ledger.wf(),
            ledger@ == pre,
            sender == info.sender@,
            all == views(members@),
            pre.groups.contains_key(group_id),
            pre.groups[group_id].members == all,
            all.contains(sender),
            creditors.len() == amounts.len(),
            creditors.len() == dues(pre.debts, group_id, sender, all.take(i as int)).len(),
            forall|j: int|
                0 <= j < creditors.len() ==> (#[trigger] creditors@[j]@, amounts@[j]) == dues(
                    pre.debts,
                    group_id,
                    sender,
                    all.take(i as int),
                )[j],
            total == total_due(dues(pre.debts, group_id, sender, all.take(i as int))),
        decreases members.len() - i,
    {
        proof {
            lemma_dues_step(pre.debts, group_id, sender, all, i as int);
            lemma_total_due_grows(pre.debts, group_id, sender, all, i + 1);
        }
        if members[i] != info.sender {
            let debt = ledger.debt(group_id, &info.sender, &members[i]);
            if debt > 0 {
                if total > u128::MAX - debt {
                    proof {
                        let d = due(pre.debts, group_id, sender)(all[i as int]);
                        assert(all[i as int] == members@[i as int]@);
                        assert(d == Some((all[i as int], debt)));
                        assert(pre.groups[group_id].members == all);
                    }
                    return None;
                }
                total = total + debt;
                creditors.push(members[i].clone());
                amounts.push(debt);
            }
        }
        i += 1;
    }
    assert(all.take(i as int) =~= all);
    let ghost all_dues = dues(pre.debts, group_id, sender, all);
    if total == 0 {
        return Some(Err(ContractError::NoDebtExists {  }));
    }
    let funds = info.attached_funds();
    if funds < total {
        return Some(
            Err(
                ContractError::InsufficientFunds {
                    needed: decimal_string(total),
                    available: decimal_string(funds),
                },
            ),
        );
    }
    clear_debts(&mut ledger.debts, group_id, &info.sender, &members);
    let mut response = Response::new();
    response.add_attribute("action", String::from_str("settle_all_debts"));
    response.add_attribute("group_id", decimal_string(group_id as u128));
    response.add_attribute("from", info.sender.clone());
    response.add_attribute("total_paid", decimal_string(total));
    let ghost header = response@.attributes;
    let mut n: usize = 0;
    assert(response@.attributes =~= header + receipts(all_dues, 0));
    assert(response@.messages =~= payments(all_dues).take(0));
    while n < creditors.len()
        invariant
            n <= creditors.len(),
            creditors.len() == amounts.len(),
            creditors.len() == all_dues.len(),
            forall|j: int|
                0 <= j < creditors.len() ==> (#[trigger] creditors@[j]@, amounts@[j]) == all_dues[j],
            response@.messages == payments(all_dues).take(n as int),
            response@.attributes == header + receipts(all_dues, reported(n as nat)),
        decreases creditors.len() - n,
    {
        assert((creditors@[n as int]@, amounts@[n as int]) == all_dues[n as int]);
        response.add_payment(&creditors[n], amounts[n]);
        assert(response@.messages =~= payments(all_dues).take(n + 1));
        if n < REPORTED_PAYMENTS {
            let mut paid_to = String::from_str("paid_to_");
            paid_to.append(decimal_string(n as u128).as_str());
            let mut amount = String::from_str("amount_");
            amount.append(decimal_string(n as u128).as_str());
            response.add_attribute(paid_to.as_str(), creditors[n].clone());
            response.add_attribute(amount.as_str(), decimal_string(amounts[n]));
            assert(response@.attributes =~= header + receipts(all_dues, (n + 1) as nat));
        }
        n += 1;
    }
    response.add_attribute("total_payments", decimal_string(creditors.len() as u128));
    proof {
        let want = settle_all_debts_response(pre, sender, group_id);
        assert(payments(all_dues).take(n as int) =~= payments(all_dues));
        assert(response@.attributes =~= want.attributes);
        assert(ledger@.debts == cleared(pre.debts, group_id, sender, all));
        if pre.consistent() {
            lemma_cleared_consistent(pre, sender, group_id, all);
        }
    }
    Some(Ok(response))
}

/// Pays all that the caller owes the members of the group, out of the funds
/// attached to the call, and asks for one transfer to each creditor, in the
/// order of the group's members.
pub fn settle_all_debts(ledger: &mut Ledger, env: Env, info: MessageInfo, group_id: u64) -> (r: Result<
    Response,
    ContractError,
>)
    requires
        old(ledger).wf(),
        settle_all_debts_in_range(old(ledger)@, info.sender@, group_id),
    ensures
        final(ledger).wf(),
        old(ledger)@.consistent() ==> final(ledger)@.consistent(),
        settle_all_debts_post(
            old(ledger)@,
            info.sender@,
            attached(views(info.funds@)),
            group_id,
            final(ledger)@,
            outcome(r),
        ),
{
    try_settle_all_debts(ledger, env, info, group_id).unwrap()
}

} // verus!
