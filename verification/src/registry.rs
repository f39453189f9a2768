//! The group registry: creating a group, joining one and leaving one, and
//! the index of each party's groups that goes with them.
use vstd::prelude::*;
use crate::consistency::{
    lemma_create_group_consistent, lemma_join_group_consistent, lemma_leave_group_consistent,
};
use crate::error::{ContractError, ErrorView};
use crate::host::{names_of, parties, Env, MessageInfo, Resolved, ResolvedView, Response, ResponseView};
use crate::msg::outcome;
use crate::seqs::{
    copy_ids, copy_names, distinct, first_index, has_name, ids_without, lemma_distinct,
    lemma_filter_members, lemma_first_index, lemma_take_step, names_without, other_than, views,
};
use crate::state::{listed, owed, Debts, Group, GroupView, Ledger, LedgerView};
use crate::table::Table;
use crate::text::{blank, byte_len, decimal, decimal_string, is_blank, utf8_len};

verus! {

/// The longest name that a group can have, in bytes.
pub const MAX_GROUP_NAME_LENGTH: usize = 64;

/// The most members that a group can be created with, besides its creator.
pub const MAX_GROUP_MEMBERS: usize = 50;

/// Holds of a resolved identifier that names no party.
pub open spec fn unresolved() -> spec_fn(ResolvedView) -> bool {
    |r: ResolvedView| r is Err
}

/// Why the creation of a group is rejected, if it is: the first of the
/// reasons, in the order in which they are listed here, that applies.
pub open spec fn create_group_error(name: Seq<char>, members: Seq<ResolvedView>) -> Option<
    ErrorView,
> {
    if blank(name) {
        Some(ErrorView::InvalidGroupName { reason: "Group name cannot be empty"@ })
    } else if byte_len(name) > MAX_GROUP_NAME_LENGTH {
        Some(ErrorView::InvalidGroupName { reason: "Group name exceeds maximum length of 64"@ })
    } else if members.len() > MAX_GROUP_MEMBERS {
        Some(ErrorView::CustomError { val: "Too many members. Maximum is 50"@ })
    } else {
        let i = first_index(members, unresolved());
        if i < members.len() {
            Some(ErrorView::Std(members[i]->Err_0))
        } else {
            None
        }
    }
}

/// The members that a group starts with: its creator, then those that the
/// creator named, each party once.
pub open spec fn founders(sender: Seq<char>, members: Seq<ResolvedView>) -> Seq<Seq<char>> {
    distinct(seq![sender] + names_of(members))
}

/// The index of each party's groups after group `id` has been added to the
/// list of each of `who`.
pub open spec fn enrol(index: Map<Seq<char>, Seq<u64>>, who: Seq<Seq<char>>, id: u64) -> Map<
    Seq<char>,
    Seq<u64>,
> {
    Map::new(
        |u: Seq<char>| index.contains_key(u) || who.contains(u),
        |u: Seq<char>|
            if who.contains(u) {
                listed(index, u).push(id)
            } else {
                index[u]
            },
    )
}

/// Whether the ledger has a further group identifier to give, where the
/// creation is not rejected anyway.
pub open spec fn create_group_in_range(
    pre: LedgerView,
    name: Seq<char>,
    members: Seq<ResolvedView>,
) -> bool {
    create_group_error(name, members) is None ==> pre.group_count < u64::MAX
}

/// The ledger after the creation of a group that is not rejected.
pub open spec fn create_group_ledger(
    pre: LedgerView,
    time: u64,
    sender: Seq<char>,
    name: Seq<char>,
    members: Seq<ResolvedView>,
) -> LedgerView {
    let id = (pre.group_count + 1) as u64;
    let who = founders(sender, members);
    LedgerView {
        group_count: id,
        groups: pre.groups.insert(
            id,
            GroupView { id, name, creator: sender, members: who, created_at: time },
        ),
        user_groups: enrol(pre.user_groups, who, id),
        group_expenses: pre.group_expenses.insert(id, Seq::empty()),
        ..pre
    }
}

/// The answer to the creation of a group that is not rejected.
pub open spec fn create_group_response(
    pre: LedgerView,
    sender: Seq<char>,
    members: Seq<ResolvedView>,
) -> ResponseView {
    ResponseView {
        messages: Seq::empty(),
        attributes: seq![
            ("action"@, "create_group"@),
            ("id"@, decimal((pre.group_count + 1) as nat)),
            ("creator"@, sender),
            ("members"@, decimal(founders(sender, members).len())),
        ],
    }
}

/// What the creation of a group does: it ends with the error and changes
/// nothing, or it ends with the answer and leaves the ledger with the group.
pub open spec fn create_group_post(
    pre: LedgerView,
    time: u64,
    sender: Seq<char>,
    name: Seq<char>,
    members: Seq<ResolvedView>,
    post: LedgerView,
    result: Result<ResponseView, ErrorView>,
) -> bool {
    match create_group_error(name, members) {
        Some(e) => result == Err::<ResponseView, ErrorView>(e) && post == pre,
        None => result == Ok::<ResponseView, ErrorView>(
            create_group_response(pre, sender, members),
        ) && post == create_group_ledger(pre, time, sender, name, members),
    }
}

fn resolve_founders(sender: &String, members: &Vec<Resolved>) -> (r: Result<
    Vec<String>,
    ContractError,
>)
    ensures
        ({
            let given = parties(members@);
            let i = first_index(given, unresolved());
            match r {
                Ok(v) => i == given.len() && views(v@) == founders(sender@, given),
                Err(e) => i < given.len() && e@ == ErrorView::Std(given[i]->Err_0),
            }
        }),
{
    let ghost given = parties(members@);
    let ghost pool = seq![sender@] + names_of(given);
    let mut validated: Vec<String> = Vec::new();
    validated.push(sender.clone());
    let mut i: usize = 0;
    proof {
        let one = pool.take(1);
        assert(one.drop_last() =~= Seq::<Seq<char>>::empty());
        assert(distinct(one.drop_last()) =~= Seq::<Seq<char>>::empty());
        assert(views(validated@) =~= distinct(one));
    }
    while i < members.len()
        invariant
            i <= members.len(),
            given == parties(members@),
            pool == seq![sender@] + names_of(given),
            forall|j: int| 0 <= j < i ==> !unresolved()(#[trigger] given[j]),
            views(validated@) == distinct(pool.take(i + 1)),
        decreases members.len() - i,
    {
        let ghost upto = pool.take(i + 1);
        let ghost next = pool.take(i + 2);
        assert(next.drop_last() =~= upto);
        match &members[i] {
            Err(e) => {
                proof {
                    assert(unresolved()(given[i as int]));
                    lemma_first_index(given, unresolved(), i as int);
                }
                return Err(ContractError::Std(e.duplicate()));
            },
            Ok(name) => {
                assert(given[i as int] == Ok::<Seq<char>, crate::error::StdErrorView>(name@));
                assert(next.last() == name@);
                if !has_name(&validated, name) {
                    validated.push(name.clone());
                    assert(views(validated@) =~= distinct(upto).push(name@));
                }
            },
        }
        i += 1;
    }
    proof {
        lemma_first_index(given, unresolved(), i as int);
        assert(pool.take(i + 1) =~= pool);
    }
    Ok(validated)
}

fn enrol_all(index: &mut Table<String, Vec<u64>>, who: &Vec<String>, id: u64)
    requires
        old(index).wf(),
        views(who@).no_duplicates(),
    ensures
        final(index).wf(),
        final(index)@ == enrol(old(index)@, views(who@), id),
{
    let ghost pre = index@;
    let ghost all = views(who@);
    let mut i: usize = 0;
    assert(index@ =~= enrol(pre, all.take(0), id));
    while i < who.len()
        invariant
            i <= who.len(),
            index.wf(),
            all == views(who@),
            all.no_duplicates(),
            index@ == enrol(pre, all.take(i as int), id),
        decreases who.len() - i,
    {
        let ghost upto = all.take(i as int);
        let ghost next = all.take(i + 1);
        let ghost name = all[i as int];
        assert(name == who@[i as int]@);
        proof {
            lemma_take_step(all, i as int);
        }
        let mut list = match index.get(&who[i]) {
            Some(ids) => copy_ids(ids),
            None => Vec::new(),
        };
        assert(list@ == listed(pre, name));
        list.push(id);
        index.insert(who[i].clone(), list);
        assert(index@ =~= enrol(pre, next, id));
        i += 1;
    }
    assert(all.take(i as int) =~= all);
}

/// Creates a group of the caller and `members`, where the ledger has a
/// further identifier to give. Answers `None`, and changes nothing, where it
/// has not.
pub fn try_create_group(
    ledger: &mut Ledger,
    env: Env,
    info: MessageInfo,
    name: String,
    members: Vec<Resolved>,
) -> (r: Option<Result<Response, ContractError>>)
    requires
        old(ledger).wf(),
    ensures
        final(ledger).wf(),
        old(ledger)@.consistent() ==> final(ledger)@.consistent(),
        r is Some <==> create_group_in_range(old(ledger)@, name@, parties(members@)),
        match r {
            Some(res) => create_group_post(
                old(ledger)@,
                env.time,
                info.sender@,
                name@,
                parties(members@),
                final(ledger)@,
                outcome(res),
            ),
            None => final(ledger)@ == old(ledger)@,
        },
{
    let ghost pre = ledger@;
    let ghost given = parties(members@);
    if is_blank(name.as_str()) {
        return Some(
            Err(
                ContractError::InvalidGroupName {
                    reason: String::from_str("Group name cannot be empty"),
                },
            ),
        );
    }
    if utf8_len(name.as_str()) > MAX_GROUP_NAME_LENGTH {
        return Some(
            Err(
                ContractError::InvalidGroupName {
                    reason: String::from_str("Group name exceeds maximum length of 64"),
                },
            ),
        );
    }
    if members.len() > MAX_GROUP_MEMBERS {
        return Some(
            Err(
                ContractError::CustomError {
                    val: String::from_str("Too many members. Maximum is 50"),
                },
            ),
        );
    }
    let who = match resolve_founders(&info.sender, &members) {
        Ok(v) => v,
        Err(e) => {
            return Some(Err(e));
        },
    };
    if ledger.group_count == u64::MAX {
        return None;
    }
    proof {
        lemma_distinct(seq![info.sender@] + names_of(given));
    }
    let id = ledger.group_count + 1;
    ledger.group_count = id;
    let count = who.len();
    let group = Group {
        id,
        name,
        creator: info.sender.clone(),
        members: copy_names(&who),
        created_at: env.time,
    };
    ledger.groups.insert(id, group);
    enrol_all(&mut ledger.user_groups, &who, id);
    ledger.group_expenses.insert(id, Vec::new());
    let mut response = Response::new();
    response.add_attribute("action", String::from_str("create_group"));
    response.add_attribute("id", decimal_string(id as u128));
    response.add_attribute("creator", info.sender.clone());
    response.add_attribute("members", decimal_string(count as u128));
    proof {
        assert(response@.attributes =~= create_group_response(
            pre,
            info.sender@,
            given,
        ).attributes);
        assert(ledger@ == create_group_ledger(pre, env.time, info.sender@, name@, given));
        if pre.consistent() {
            lemma_create_group_consistent(pre, env.time, info.sender@, name@, given);
        }
    }
    Some(Ok(response))
}

/// Creates a group of the caller and `members`, under the next identifier.
pub fn create_group(
    ledger: &mut Ledger,
    env: Env,
    info: MessageInfo,
    name: String,
    members: Vec<Resolved>,
) -> (r: Result<Response, ContractError>)
    requires
        old(ledger).wf(),
        create_group_in_range(old(ledger)@, name@, parties(members@)),
    ensures
        final(ledger).wf(),
        old(ledger)@.consistent() ==> final(ledger)@.consistent(),
        create_group_post(
            old(ledger)@,
            env.time,
            info.sender@,
            name@,
            parties(members@),
            final(ledger)@,
            outcome(r),
        ),
{
    try_create_group(ledger, env, info, name, members).unwrap()
}

/// Why joining a group is rejected, if it is.
pub open spec fn join_group_error(pre: LedgerView, sender: Seq<char>, group_id: u64) -> Option<
    ErrorView,
> {
    if !pre.groups.contains_key(group_id) {
        Some(ErrorView::GroupNotFound)
    } else if pre.groups[group_id].members.contains(sender) {
        Some(ErrorView::UserAlreadyInGroup)
    } else {
        None
    }
}

/// The ledger after the caller has joined the group as its last member.
pub open spec fn join_group_ledger(pre: LedgerView, sender: Seq<char>, group_id: u64) -> LedgerView {
    let group = pre.groups[group_id];
    LedgerView {
        groups: pre.groups.insert(
            group_id,
            GroupView { members: group.members.push(sender), ..group },
        ),
        user_groups: pre.user_groups.insert(
            sender,
            listed(pre.user_groups, sender).push(group_id),
        ),
        ..pre
    }
}

/// The answer to joining or leaving a group: `action` says which.
pub open spec fn membership_response(action: Seq<char>, sender: Seq<char>, group_id: u64) -> ResponseView {
    ResponseView {
        messages: Seq::empty(),
        attributes: seq![
            ("action"@, action),
            ("group_id"@, decimal(group_id as nat)),
            ("user"@, sender),
        ],
    }
}

/// What joining a group does: it ends with the error and changes nothing,
/// or it ends with the answer and leaves the caller a member.
pub open spec fn join_group_post(
    pre: LedgerView,
    sender: Seq<char>,
    group_id: u64,
    post: LedgerView,
    result: Result<ResponseView, ErrorView>,
) -> bool {
    match join_group_error(pre, sender, group_id) {
        Some(e) => result == Err::<ResponseView, ErrorView>(e) && post == pre,
        None => result == Ok::<ResponseView, ErrorView>(
            membership_response("join_group"@, sender, group_id),
        ) && post == join_group_ledger(pre, sender, group_id),
    }
}

fn membership_answer(action: &str, sender: &String, group_id: u64) -> (response: Response)
    ensures
        response@ == membership_response(action@, sender@, group_id),
{
    let mut response = Response::new();
    response.add_attribute("action", String::from_str(action));
    response.add_attribute("group_id", decimal_string(group_id as u128));
    response.add_attribute("user", sender.clone());
    assert(response@.attributes =~= membership_response(action@, sender@, group_id).attributes);
    response
}

/// Makes the caller the last member of the group.
pub fn join_group(ledger: &mut Ledger, _env: Env, info: MessageInfo, group_id: u64) -> (r: Result<
    Response,
    ContractError,
>)
    requires
        old(ledger).wf(),
    ensures
        final(ledger).wf(),
        old(ledger)@.consistent() ==> final(ledger)@.consistent(),
        join_group_post(old(ledger)@, info.sender@, group_id, final(ledger)@, outcome(r)),
{
    let ghost pre = ledger@;
    let mut group = match ledger.groups.get(&group_id) {
        Some(found) => found.duplicate(),
        None => {
            return Err(ContractError::GroupNotFound {  });
        },
    };
    if has_name(&group.members, &info.sender) {
        return Err(ContractError::UserAlreadyInGroup {  });
    }
    let ghost before = group@;
    group.members.push(info.sender.clone());
    proof {
        assert(group@.members =~= before.members.push(info.sender@));
        assert(group@ == (GroupView { members: before.members.push(info.sender@), ..before }));
        assert(group@.members.no_duplicates()) by {
            assert forall|i: int, j: int| 0 <= i < j < group@.members.len() implies group@.members[i]
                != group@.members[j] by {
                if j == before.members.len() {
                    assert(before.members[i] == group@.members[i]);
                } else {
                    assert(before.members[i] != before.members[j]);
                }
            }
        }
    }
    ledger.groups.insert(group_id, group);
    let mut list = match ledger.user_groups.get(&info.sender) {
        Some(ids) => copy_ids(ids),
        None => Vec::new(),
    };
    list.push(group_id);
    ledger.user_groups.insert(info.sender.clone(), list);
    assert(ledger@ == join_group_ledger(pre, info.sender@, group_id));
    proof {
        if pre.consistent() {
            lemma_join_group_consistent(pre, info.sender@, group_id);
        }
    }
    Ok(membership_answer("join_group", &info.sender, group_id))
}

/// Whether `party` owes any other of `members` anything within the group,
/// or any other of them owes `party` anything.
pub open spec fn entangled(debts: Debts, group_id: u64, party: Seq<char>, members: Seq<Seq<char>>) -> bool {
    exists|i: int|
        0 <= i < members.len() && #[trigger] members[i] != party && (owed(
            debts,
            group_id,
            party,
            members[i],
        ) > 0 || owed(debts, group_id, members[i], party) > 0)
}

/// Why leaving a group is rejected, if it is: the first of the reasons, in
/// the order in which they are listed here, that applies.
pub open spec fn leave_group_error(pre: LedgerView, sender: Seq<char>, group_id: u64) -> Option<
    ErrorView,
> {
    if !pre.groups.contains_key(group_id) {
        Some(ErrorView::GroupNotFound)
    } else if !pre.groups[group_id].members.contains(sender) {
        Some(ErrorView::UserNotInGroup)
    } else if entangled(pre.debts, group_id, sender, pre.groups[group_id].members) {
        Some(ErrorView::CustomError { val: "Cannot leave group with unsettled debts"@ })
    } else {
        None
    }
}

/// The ledger after the caller has left the group. A group that is left
/// without members goes, and the list of its expenses with it; a party that
/// is left without groups has no list.
pub open spec fn leave_group_ledger(pre: LedgerView, sender: Seq<char>, group_id: u64) -> LedgerView {
    let group = pre.groups[group_id];
    let rest = group.members.filter(other_than(sender));
    let kept = listed(pre.user_groups, sender).filter(other_than(group_id));
    LedgerView {
        groups: if rest.len() == 0 {
            pre.groups.remove(group_id)
        } else {
            pre.groups.insert(group_id, GroupView { members: rest, ..group })
        },
        group_expenses: if rest.len() == 0 {
            pre.group_expenses.remove(group_id)
        } else {
            pre.group_expenses
        },
        user_groups: if kept.len() == 0 {
            pre.user_groups.remove(sender)
        } else {
            pre.user_groups.insert(sender, kept)
        },
        ..pre
    }
}

/// What leaving a group does: it ends with the error and changes nothing,
/// or it ends with the answer and leaves the caller outside the group.
pub open spec fn leave_group_post(
    pre: LedgerView,
    sender: Seq<char>,
    group_id: u64,
    post: LedgerView,
    result: Result<ResponseView, ErrorView>,
) -> bool {
    match leave_group_error(pre, sender, group_id) {
        Some(e) => result == Err::<ResponseView, ErrorView>(e) && post == pre,
        None => result == Ok::<ResponseView, ErrorView>(
            membership_response("leave_group"@, sender, group_id),
        ) && post == leave_group_ledger(pre, sender, group_id),
    }
}

fn has_debts(ledger: &Ledger, group_id: u64, party: &String, members: &Vec<String>) -> (b: bool)
    requires
        ledger.debts.wf(),
    ensures
        b == entangled(ledger@.debts, group_id, party@, views(members@)),
{
    let ghost all = views(members@);
    let mut i: usize = 0;
    while i < members.len()
        invariant
            i <= members.len(),
            ledger.debts.wf(),
            all == views(members@),
            forall|j: int|
                0 <= j < i && #[trigger] all[j] != party@ ==> owed(
                    ledger@.debts,
                    group_id,
                    party@,
                    all[j],
                ) == 0 && owed(ledger@.debts, group_id, all[j], party@) == 0,
        decreases members.len() - i,
    {
        if members[i] != *party {
            assert(all[i as int] == members@[i as int]@);
            if ledger.debt(group_id, party, &members[i]) != 0 || ledger.debt(
                group_id,
                &members[i],
                party,
            ) != 0 {
                assert(all[i as int] != party@);
                return true;
            }
        }
        i += 1;
    }
    false
}

/// Takes the caller out of the group.
pub fn leave_group(ledger: &mut Ledger, _env: Env, info: MessageInfo, group_id: u64) -> (r: Result<
    Response,
    ContractError,
>)
    requires
        old(ledger).wf(),
    ensures
        final(ledger).wf(),
        old(ledger)@.consistent() ==> final(ledger)@.consistent(),
        leave_group_post(old(ledger)@, info.sender@, group_id, final(ledger)@, outcome(r)),
{
    let ghost pre = ledger@;
    let mut group = match ledger.groups.get(&group_id) {
        Some(found) => found.duplicate(),
        None => {
            return Err(ContractError::GroupNotFound {  });
        },
    };
    if !has_name(&group.members, &info.sender) {
        return Err(ContractError::UserNotInGroup {  });
    }
    if has_debts(ledger, group_id, &info.sender, &group.members) {
        return Err(
            ContractError::CustomError {
                val: String::from_str("Cannot leave group with unsettled debts"),
            },
        );
    }
    let ghost before = group@;
    let rest = names_without(&group.members, &info.sender);
    proof {
        lemma_filter_members(before.members, other_than(info.sender@));
    }
    if rest.len() == 0 {
        ledger.groups.remove(&group_id);
        ledger.group_expenses.remove(&group_id);
    } else {
        group.members = rest;
        assert(group@ == (GroupView {
            members: before.members.filter(other_than(info.sender@)),
            ..before
        }));
        ledger.groups.insert(group_id, group);
    }
    let kept = match ledger.user_groups.get(&info.sender) {
        Some(ids) => ids_without(ids, group_id),
        None => {
            proof {
                reveal(Seq::filter);
            }
            Vec::new()
        },
    };
    assert(kept@ == listed(pre.user_groups, info.sender@).filter(other_than(group_id)));
    if kept.len() == 0 {
        ledger.user_groups.remove(&info.sender);
    } else {
        ledger.user_groups.insert(info.sender.clone(), kept);
    }
    assert(ledger@ == leave_group_ledger(pre, info.sender@, group_id));
    proof {
        if pre.consistent() {
            lemma_leave_group_consistent(pre, info.sender@, group_id);
        }
    }
    Ok(membership_answer("leave_group", &info.sender, group_id))
}

} // verus!
