//! The ledger: groups, expenses, the two indices, and the pairwise debts.
use vstd::prelude::*;
use crate::seqs::{copy_names, no_repeats, views};
use crate::table::{Key, Table};

verus! {

/// A group of parties who share expenses.
#[derive(Debug, PartialEq, Eq)]
pub struct Group {
    pub id: u64,
    pub name: String,
    pub creator: String,
    pub members: Vec<String>,
    /// Nanoseconds since the epoch.
    pub created_at: u64,
}

/// What a [`Group`] holds, as contracts speak of it.
pub struct GroupView {
    pub id: u64,
    pub name: Seq<char>,
    pub creator: Seq<char>,
    pub members: Seq<Seq<char>>,
    pub created_at: u64,
}

impl View for Group {
    type V = GroupView;

    open spec fn view(&self) -> GroupView {
        GroupView {
            id: self.id,
            name: self.name@,
            creator: self.creator@,
            members: views(self.members@),
            created_at: self.created_at,
        }
    }
}

impl Group {
    /// A second copy of the group.
    pub fn duplicate(&self) -> (c: Self)
        ensures
            c@ == self@,
    {
        Group {
            id: self.id,
            name: self.name.clone(),
            creator: self.creator.clone(),
            members: copy_names(&self.members),
            created_at: self.created_at,
        }
    }
}

/// One expense posted against a group.
#[derive(Debug, PartialEq, Eq)]
pub struct Expense {
    pub id: u64,
    pub group_id: u64,
    pub description: String,
    /// In minor units of the one currency.
    pub amount: u128,
    pub paid_by: String,
    pub split_between: Vec<String>,
    /// Nanoseconds since the epoch.
    pub timestamp: u64,
    pub settled: bool,
}

/// What an [`Expense`] holds, as contracts speak of it.
pub struct ExpenseView {
    pub id: u64,
    pub group_id: u64,
    pub description: Seq<char>,
    pub amount: u128,
    pub paid_by: Seq<char>,
    pub split_between: Seq<Seq<char>>,
    pub timestamp: u64,
    pub settled: bool,
}

impl View for Expense {
    type V = ExpenseView;

    open spec fn view(&self) -> ExpenseView {
        ExpenseView {
            id: self.id,
            group_id: self.group_id,
            description: self.description@,
            amount: self.amount,
            paid_by: self.paid_by@,
            split_between: views(self.split_between@),
            timestamp: self.timestamp,
            settled: self.settled,
        }
    }
}

impl Expense {
    /// A second copy of the expense.
    pub fn duplicate(&self) -> (c: Self)
        ensures
            c@ == self@,
    {
        Expense {
            id: self.id,
            group_id: self.group_id,
            description: self.description.clone(),
            amount: self.amount,
            paid_by: self.paid_by.clone(),
            split_between: copy_names(&self.split_between),
            timestamp: self.timestamp,
            settled: self.settled,
        }
    }
}

/// What one party owes another within a group, as queries report it.
#[derive(Debug, PartialEq, Eq)]
pub struct Debt {
    pub debtor: String,
    pub creditor: String,
    pub amount: u128,
}

/// What a [`Debt`] holds, as contracts speak of it.
pub struct DebtView {
    pub debtor: Seq<char>,
    pub creditor: Seq<char>,
    pub amount: u128,
}

impl View for Debt {
    type V = DebtView;

    open spec fn view(&self) -> DebtView {
        DebtView { debtor: self.debtor@, creditor: self.creditor@, amount: self.amount }
    }
}

/// The key of a debt: the group, who owes, and to whom.
#[derive(Debug, PartialEq, Eq)]
pub struct DebtKey {
    pub group_id: u64,
    pub debtor: String,
    pub creditor: String,
}

impl View for DebtKey {
    type V = (u64, Seq<char>, Seq<char>);

    open spec fn view(&self) -> (u64, Seq<char>, Seq<char>) {
        (self.group_id, self.debtor@, self.creditor@)
    }
}

impl Key for DebtKey {
    fn same(&self, other: &Self) -> (b: bool) {
        self.group_id == other.group_id && self.debtor == other.debtor && self.creditor
            == other.creditor
    }
}

impl DebtKey {
    /// The key of what `debtor` owes `creditor` within group `group_id`.
    pub fn new(group_id: u64, debtor: &String, creditor: &String) -> (k: Self)
        ensures
            k@ == (group_id, debtor@, creditor@),
    {
        DebtKey { group_id, debtor: debtor.clone(), creditor: creditor.clone() }
    }
}

/// The whole state that operations read and change.
#[derive(Debug, PartialEq, Eq)]
pub struct Ledger {
    /// The identifier of the group created last; 0 before the first.
    pub group_count: u64,
    /// The identifier of the expense posted last; 0 before the first.
    pub expense_count: u64,
    pub groups: Table<u64, Group>,
    pub expenses: Table<u64, Expense>,
    /// For each party, the groups it is a member of.
    pub user_groups: Table<String, Vec<u64>>,
    /// For each group, the expenses posted against it.
    pub group_expenses: Table<u64, Vec<u64>>,
    /// What each party owes each other party, group by group.
    pub debts: Table<DebtKey, u128>,
}

/// The debts of a ledger: from group, debtor and creditor to the amount owed.
pub type Debts = Map<(u64, Seq<char>, Seq<char>), u128>;

/// What a [`Ledger`] holds, as contracts speak of it.
pub struct LedgerView {
    pub group_count: u64,
    pub expense_count: u64,
    pub groups: Map<u64, GroupView>,
    pub expenses: Map<u64, ExpenseView>,
    pub user_groups: Map<Seq<char>, Seq<u64>>,
    pub group_expenses: Map<u64, Seq<u64>>,
    pub debts: Debts,
}

impl View for Ledger {
    type V = LedgerView;

    open spec fn view(&self) -> LedgerView {
        LedgerView {
            group_count: self.group_count,
            expense_count: self.expense_count,
            groups: self.groups@,
            expenses: self.expenses@,
            user_groups: self.user_groups@,
            group_expenses: self.group_expenses@,
            debts: self.debts@,
        }
    }
}

/// What `debtor` owes `creditor` within `group_id`: nothing where the ledger
/// holds no entry.
pub open spec fn owed(debts: Debts, group_id: u64, debtor: Seq<char>, creditor: Seq<char>) -> nat {
    if debts.contains_key((group_id, debtor, creditor)) {
        debts[(group_id, debtor, creditor)] as nat
    } else {
        0
    }
}

/// The list that `index` holds for `key`: the empty list where it holds none.
pub open spec fn listed<K>(index: Map<K, Seq<u64>>, key: K) -> Seq<u64> {
    if index.contains_key(key) {
        index[key]
    } else {
        Seq::empty()
    }
}

impl LedgerView {
    /// What the data model asks of every ledger: every group has a member
    /// and lists none twice, no stored debt is zero, and nobody owes themself.
    pub open spec fn valid(self) -> bool {
        &&& forall|id: u64| #[trigger]
            self.groups.contains_key(id) ==> self.groups[id].members.no_duplicates()
                && self.groups[id].members.len() > 0
        &&& forall|k: (u64, Seq<char>, Seq<char>)| #[trigger]
            self.debts.contains_key(k) ==> self.debts[k] > 0 && k.1 != k.2
    }
}

impl LedgerView {
    /// The ledger holds no group, no expense, no index entry and no debt.
    pub open spec fn holds_nothing(self) -> bool {
        &&& self.groups == Map::<u64, GroupView>::empty()
        &&& self.expenses == Map::<u64, ExpenseView>::empty()
        &&& self.user_groups == Map::<Seq<char>, Seq<u64>>::empty()
        &&& self.group_expenses == Map::<u64, Seq<u64>>::empty()
        &&& self.debts == Map::<(u64, Seq<char>, Seq<char>), u128>::empty()
    }

    /// The index of `user`'s groups lists `group_id`.
    pub open spec fn indexed(self, user: Seq<char>, group_id: u64) -> bool {
        self.user_groups.contains_key(user) && self.user_groups[user].contains(group_id)
    }

    /// `user` is a member of the group `group_id`.
    pub open spec fn member(self, user: Seq<char>, group_id: u64) -> bool {
        self.groups.contains_key(group_id) && self.groups[group_id].members.contains(user)
    }

    /// The index of the group `group_id`'s expenses lists `expense_id`.
    pub open spec fn filed(self, group_id: u64, expense_id: u64) -> bool {
        self.group_expenses.contains_key(group_id) && self.group_expenses[group_id].contains(
            expense_id,
        )
    }

    /// The expense `expense_id` was posted against the group `group_id`,
    /// which is still there.
    pub open spec fn posted(self, group_id: u64, expense_id: u64) -> bool {
        self.groups.contains_key(group_id) && self.expenses.contains_key(expense_id)
            && self.expenses[expense_id].group_id == group_id
    }

    /// What holds of every ledger that the operations have made of an empty
    /// one: identifiers are those that the counters have given out, each
    /// record is kept under its own; the index of a party's groups lists
    /// exactly the groups that the party is a member of, and the index of a
    /// group's expenses exactly the expenses posted against it, each once;
    /// an expense has an amount and somebody to share it; and debts stand
    /// between members of a group only.
    pub open spec fn consistent(self) -> bool {
        &&& forall|id: u64| #[trigger]
            self.groups.contains_key(id) ==> 1 <= id <= self.group_count && self.groups[id].id
                == id
        &&& forall|id: u64| #[trigger]
            self.expenses.contains_key(id) ==> {
                &&& 1 <= id <= self.expense_count
                &&& self.expenses[id].id == id
                &&& 1 <= self.expenses[id].group_id <= self.group_count
                &&& self.expenses[id].amount > 0
                &&& self.expenses[id].split_between.len() > 0
            }
        &&& forall|user: Seq<char>, id: u64|
            #![trigger self.indexed(user, id)]
            #![trigger self.member(user, id)]
            self.indexed(user, id) == self.member(user, id)
        &&& forall|user: Seq<char>| #[trigger]
            self.user_groups.contains_key(user) ==> self.user_groups[user].no_duplicates()
                && self.user_groups[user].len() > 0
        &&& forall|id: u64|
            #![trigger self.group_expenses.contains_key(id)]
            self.group_expenses.contains_key(id) ==> self.groups.contains_key(id)
                && self.group_expenses[id].no_duplicates()
        &&& forall|id: u64| #[trigger]
            self.groups.contains_key(id) ==> self.group_expenses.contains_key(id)
        &&& forall|group_id: u64, id: u64|
            #![trigger self.filed(group_id, id)]
            #![trigger self.posted(group_id, id)]
            self.filed(group_id, id) == self.posted(group_id, id)
        &&& forall|k: (u64, Seq<char>, Seq<char>)| #[trigger]
            self.debts.contains_key(k) ==> self.member(k.1, k.0) && self.member(k.2, k.0)
    }
}

impl Ledger {
    /// The tables are sound and the ledger's view is valid.
    pub open spec fn wf(&self) -> bool {
        &&& self.groups.wf()
        &&& self.expenses.wf()
        &&& self.user_groups.wf()
        &&& self.group_expenses.wf()
        &&& self.debts.wf()
        &&& self@.valid()
    }

    /// A ledger that holds nothing.
    pub fn new() -> (l: Self)
        ensures
            l.wf(),
            l@.consistent(),
            l@.group_count == 0,
            l@.expense_count == 0,
            l@.holds_nothing(),
    {
        Ledger {
            group_count: 0,
            expense_count: 0,
            groups: Table::new(),
            expenses: Table::new(),
            user_groups: Table::new(),
            group_expenses: Table::new(),
            debts: Table::new(),
        }
    }

    /// What `debtor` owes `creditor` within `group_id`.
    pub fn debt(&self, group_id: u64, debtor: &String, creditor: &String) -> (amount: u128)
        requires
            self.debts.wf(),
        ensures
            amount == owed(self@.debts, group_id, debtor@, creditor@),
    {
        let key = DebtKey::new(group_id, debtor, creditor);
        match self.debts.get(&key) {
            Some(a) => *a,
            None => 0,
        }
    }

    /// Tests what `wf` asks beyond the soundness of the tables, which holds
    /// of every table by the way tables are made.
    pub fn is_valid(&self) -> (b: bool)
        requires
            self.groups.wf(),
            self.expenses.wf(),
            self.user_groups.wf(),
            self.group_expenses.wf(),
            self.debts.wf(),
        ensures
            b == self.wf(),
    {
        let mut i: usize = 0;
        while i < self.groups.len()
            invariant
                self.groups.wf(),
                i <= self.groups.slots(),
                forall|j: int|
                    0 <= j < i ==> {
                        let g = self.groups@[#[trigger] self.groups.slot_key(j)];
                        g.members.no_duplicates() && g.members.len() > 0
                    },
            decreases self.groups.slots() - i,
        {
            let g = self.groups.value_at(i);
            if g.members.len() == 0 || !no_repeats(&g.members) {
                assert(self@.groups.contains_key(self.groups.slot_key(i as int)));
                return false;
            }
            i += 1;
        }
        let mut n: usize = 0;
        while n < self.debts.len()
            invariant
                self.debts.wf(),
                n <= self.debts.slots(),
                i == self.groups.slots(),
                forall|j: int|
                    0 <= j < i ==> {
                        let g = self.groups@[#[trigger] self.groups.slot_key(j)];
                        g.members.no_duplicates() && g.members.len() > 0
                    },
                forall|j: int|
                    0 <= j < n ==> {
                        let k = #[trigger] self.debts.slot_key(j);
                        self.debts@[k] > 0 && k.1 != k.2
                    },
            decreases self.debts.slots() - n,
        {
            let k = self.debts.key_at(n);
            let v = self.debts.value_at(n);
            if *v == 0 || k.debtor == k.creditor {
                assert(self@.debts.contains_key(k@));
                return false;
            }
            n += 1;
        }
        proof {
            self.groups.lemma_slots();
            self.debts.lemma_slots();
        }
        true
    }
}

} // verus!
