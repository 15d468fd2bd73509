//! Consistency of transaction identifiers: the loans held in member
//! records, grouped by transaction identifier, the identifiers used by more
//! than one loan, and the loans that disagree with the transaction log.

use vstd::prelude::*;
use crate::item::{BorrowedBook, TransactionItem, User};

verus! {

/// One loan held in a member record, with the member it belongs to.
#[derive(Debug, PartialEq, Eq)]
pub struct LoanEntry {
    pub transaction_id: u32,
    pub user_id: u32,
    pub user_name: String,
    pub book_id: u32,
    pub book_title: String,
    pub borrowed_date: String,
}

impl Clone for LoanEntry {
    fn clone(&self) -> (res: Self)
        ensures
            res == *self,
    {
        LoanEntry {
            transaction_id: self.transaction_id,
            user_id: self.user_id,
            user_name: self.user_name.clone(),
            book_id: self.book_id,
            book_title: self.book_title.clone(),
            borrowed_date: self.borrowed_date.clone(),
        }
    }
}

/// The entry of a loan `loan` held by member `user`.
pub open spec fn entry_of(user: User, loan: BorrowedBook) -> LoanEntry {
    LoanEntry {
        transaction_id: loan.transaction_id,
        user_id: user.id,
        user_name: user.name,
        book_id: loan.book_id,
        book_title: loan.book_title,
        borrowed_date: loan.borrowed_date,
    }
}

/// The entry of loan `loan` of member `user`, field by field.
pub open spec fn loan_of(user: User, loan: BorrowedBook) -> LoanEntry {
    LoanEntry {
        transaction_id: loan.transaction_id,
        user_id: user.id,
        user_name: user.name,
        book_id: loan.book_id,
        book_title: loan.book_title,
        borrowed_date: loan.borrowed_date,
    }
}

/// Every loan of every member is listed, each as the loan's identifier,
/// book, title and date with the member's identifier and name, and nothing
/// else is listed.
pub proof fn lemma_all_entries_membership(users: Seq<User>, e: LoanEntry)
    ensures
        all_entries(users).contains(e) <==> exists|i: int, j: int|
            0 <= i < users.len() && 0 <= j < users[i].borrowed_books@.len() && e == (
            #[trigger] loan_of(users[i], users[i].borrowed_books@[j])),
    decreases users.len(),
{
    if users.len() > 0 {
        let rest = users.drop_last();
        let u = users.last();
        lemma_all_entries_membership(rest, e);
        let a = all_entries(rest);
        let b = user_entries(u);
        let ab = a + b;
        if ab.contains(e) {
            let k = choose|k: int| 0 <= k < ab.len() && ab[k] == e;
            if k < a.len() {
                assert(a[k] == e);
                let (i, j) = choose|i: int, j: int|
                    0 <= i < rest.len() && 0 <= j < rest[i].borrowed_books@.len() && e == (
                    #[trigger] loan_of(rest[i], rest[i].borrowed_books@[j]));
                assert(users[i] == rest[i]);
                assert(e == loan_of(users[i], users[i].borrowed_books@[j]));
            } else {
                assert(b[k - a.len()] == e);
                let j = k - a.len();
                assert(users[users.len() - 1] == u);
                assert(e == loan_of(users[users.len() - 1], users[users.len() - 1].borrowed_books@[j]));
            }
        }
        if exists|i: int, j: int|
            0 <= i < users.len() && 0 <= j < users[i].borrowed_books@.len() && e == (
            #[trigger] loan_of(users[i], users[i].borrowed_books@[j])) {
            let (i, j) = choose|i: int, j: int|
                0 <= i < users.len() && 0 <= j < users[i].borrowed_books@.len() && e == (
                #[trigger] loan_of(users[i], users[i].borrowed_books@[j]));
            if i < rest.len() {
                assert(rest[i] == users[i]);
                assert(e == loan_of(rest[i], rest[i].borrowed_books@[j]));
                let k = choose|k: int| 0 <= k < a.len() && a[k] == e;
                assert(ab[k] == e);
            } else {
                assert(users[i] == u);
                assert(b[j] == e);
                assert(ab[a.len() + j] == e);
            }
        }
    }
}

/// The entries of the loans of one member, in the order of the record.
pub open spec fn user_entries(user: User) -> Seq<LoanEntry> {
    user.borrowed_books@.map_values(|loan: BorrowedBook| entry_of(user, loan))
}

/// The entries of the loans of all members, member by member.
pub open spec fn all_entries(users: Seq<User>) -> Seq<LoanEntry>
    decreases users.len(),
{
    if users.len() == 0 {
        Seq::empty()
    } else {
        all_entries(users.drop_last()) + user_entries(users.last())
    }
}

/// The entries of the loans of all members, member by member and, within a
/// member, in the order of the record.
pub fn loan_entries(users: &Vec<User>) -> (res: Vec<LoanEntry>)
    ensures
        res@ == all_entries(users@),
        forall|e: LoanEntry|
            #![trigger res@.contains(e)]
            res@.contains(e) <==> exists|i: int, j: int|
                0 <= i < users@.len() && 0 <= j < users@[i].borrowed_books@.len() && e == (
                #[trigger] loan_of(users@[i], users@[i].borrowed_books@[j])),
{
    proof {
        assert forall|e: LoanEntry| #![trigger all_entries(users@).contains(e)]
            all_entries(users@).contains(e) <==> exists|i: int, j: int|
                0 <= i < users@.len() && 0 <= j < users@[i].borrowed_books@.len() && e == (
                #[trigger] loan_of(users@[i], users@[i].borrowed_books@[j])) by {
            lemma_all_entries_membership(users@, e);
        }
    }
    let mut res: Vec<LoanEntry> = Vec::new();
    let n = users.len();
    let mut i: usize = 0;
    while i < n
        invariant
            n == users@.len(),
            i <= n,
            res@ == all_entries(users@.take(i as int)),
        decreases n - i,
    {
        let user = &users[i];
        let ghost before = res@;
        let m = user.borrowed_books.len();
        let mut j: usize = 0;
        while j < m
            invariant
                m == user.borrowed_books@.len(),
                j <= m,
                res@ == before + user_entries(*user).take(j as int),
            decreases m - j,
        {
            let loan = &user.borrowed_books[j];
            res.push(
                LoanEntry {
                    transaction_id: loan.transaction_id,
                    user_id: user.id,
                    user_name: user.name.clone(),
                    book_id: loan.book_id,
                    book_title: loan.book_title.clone(),
                    borrowed_date: loan.borrowed_date.clone(),
                },
            );
            assert(user_entries(*user).take(j + 1) =~= user_entries(*user).take(j as int).push(
                entry_of(*user, *loan),
            ));
            assert(res@ =~= before + user_entries(*user).take(j + 1));
            j = j + 1;
        }
        assert(user_entries(*user).take(m as int) =~= user_entries(*user));
        assert(users@.take(i + 1).drop_last() =~= users@.take(i as int));
        assert(users@.take(i + 1).last() == *user);
        i = i + 1;
    }
    assert(users@.take(n as int) =~= users@);
    res
}

/// The entries of `entries` whose transaction identifier is `id`, in order.
pub open spec fn entries_with(entries: Seq<LoanEntry>, id: u32) -> Seq<LoanEntry>
    decreases entries.len(),
{
    if entries.len() == 0 {
        Seq::empty()
    } else if entries.last().transaction_id == id {
        entries_with(entries.drop_last(), id).push(entries.last())
    } else {
        entries_with(entries.drop_last(), id)
    }
}

/// The loans that share one transaction identifier.
#[derive(Debug, PartialEq, Eq)]
pub struct TransactionGroup {
    pub transaction_id: u32,
    pub entries: Vec<LoanEntry>,
}

/// The groups hold distinct identifiers, each with all the entries that
/// carry it (at least one), and every identifier of no group carries no
/// entry.
pub open spec fn groups_of(groups: Seq<TransactionGroup>, entries: Seq<LoanEntry>) -> bool {
    &&& forall|i: int| 0 <= i < groups.len() ==> #[trigger] groups[i].entries@.len() > 0
    &&& forall|i: int, j: int|
        0 <= i < j < groups.len() ==> groups[i].transaction_id != groups[j].transaction_id
    &&& forall|i: int|
        0 <= i < groups.len() ==> #[trigger] groups[i].entries@ == entries_with(
            entries,
            groups[i].transaction_id,
        )
    &&& forall|id: u32|
        (forall|i: int| 0 <= i < groups.len() ==> groups[i].transaction_id != id)
            ==> #[trigger] entries_with(entries, id).len() == 0
}

/// Groups the entries by transaction identifier, in the order in which the
/// identifiers first occur.
pub fn group_by_transaction(entries: &Vec<LoanEntry>) -> (groups: Vec<TransactionGroup>)
    ensures
        groups_of(groups@, entries@),
{
    let mut groups: Vec<TransactionGroup> = Vec::new();
    let n = entries.len();
    let mut i: usize = 0;
    while i < n
        invariant
            n == entries@.len(),
            i <= n,
            groups_of(groups@, entries@.take(i as int)),
        decreases n - i,
    {
        let entry = &entries[i];
        let id = entry.transaction_id;
        let ghost seen = entries@.take(i as int);
        let ghost next = entries@.take(i + 1);
        assert(next.drop_last() =~= seen);
        assert(next.last() == *entry);
        assert(forall|t: u32| t != id ==> entries_with(next, t) == entries_with(seen, t));
        assert(entries_with(next, id) == entries_with(seen, id).push(*entry));
        let g = groups.len();
        let mut p: usize = 0;
        while p < g
            invariant
                g == groups@.len(),
                p <= g,
                forall|k: int| 0 <= k < p ==> groups@[k].transaction_id != id,
            ensures
                p <= g,
                forall|k: int| 0 <= k < p ==> groups@[k].transaction_id != id,
                p < g ==> groups@[p as int].transaction_id == id,
            decreases g - p,
        {
            if groups[p].transaction_id == id {
                break;
            }
            p = p + 1;
        }
        let ghost old_groups = groups@;
        if p < g {
            groups[p].entries.push(entry.clone());
            assert(groups@[p as int].transaction_id == id);
            assert(groups@[p as int].entries@ == old_groups[p as int].entries@.push(*entry));
            assert forall|k: int| 0 <= k < groups@.len() implies #[trigger] groups@[k].entries@
                == entries_with(next, groups@[k].transaction_id) by {
                if k != p {
                    assert(groups@[k] == old_groups[k]);
                }
            }
            assert forall|t: u32|
                (forall|k: int| 0 <= k < groups@.len() ==> groups@[k].transaction_id != t)
                    implies #[trigger] entries_with(next, t).len() == 0 by {
                assert(groups@[p as int].transaction_id == id);
                assert forall|k: int| 0 <= k < old_groups.len() implies old_groups[k].transaction_id
                    != t by {
                    assert(groups@[k].transaction_id == old_groups[k].transaction_id);
                }
            }
        } else {
            assert(entries_with(seen, id).len() == 0);
            let mut fresh: Vec<LoanEntry> = Vec::new();
            fresh.push(entry.clone());
            groups.push(TransactionGroup { transaction_id: id, entries: fresh });
            assert(entries_with(next, id) =~= fresh@);
            assert forall|k: int| 0 <= k < groups@.len() implies #[trigger] groups@[k].entries@
                == entries_with(next, groups@[k].transaction_id) by {
                if k < old_groups.len() {
                    assert(groups@[k] == old_groups[k]);
                }
            }
            assert forall|t: u32|
                (forall|k: int| 0 <= k < groups@.len() ==> groups@[k].transaction_id != t)
                    implies #[trigger] entries_with(next, t).len() == 0 by {
                assert(groups@[old_groups.len() as int].transaction_id == id);
                assert forall|k: int| 0 <= k < old_groups.len() implies old_groups[k].transaction_id
                    != t by {
                    assert(groups@[k] == old_groups[k]);
                }
            }
        }
        i = i + 1;
    }
    assert(entries@.take(n as int) =~= entries@);
    groups
}


/// The number of groups whose identifier is used by more than one loan.
pub open spec fn duplicated_count(groups: Seq<TransactionGroup>) -> nat
    decreases groups.len(),
{
    if groups.len() == 0 {
        0
    } else {
        duplicated_count(groups.drop_last()) + if groups.last().entries@.len() > 1 {
            1nat
        } else {
            0nat
        }
    }
}

/// Counts the transaction identifiers used by more than one loan.
pub fn count_duplicated(groups: &Vec<TransactionGroup>) -> (res: usize)
    ensures
        res == duplicated_count(groups@),
        res == groups@.filter(|g: TransactionGroup| g.entries@.len() > 1).len(),
{
    proof {
        lemma_duplicated_count_is_shared_groups(groups@);
    }
    let n = groups.len();
    let mut count: usize = 0;
    let mut i: usize = 0;
    while i < n
        invariant
            n == groups@.len(),
            i <= n,
            count <= i,
            count == duplicated_count(groups@.take(i as int)),
        decreases n - i,
    {
        assert(groups@.take(i + 1).drop_last() =~= groups@.take(i as int));
        if groups[i].entries.len() > 1 {
            count = count + 1;
        }
        i = i + 1;
    }
    assert(groups@.take(n as int) =~= groups@);
    count
}

/// The duplicated count is the number of groups of more than one loan.
pub proof fn lemma_duplicated_count_is_shared_groups(groups: Seq<TransactionGroup>)
    ensures
        duplicated_count(groups) == groups.filter(|g: TransactionGroup| g.entries@.len() > 1).len(),
    decreases groups.len(),
{
    reveal(Seq::filter);
    if groups.len() > 0 {
        lemma_duplicated_count_is_shared_groups(groups.drop_last());
    }
}

/// A loan that disagrees with the transaction log: the log entry of its
/// identifier names another member or another book.
#[derive(Debug, PartialEq, Eq)]
pub struct Conflict {
    pub entry: LoanEntry,
    pub record: TransactionItem,
}

/// The loan and the log entry disagree on the member or the book.
pub open spec fn disagrees(entry: LoanEntry, record: TransactionItem) -> bool {
    record.user_id != entry.user_id || record.book_id != entry.book_id
}

/// The conflicts of one log entry with the loans, in the order of the loans.
pub open spec fn record_conflicts(entries: Seq<LoanEntry>, record: TransactionItem) -> Seq<Conflict>
    decreases entries.len(),
{
    if entries.len() == 0 {
        Seq::empty()
    } else if disagrees(entries.last(), record) {
        record_conflicts(entries.drop_last(), record).push(
            Conflict { entry: entries.last(), record },
        )
    } else {
        record_conflicts(entries.drop_last(), record)
    }
}

/// The conflicts of the log entries with the loans, log entry by log entry.
pub open spec fn all_conflicts(entries: Seq<LoanEntry>, records: Seq<TransactionItem>) -> Seq<
    Conflict,
>
    decreases records.len(),
{
    if records.len() == 0 {
        Seq::empty()
    } else {
        all_conflicts(entries, records.drop_last()) + record_conflicts(entries, records.last())
    }
}

/// The conflicts between the loans of one transaction identifier and the
/// log entries found under that identifier.
pub fn find_conflicts(group: &TransactionGroup, records: &Vec<TransactionItem>) -> (res: Vec<
    Conflict,
>)
    ensures
        res@ == all_conflicts(group.entries@, records@),
        forall|c: Conflict|
            #![trigger res@.contains(c)]
            res@.contains(c) <==> (records@.contains(c.record) && group.entries@.contains(c.entry)
                && (c.record.user_id != c.entry.user_id || c.record.book_id != c.entry.book_id)),
{
    proof {
        assert forall|c: Conflict| #![trigger all_conflicts(group.entries@, records@).contains(c)]
            all_conflicts(group.entries@, records@).contains(c) <==> (records@.contains(c.record)
                && group.entries@.contains(c.entry) && (c.record.user_id != c.entry.user_id
                || c.record.book_id != c.entry.book_id)) by {
            lemma_conflicts_are_disagreements(group.entries@, records@, c);
        }
    }
    let entries = &group.entries;
    let mut res: Vec<Conflict> = Vec::new();
    let n = records.len();
    let m = entries.len();
    let mut i: usize = 0;
    while i < n
        invariant
            n == records@.len(),
            m == entries@.len(),
            i <= n,
            res@ == all_conflicts(entries@, records@.take(i as int)),
        decreases n - i,
    {
        let record = &records[i];
        let ghost before = res@;
        let mut j: usize = 0;
        while j < m
            invariant
                m == entries@.len(),
                j <= m,
                res@ == before + record_conflicts(entries@.take(j as int), *record),
            decreases m - j,
        {
            let entry = &entries[j];
            assert(entries@.take(j + 1).drop_last() =~= entries@.take(j as int));
            assert(entries@.take(j + 1).last() == *entry);
            if record.user_id != entry.user_id || record.book_id != entry.book_id {
                res.push(Conflict { entry: entry.clone(), record: record.clone() });
            }
            assert(res@ =~= before + record_conflicts(entries@.take(j + 1), *record));
            j = j + 1;
        }
        assert(entries@.take(m as int) =~= entries@);
        assert(records@.take(i + 1).drop_last() =~= records@.take(i as int));
        assert(records@.take(i + 1).last() == *record);
        i = i + 1;
    }
    assert(records@.take(n as int) =~= records@);
    res
}


/// The conflicts of one log entry are exactly the loans that name another
/// member or another book than the entry, each paired with the entry, in
/// the order of the loans; whether the entry records a return plays no part.
pub proof fn lemma_record_conflicts_are_disagreeing_loans(
    entries: Seq<LoanEntry>,
    record: TransactionItem,
)
    ensures
        record_conflicts(entries, record) == entries.filter(
            |e: LoanEntry| record.user_id != e.user_id || record.book_id != e.book_id,
        ).map_values(|e: LoanEntry| Conflict { entry: e, record }),
    decreases entries.len(),
{
    reveal(Seq::filter);
    let pred = |e: LoanEntry| record.user_id != e.user_id || record.book_id != e.book_id;
    let f = |e: LoanEntry| Conflict { entry: e, record };
    if entries.len() > 0 {
        lemma_record_conflicts_are_disagreeing_loans(entries.drop_last(), record);
        let sub = entries.drop_last().filter(pred);
        if pred(entries.last()) {
            assert(sub.push(entries.last()).map_values(f) =~= sub.map_values(f).push(
                f(entries.last()),
            ));
        }
    } else {
        assert(entries.filter(pred).map_values(f) =~= Seq::<Conflict>::empty());
    }
}

proof fn lemma_record_conflicts_membership(entries: Seq<LoanEntry>, record: TransactionItem, c: Conflict)
    ensures
        record_conflicts(entries, record).contains(c) <==> (c.record == record && entries.contains(
            c.entry,
        ) && (record.user_id != c.entry.user_id || record.book_id != c.entry.book_id)),
    decreases entries.len(),
{
    if entries.len() > 0 {
        let rest = entries.drop_last();
        lemma_record_conflicts_membership(rest, record, c);
        let prev = record_conflicts(rest, record);
        if entries.contains(c.entry) && !rest.contains(c.entry) {
            let k = choose|k: int| 0 <= k < entries.len() && entries[k] == c.entry;
            if k < rest.len() {
                assert(rest[k] == c.entry);
            }
            assert(c.entry == entries.last());
        }
        if rest.contains(c.entry) {
            let k = choose|k: int| 0 <= k < rest.len() && rest[k] == c.entry;
            assert(entries[k] == c.entry);
        }
        if disagrees(entries.last(), record) {
            let grown = prev.push(Conflict { entry: entries.last(), record });
            if grown.contains(c) && !prev.contains(c) {
                let k = choose|k: int| 0 <= k < grown.len() && grown[k] == c;
                if k < prev.len() {
                    assert(prev[k] == c);
                }
            }
            if prev.contains(c) {
                let k = choose|k: int| 0 <= k < prev.len() && prev[k] == c;
                assert(grown[k] == c);
            }
            if c == (Conflict { entry: entries.last(), record }) {
                assert(grown[prev.len() as int] == c);
                assert(entries[entries.len() - 1] == c.entry);
            }
        } else if c.record == record && c.entry == entries.last() {
            assert(!(record.user_id != c.entry.user_id || record.book_id != c.entry.book_id));
        }
    }
}

/// A conflict is reported for a loan and a log entry exactly when the log
/// entry is one of those given, the loan is one of the group, and they name
/// a different member or a different book.
pub proof fn lemma_conflicts_are_disagreements(
    entries: Seq<LoanEntry>,
    records: Seq<TransactionItem>,
    c: Conflict,
)
    ensures
        all_conflicts(entries, records).contains(c) <==> (records.contains(c.record)
            && entries.contains(c.entry) && (c.record.user_id != c.entry.user_id
            || c.record.book_id != c.entry.book_id)),
    decreases records.len(),
{
    if records.len() > 0 {
        let rest = records.drop_last();
        lemma_conflicts_are_disagreements(entries, rest, c);
        lemma_record_conflicts_membership(entries, records.last(), c);
        let a = all_conflicts(entries, rest);
        let b = record_conflicts(entries, records.last());
        let ab = a + b;
        if ab.contains(c) {
            let k = choose|k: int| 0 <= k < ab.len() && ab[k] == c;
            if k < a.len() {
                assert(a[k] == c);
            } else {
                assert(b[k - a.len()] == c);
            }
        }
        if a.contains(c) {
            let k = choose|k: int| 0 <= k < a.len() && a[k] == c;
            assert(ab[k] == c);
        }
        if b.contains(c) {
            let k = choose|k: int| 0 <= k < b.len() && b[k] == c;
            assert(ab[a.len() + k] == c);
        }
        if records.contains(c.record) && !rest.contains(c.record) {
            let k = choose|k: int| 0 <= k < records.len() && records[k] == c.record;
            if k < rest.len() {
                assert(rest[k] == c.record);
            }
        }
        if rest.contains(c.record) {
            let k = choose|k: int| 0 <= k < rest.len() && rest[k] == c.record;
            assert(records[k] == c.record);
        }
    }
}

} // verus!
