//! The report of the transaction identifiers held in member records: the
//! identifiers in ascending order, how many fall in each range, the ones
//! used by more than one loan, and the smallest and largest.

use vstd::prelude::*;
use crate::check_transaction_ids::{entries_with, groups_of, LoanEntry, TransactionGroup};

verus! {

broadcast use vstd::seq_lib::group_to_multiset_ensures;

/// The values are in ascending order.
pub open spec fn ascending(s: Seq<u32>) -> bool {
    forall|i: int, j: int| 0 <= i <= j < s.len() ==> s[i] <= s[j]
}

/// The identifiers in ascending order: the same identifiers, each as often
/// as given.
pub fn sort_ids(ids: &Vec<u32>) -> (res: Vec<u32>)
    ensures
        ascending(res@),
        res@.to_multiset() == ids@.to_multiset(),
{
    let mut res: Vec<u32> = Vec::new();
    let n = ids.len();
    let mut i: usize = 0;
    while i < n
        invariant
            n == ids@.len(),
            i <= n,
            ascending(res@),
            res@.to_multiset() == ids@.take(i as int).to_multiset(),
        decreases n - i,
    {
        let x = ids[i];
        let m = res.len();
        let mut p: usize = 0;
        while p < m && res[p] <= x
            invariant
                m == res@.len(),
                p <= m,
                forall|k: int| 0 <= k < p ==> res@[k] <= x,
            decreases m - p,
        {
            p = p + 1;
        }
        let ghost before = res@;
        res.insert(p, x);
        assert(ascending(res@)) by {
            assert forall|a: int, b: int| 0 <= a <= b < res@.len() implies res@[a] <= res@[b] by {
                if a < p as int && b > p as int {
                    assert(res@[a] == before[a]);
                    assert(res@[b] == before[b - 1]);
                } else if a < p as int && b == p as int {
                    assert(res@[a] == before[a]);
                } else if a == p as int && b > p as int {
                    assert(res@[b] == before[b - 1]);
                    assert(p < m && !(before[p as int] <= x));
                    assert(before[p as int] <= before[b - 1]);
                } else if a > p as int {
                    assert(res@[a] == before[a - 1]);
                    assert(res@[b] == before[b - 1]);
                } else if b < p as int {
                    assert(res@[a] == before[a]);
                    assert(res@[b] == before[b]);
                }
            }
        }
        assert(ids@.take(i + 1) =~= ids@.take(i as int).push(x));
        i = i + 1;
    }
    assert(ids@.take(n as int) =~= ids@);
    res
}

/// The number of values in `lo..hi`.
pub open spec fn count_in(s: Seq<u32>, lo: u32, hi: u32) -> nat
    decreases s.len(),
{
    if s.len() == 0 {
        0
    } else {
        count_in(s.drop_last(), lo, hi) + if lo <= s.last() && s.last() < hi {
            1nat
        } else {
            0nat
        }
    }
}

/// The count of a range is the number of values in it.
pub proof fn lemma_count_in_is_values_in_range(s: Seq<u32>, lo: u32, hi: u32)
    ensures
        count_in(s, lo, hi) == s.filter(|x: u32| lo <= x && x < hi).len(),
    decreases s.len(),
{
    reveal(Seq::filter);
    if s.len() > 0 {
        lemma_count_in_is_values_in_range(s.drop_last(), lo, hi);
    }
}

/// Counts the values in `lo..hi`.
pub fn count_in_range(ids: &Vec<u32>, lo: u32, hi: u32) -> (res: usize)
    ensures
        res == count_in(ids@, lo, hi),
        res == ids@.filter(|x: u32| lo <= x && x < hi).len(),
{
    proof {
        lemma_count_in_is_values_in_range(ids@, lo, hi);
    }
    let n = ids.len();
    let mut count: usize = 0;
    let mut i: usize = 0;
    while i < n
        invariant
            n == ids@.len(),
            i <= n,
            count <= i,
            count == count_in(ids@.take(i as int), lo, hi),
        decreases n - i,
    {
        assert(ids@.take(i + 1).drop_last() =~= ids@.take(i as int));
        if lo <= ids[i] && ids[i] < hi {
            count = count + 1;
        }
        i = i + 1;
    }
    assert(ids@.take(n as int) =~= ids@);
    count
}

/// The ranges of the distribution report, each from its lower bound up to
/// but not including its upper bound.
pub open spec fn report_ranges() -> Seq<(u32, u32)> {
    seq![
        (0u32, 100u32),
        (100u32, 500u32),
        (500u32, 1000u32),
        (1000u32, 1500u32),
        (1500u32, 2000u32),
        (2000u32, 5000u32),
        (5000u32, 10000u32),
        (10000u32, 49000u32),
        (49000u32, 50001u32),
    ]
}

/// The ranges of the distribution report.
pub fn distribution_ranges() -> (res: Vec<(u32, u32)>)
    ensures
        res@ == report_ranges(),
{
    let mut res: Vec<(u32, u32)> = Vec::new();
    res.push((0, 100));
    res.push((100, 500));
    res.push((500, 1000));
    res.push((1000, 1500));
    res.push((1500, 2000));
    res.push((2000, 5000));
    res.push((5000, 10000));
    res.push((10000, 49000));
    res.push((49000, 50001));
    assert(res@ =~= report_ranges());
    res
}

/// One line of the distribution report: a range and how many values fall
/// in it.
#[derive(Debug, PartialEq, Eq, Clone, Copy, Structural)]
pub struct RangeCount {
    pub lo: u32,
    pub hi: u32,
    pub count: usize,
}

/// The lines of the distribution report for `ranges`, leaving out the
/// ranges that hold no value.
pub open spec fn distribution_of(s: Seq<u32>, ranges: Seq<(u32, u32)>) -> Seq<RangeCount>
    decreases ranges.len(),
{
    if ranges.len() == 0 {
        Seq::empty()
    } else {
        let (lo, hi) = ranges.last();
        let rest = distribution_of(s, ranges.drop_last());
        if count_in(s, lo, hi) > 0 {
            rest.push(RangeCount { lo, hi, count: count_in(s, lo, hi) as usize })
        } else {
            rest
        }
    }
}

/// Each line of the distribution names one of the ranges and the number of
/// values in it, which is not zero; and every range that holds a value has
/// a line.
pub proof fn lemma_distribution_lines(s: Seq<u32>, ranges: Seq<(u32, u32)>)
    requires
        s.len() <= usize::MAX,
    ensures
        forall|k: int|
            0 <= k < distribution_of(s, ranges).len() ==> ranges.contains(
                (#[trigger] distribution_of(s, ranges)[k].lo, distribution_of(s, ranges)[k].hi),
            ) && distribution_of(s, ranges)[k].count == s.filter(
                |x: u32|
                    distribution_of(s, ranges)[k].lo <= x && x < distribution_of(s, ranges)[k].hi,
            ).len() && distribution_of(s, ranges)[k].count > 0,
        forall|j: int|
            0 <= j < ranges.len() && #[trigger] count_in(s, ranges[j].0, ranges[j].1) > 0
                ==> exists|k: int|
                0 <= k < distribution_of(s, ranges).len() && distribution_of(s, ranges)[k].lo
                    == ranges[j].0 && distribution_of(s, ranges)[k].hi == ranges[j].1,
    decreases ranges.len(),
{
    if ranges.len() > 0 {
        let rest = ranges.drop_last();
        lemma_distribution_lines(s, rest);
        let (lo, hi) = ranges.last();
        let prev = distribution_of(s, rest);
        let d = distribution_of(s, ranges);
        lemma_count_in_is_values_in_range(s, lo, hi);
        lemma_count_in_le_len(s, lo, hi);
        assert forall|k: int|
            0 <= k < d.len() implies ranges.contains((#[trigger] d[k].lo, d[k].hi))
                && d[k].count == s.filter(|x: u32| d[k].lo <= x && x < d[k].hi).len()
                && d[k].count > 0 by {
            if k < prev.len() {
                assert(d[k] == prev[k]);
                let r = choose|r: int| 0 <= r < rest.len() && rest[r] == (prev[k].lo, prev[k].hi);
                assert(ranges[r] == rest[r]);
            } else {
                assert(ranges[ranges.len() - 1] == (lo, hi));
            }
        }
        assert forall|j: int|
            0 <= j < ranges.len() && #[trigger] count_in(s, ranges[j].0, ranges[j].1) > 0
                implies exists|k: int|
                0 <= k < d.len() && d[k].lo == ranges[j].0 && d[k].hi == ranges[j].1 by {
            if j < rest.len() {
                assert(rest[j] == ranges[j]);
                assert(count_in(s, rest[j].0, rest[j].1) > 0);
                let k = choose|k: int|
                    0 <= k < prev.len() && prev[k].lo == rest[j].0 && prev[k].hi == rest[j].1;
                assert(d[k] == prev[k]);
            } else {
                assert(d[prev.len() as int].lo == lo);
            }
        }
    }
}

proof fn lemma_count_in_le_len(s: Seq<u32>, lo: u32, hi: u32)
    ensures
        count_in(s, lo, hi) <= s.len(),
    decreases s.len(),
{
    if s.len() > 0 {
        lemma_count_in_le_len(s.drop_last(), lo, hi);
    }
}

/// The distribution report of the identifiers over the report ranges.
pub fn distribution(ids: &Vec<u32>) -> (res: Vec<RangeCount>)
    ensures
        res@ == distribution_of(ids@, report_ranges()),
        forall|k: int|
            0 <= k < res@.len() ==> report_ranges().contains((#[trigger] res@[k].lo, res@[k].hi))
                && res@[k].count == ids@.filter(|x: u32| res@[k].lo <= x && x < res@[k].hi).len()
                && res@[k].count > 0,
        forall|j: int|
            0 <= j < report_ranges().len() && #[trigger] count_in(
                ids@,
                report_ranges()[j].0,
                report_ranges()[j].1,
            ) > 0 ==> exists|k: int|
                0 <= k < res@.len() && res@[k].lo == report_ranges()[j].0 && res@[k].hi
                    == report_ranges()[j].1,
{
    let n_ids = ids.len();
    proof {
        assert(ids@.len() == n_ids);
        lemma_distribution_lines(ids@, report_ranges());
    }
    let ranges = distribution_ranges();
    let mut res: Vec<RangeCount> = Vec::new();
    let n = ranges.len();
    let mut i: usize = 0;
    while i < n
        invariant
            n == ranges@.len(),
            i <= n,
            res@ == distribution_of(ids@, ranges@.take(i as int)),
        decreases n - i,
    {
        let (lo, hi) = ranges[i];
        let count = count_in_range(ids, lo, hi);
        assert(ranges@.take(i + 1).drop_last() =~= ranges@.take(i as int));
        assert(ranges@.take(i + 1).last() == (lo, hi));
        if count > 0 {
            res.push(RangeCount { lo, hi, count });
        }
        i = i + 1;
    }
    assert(ranges@.take(n as int) =~= ranges@);
    res
}

/// The transaction identifiers of the loans, in order.
pub fn transaction_ids(entries: &Vec<LoanEntry>) -> (res: Vec<u32>)
    ensures
        res@ == entries@.map_values(|e: LoanEntry| e.transaction_id),
{
    let mut res: Vec<u32> = Vec::new();
    let n = entries.len();
    let mut i: usize = 0;
    while i < n
        invariant
            n == entries@.len(),
            i <= n,
            res@ == entries@.take(i as int).map_values(|e: LoanEntry| e.transaction_id),
        decreases n - i,
    {
        res.push(entries[i].transaction_id);
        assert(entries@.take(i + 1).map_values(|e: LoanEntry| e.transaction_id) =~= entries@.take(
            i as int,
        ).map_values(|e: LoanEntry| e.transaction_id).push(entries@[i as int].transaction_id));
        i = i + 1;
    }
    assert(entries@.take(n as int) =~= entries@);
    res
}

/// The identifiers of the groups of more than one loan, in the order of the
/// groups.
pub open spec fn duplicated_ids_of(groups: Seq<TransactionGroup>) -> Seq<u32>
    decreases groups.len(),
{
    if groups.len() == 0 {
        Seq::empty()
    } else if groups.last().entries@.len() > 1 {
        duplicated_ids_of(groups.drop_last()).push(groups.last().transaction_id)
    } else {
        duplicated_ids_of(groups.drop_last())
    }
}

/// The identifiers used by more than one loan, in ascending order.
pub fn duplicated_ids(groups: &Vec<TransactionGroup>) -> (res: Vec<u32>)
    ensures
        ascending(res@),
        res@.to_multiset() == duplicated_ids_of(groups@).to_multiset(),
        forall|id: u32|
            #![trigger res@.contains(id)]
            res@.contains(id) <==> exists|i: int|
                0 <= i < groups@.len() && #[trigger] groups@[i].transaction_id == id
                    && groups@[i].entries@.len() > 1,
{
    let mut found: Vec<u32> = Vec::new();
    let n = groups.len();
    let mut i: usize = 0;
    while i < n
        invariant
            n == groups@.len(),
            i <= n,
            found@ == duplicated_ids_of(groups@.take(i as int)),
        decreases n - i,
    {
        assert(groups@.take(i + 1).drop_last() =~= groups@.take(i as int));
        if groups[i].entries.len() > 1 {
            found.push(groups[i].transaction_id);
        }
        i = i + 1;
    }
    assert(groups@.take(n as int) =~= groups@);
    let res = sort_ids(&found);
    proof {
        assert forall|id: u32| #![trigger res@.contains(id)]
            res@.contains(id) <==> exists|i: int|
                0 <= i < groups@.len() && #[trigger] groups@[i].transaction_id == id
                    && groups@[i].entries@.len() > 1 by {
            lemma_duplicated_ids_of_contains(groups@, id);
            assert(res@.to_multiset().count(id) == found@.to_multiset().count(id));
        }
    }
    res
}

proof fn lemma_duplicated_ids_of_contains(groups: Seq<TransactionGroup>, id: u32)
    ensures
        duplicated_ids_of(groups).contains(id) <==> exists|i: int|
            0 <= i < groups.len() && #[trigger] groups[i].transaction_id == id
                && groups[i].entries@.len() > 1,
    decreases groups.len(),
{
    if groups.len() > 0 {
        let rest = groups.drop_last();
        lemma_duplicated_ids_of_contains(rest, id);
        let prev = duplicated_ids_of(rest);
        let last = groups.last();
        if exists|i: int|
            0 <= i < groups.len() && #[trigger] groups[i].transaction_id == id
                && groups[i].entries@.len() > 1 {
            let i = choose|i: int|
                0 <= i < groups.len() && #[trigger] groups[i].transaction_id == id
                    && groups[i].entries@.len() > 1;
            if i < rest.len() {
                assert(rest[i] == groups[i]);
                if last.entries@.len() > 1 {
                    let k = choose|k: int| 0 <= k < prev.len() && prev[k] == id;
                    assert(prev.push(last.transaction_id)[k] == id);
                }
            } else {
                assert(prev.push(last.transaction_id)[prev.len() as int] == id);
            }
        }
        if duplicated_ids_of(groups).contains(id) {
            if last.entries@.len() > 1 {
                let grown = prev.push(last.transaction_id);
                let k = choose|k: int| 0 <= k < grown.len() && grown[k] == id;
                if k < prev.len() {
                    assert(prev[k] == id);
                    let i = choose|i: int|
                        0 <= i < rest.len() && #[trigger] rest[i].transaction_id == id
                            && rest[i].entries@.len() > 1;
                    assert(groups[i] == rest[i]);
                } else {
                    assert(groups[groups.len() - 1] == last);
                }
            } else {
                let i = choose|i: int|
                    0 <= i < rest.len() && #[trigger] rest[i].transaction_id == id
                        && rest[i].entries@.len() > 1;
                assert(groups[i] == rest[i]);
            }
        }
    }
}

/// The loans that carry an identifier are those, among all the loans, whose
/// transaction identifier it is, in order.
pub proof fn lemma_entries_with_are_the_loans_of_the_id(entries: Seq<LoanEntry>, id: u32)
    ensures
        entries_with(entries, id) == entries.filter(|e: LoanEntry| e.transaction_id == id),
    decreases entries.len(),
{
    reveal(Seq::filter);
    if entries.len() > 0 {
        lemma_entries_with_are_the_loans_of_the_id(entries.drop_last(), id);
    }
}

/// For groups made from the loans, an identifier is among the duplicated
/// identifiers exactly when more than one loan carries it.
pub proof fn lemma_duplicated_ids_are_shared_ids(
    groups: Seq<TransactionGroup>,
    entries: Seq<LoanEntry>,
    id: u32,
)
    requires
        groups_of(groups, entries),
    ensures
        duplicated_ids_of(groups).contains(id) <==> entries.filter(
            |e: LoanEntry| e.transaction_id == id,
        ).len() > 1,
{
    lemma_duplicated_ids_of_contains(groups, id);
    lemma_entries_with_are_the_loans_of_the_id(entries, id);
    if entries_with(entries, id).len() > 1 {
        if forall|i: int| 0 <= i < groups.len() ==> groups[i].transaction_id != id {
            assert(entries_with(entries, id).len() == 0);
        }
        let i = choose|i: int| 0 <= i < groups.len() && groups[i].transaction_id == id;
        assert(groups[i].entries@ == entries_with(entries, groups[i].transaction_id));
    }
}

/// The smallest and the largest identifier, when there is one.
pub fn id_range(ids: &Vec<u32>) -> (res: Option<(u32, u32)>)
    ensures
        ids@.len() == 0 ==> res is None,
        ids@.len() > 0 ==> (res matches Some((lo, hi)) && ids@.contains(lo) && ids@.contains(hi)
            && forall|k: int| 0 <= k < ids@.len() ==> lo <= #[trigger] ids@[k] <= hi),
{
    let n = ids.len();
    if n == 0 {
        return None;
    }
    let mut lo = ids[0];
    let mut hi = ids[0];
    let mut i: usize = 1;
    while i < n
        invariant
            n == ids@.len(),
            1 <= i <= n,
            ids@.contains(lo),
            ids@.contains(hi),
            forall|k: int| 0 <= k < i ==> lo <= #[trigger] ids@[k] <= hi,
        decreases n - i,
    {
        if ids[i] < lo {
            lo = ids[i];
        }
        if ids[i] > hi {
            hi = ids[i];
        }
        i = i + 1;
    }
    Some((lo, hi))
}

} // verus!
