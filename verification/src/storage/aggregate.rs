//! Sums grouped by a label and ordered by size: what the store's two
//! reports have in common.

use vstd::prelude::*;

use crate::seq_find::{
    first_index, lemma_first_index, lemma_first_index_is, lemma_first_index_none,
    lemma_first_index_push,
};
use crate::storage::StorageError;

verus! {

/// A label and an amount, as plain values.
pub type Tally = (Seq<char>, nat);

/// The labels and amounts of a list of pairs.
pub open spec fn tallies(pairs: Seq<(String, u64)>) -> Seq<Tally> {
    Seq::new(pairs.len(), |i: int| (pairs[i].0@, pairs[i].1 as nat))
}

/// The condition of carrying the label `label`.
pub open spec fn has_label(label: Seq<char>) -> spec_fn(Tally) -> bool {
    |tally: Tally| tally.0 == label
}

/// The sum of the amounts that carry `label`.
pub open spec fn label_total(entries: Seq<Tally>, label: Seq<char>) -> nat
    decreases entries.len(),
{
    if entries.len() == 0 {
        0
    } else {
        label_total(entries.drop_last(), label) + if entries.last().0 == label {
            entries.last().1
        } else {
            0
        }
    }
}

/// The groups with one more entry counted: its amount joins the group of its
/// label, or opens a new group at the end.
pub open spec fn add_entry(groups: Seq<Tally>, entry: Tally) -> Seq<Tally> {
    match first_index(groups, has_label(entry.0)) {
        Some(j) => groups.update(j, (entry.0, groups[j].1 + entry.1)),
        None => groups.push(entry),
    }
}

/// One group per label, in the order in which the labels first appear, each
/// with the sum of its label's amounts.
pub open spec fn grouped(entries: Seq<Tally>) -> Seq<Tally>
    decreases entries.len(),
{
    if entries.len() == 0 {
        Seq::empty()
    } else {
        add_entry(grouped(entries.drop_last()), entries.last())
    }
}

/// Where a tally of `amount` goes in a descending list: behind every tally
/// that is at least as large.
pub open spec fn insert_position(sorted: Seq<Tally>, amount: nat) -> nat
    decreases sorted.len(),
{
    if sorted.len() == 0 || sorted[0].1 < amount {
        0
    } else {
        1 + insert_position(sorted.drop_first(), amount)
    }
}

/// The tallies in descending order of amount; equal amounts keep the order
/// they came in.
pub open spec fn sort_desc(groups: Seq<Tally>) -> Seq<Tally>
    decreases groups.len(),
{
    if groups.len() == 0 {
        Seq::empty()
    } else {
        let sorted = sort_desc(groups.drop_last());
        sorted.insert(insert_position(sorted, groups.last().1) as int, groups.last())
    }
}

/// Descending by amount.
pub open spec fn is_desc(tallies: Seq<Tally>) -> bool {
    forall|i: int, j: int|
        0 <= i <= j < tallies.len() ==> (#[trigger] tallies[i]).1 >= (#[trigger] tallies[j]).1
}

/// Whether the sum of some label does not fit in 64 bits.
pub open spec fn overflows(entries: Seq<Tally>) -> bool {
    exists|label: Seq<char>| #[trigger] label_total(entries, label) > u64::MAX
}

/// The report of a list of entries: grouped by label, largest sum first.
pub open spec fn report(entries: Seq<Tally>) -> Seq<Tally> {
    sort_desc(grouped(entries))
}

/// Two lists with the same labels at the same places find a label at the
/// same place.
proof fn lemma_same_labels_same_find(a: Seq<Tally>, b: Seq<Tally>, label: Seq<char>)
    requires
        a.len() == b.len(),
        forall|i: int| 0 <= i < a.len() ==> (#[trigger] a[i]).0 == b[i].0,
    ensures
        first_index(a, has_label(label)) == first_index(b, has_label(label)),
{
    lemma_first_index(a, has_label(label));
    match first_index(a, has_label(label)) {
        Some(i) => {
            assert(has_label(label)(b[i])) by {
                assert(a[i].0 == b[i].0);
            }
            assert forall|j: int| 0 <= j < i implies !has_label(label)(#[trigger] b[j]) by {
                assert(a[j].0 == b[j].0);
                assert(!has_label(label)(a[j]));
            }
            lemma_first_index_is(b, has_label(label), i);
        },
        None => {
            assert forall|j: int| 0 <= j < b.len() implies !has_label(label)(#[trigger] b[j]) by {
                assert(a[j].0 == b[j].0);
                assert(!has_label(label)(a[j]));
            }
            lemma_first_index_none(b, has_label(label));
        },
    }
}

/// The group of a label holds the sum of the label's amounts, and a label
/// without a group has no entry.
pub proof fn lemma_group_holds_label_total(entries: Seq<Tally>, label: Seq<char>)
    ensures
        label_total(entries, label) == match first_index(grouped(entries), has_label(label)) {
            Some(j) => grouped(entries)[j].1,
            None => 0,
        },
        first_index(grouped(entries), has_label(label)) is None ==> forall|k: int|
            0 <= k < entries.len() ==> (#[trigger] entries[k]).0 != label,
    decreases entries.len(),
{
    if entries.len() > 0 {
        let front = entries.drop_last();
        let entry = entries.last();
        let groups = grouped(front);
        lemma_group_holds_label_total(front, label);
        lemma_first_index(groups, has_label(entry.0));
        lemma_first_index(groups, has_label(label));
        assert(forall|k: int| 0 <= k < front.len() ==> front[k] == entries[k]);
        assert(entries[entries.len() - 1] == entry);
        match first_index(groups, has_label(entry.0)) {
            Some(j) => {
                let updated = groups.update(j, (entry.0, groups[j].1 + entry.1));
                assert(has_label(entry.0)(groups[j]));
                lemma_same_labels_same_find(groups, updated, label);
                if entry.0 == label {
                    assert(first_index(updated, has_label(label)) == Some(j));
                } else {
                    match first_index(groups, has_label(label)) {
                        Some(i) => {
                            assert(has_label(label)(groups[i]));
                            assert(i != j);
                        },
                        None => {},
                    }
                }
            },
            None => {
                lemma_first_index_push(groups, has_label(label), entry);
            },
        }
    }
}

/// No two groups carry the same label.
pub proof fn lemma_groups_have_distinct_labels(entries: Seq<Tally>)
    ensures
        forall|i: int, j: int|
            0 <= i < j < grouped(entries).len() ==> (#[trigger] grouped(entries)[i]).0 != (
            #[trigger] grouped(entries)[j]).0,
    decreases entries.len(),
{
    if entries.len() > 0 {
        let front = entries.drop_last();
        let entry = entries.last();
        let groups = grouped(front);
        lemma_groups_have_distinct_labels(front);
        lemma_first_index(groups, has_label(entry.0));
        match first_index(groups, has_label(entry.0)) {
            Some(k) => {
                assert(has_label(entry.0)(groups[k]));
                let updated = groups.update(k, (entry.0, groups[k].1 + entry.1));
                assert forall|i: int, j: int| 0 <= i < j < updated.len() implies (
                #[trigger] updated[i]).0 != (#[trigger] updated[j]).0 by {
                    assert(updated[i].0 == groups[i].0);
                    assert(updated[j].0 == groups[j].0);
                }
            },
            None => {
                let pushed = groups.push(entry);
                assert forall|i: int, j: int| 0 <= i < j < pushed.len() implies (
                #[trigger] pushed[i]).0 != (#[trigger] pushed[j]).0 by {
                    if j == groups.len() {
                        assert(!has_label(entry.0)(groups[i]));
                    }
                }
            },
        }
    }
}

/// Every entry's label has a group.
pub proof fn lemma_every_label_is_grouped(entries: Seq<Tally>, k: int)
    requires
        0 <= k < entries.len(),
    ensures
        first_index(grouped(entries), has_label(entries[k].0)) is Some,
{
    lemma_group_holds_label_total(entries, entries[k].0);
}

/// Where the list is empty, so are its groups and its report.
pub proof fn lemma_report_of_nothing(entries: Seq<Tally>)
    requires
        entries.len() == 0,
    ensures
        grouped(entries).len() == 0,
        report(entries).len() == 0,
{
}

/// The insert position lies within the list, everything before it is at
/// least as large as the amount, and what stands at it is smaller.
pub proof fn lemma_insert_position(sorted: Seq<Tally>, amount: nat)
    ensures
        insert_position(sorted, amount) <= sorted.len(),
        forall|i: int| 0 <= i < insert_position(sorted, amount) ==> (#[trigger] sorted[i]).1 >= amount,
        insert_position(sorted, amount) < sorted.len() ==> sorted[insert_position(
            sorted,
            amount,
        ) as int].1 < amount,
    decreases sorted.len(),
{
    if !(sorted.len() == 0 || sorted[0].1 < amount) {
        let rest = sorted.drop_first();
        lemma_insert_position(rest, amount);
        assert forall|i: int| 0 <= i < insert_position(sorted, amount) implies (
        #[trigger] sorted[i]).1 >= amount by {
            if i > 0 {
                assert(sorted[i] == rest[i - 1]);
            }
        }
        if insert_position(sorted, amount) < sorted.len() {
            assert(sorted[insert_position(sorted, amount) as int] == rest[insert_position(
                rest,
                amount,
            ) as int]);
        }
    }
}

/// Sorting keeps every tally, as often as it came, and orders them
/// descending by amount.
pub proof fn lemma_sort_desc_sorts(groups: Seq<Tally>)
    ensures
        sort_desc(groups).len() == groups.len(),
        sort_desc(groups).to_multiset() == groups.to_multiset(),
        is_desc(sort_desc(groups)),
    decreases groups.len(),
{
    broadcast use vstd::seq_lib::group_to_multiset_ensures;

    if groups.len() > 0 {
        let front = groups.drop_last();
        let sorted = sort_desc(front);
        let last = groups.last();
        lemma_sort_desc_sorts(front);
        lemma_insert_position(sorted, last.1);
        let at = insert_position(sorted, last.1) as int;
        let result = sorted.insert(at, last);
        assert(groups == front.push(last));
        assert(result.to_multiset() == sorted.to_multiset().insert(last)) by {
            vstd::seq_lib::to_multiset_insert(sorted, at, last);
        }
        assert forall|i: int, j: int| 0 <= i <= j < result.len() implies (#[trigger] result[i]).1
            >= (#[trigger] result[j]).1 by {
            if i < at {
                assert(result[i] == sorted[i]);
                if j > at {
                    assert(result[j] == sorted[j - 1]);
                }
                if j < at {
                    assert(result[j] == sorted[j]);
                }
            } else if i == at {
                if j > at {
                    assert(result[j] == sorted[j - 1]);
                    assert(sorted[at].1 >= sorted[j - 1].1);
                }
            } else {
                assert(result[i] == sorted[i - 1]);
                assert(result[j] == sorted[j - 1]);
            }
        }
    }
}

/// The sum of all amounts.
pub open spec fn tally_sum(tallies: Seq<Tally>) -> nat
    decreases tallies.len(),
{
    if tallies.len() == 0 {
        0
    } else {
        tally_sum(tallies.drop_last()) + tallies.last().1
    }
}

/// Replacing a tally changes the sum by the difference of the amounts.
proof fn lemma_sum_update(tallies: Seq<Tally>, at: int, tally: Tally)
    requires
        0 <= at < tallies.len(),
    ensures
        tally_sum(tallies.update(at, tally)) + tallies[at].1 == tally_sum(tallies) + tally.1,
    decreases tallies.len(),
{
    let updated = tallies.update(at, tally);
    if at == tallies.len() - 1 {
        assert(updated.drop_last() == tallies.drop_last());
    } else {
        lemma_sum_update(tallies.drop_last(), at, tally);
        assert(updated.drop_last() == tallies.drop_last().update(at, tally));
    }
}

/// Inserting a tally adds its amount to the sum.
proof fn lemma_sum_insert(tallies: Seq<Tally>, at: int, tally: Tally)
    requires
        0 <= at <= tallies.len(),
    ensures
        tally_sum(tallies.insert(at, tally)) == tally_sum(tallies) + tally.1,
    decreases tallies.len(),
{
    let inserted = tallies.insert(at, tally);
    if at == tallies.len() {
        assert(inserted.drop_last() == tallies);
    } else {
        lemma_sum_insert(tallies.drop_last(), at, tally);
        assert(inserted.drop_last() == tallies.drop_last().insert(at, tally));
        assert(inserted.last() == tallies.last());
    }
}

/// A report accounts for every amount: its sums add up to the sum of all
/// entries.
pub proof fn lemma_report_keeps_sum(entries: Seq<Tally>)
    ensures
        tally_sum(grouped(entries)) == tally_sum(entries),
        tally_sum(report(entries)) == tally_sum(entries),
    decreases entries.len(),
{
    if entries.len() > 0 {
        let front = entries.drop_last();
        let entry = entries.last();
        let groups = grouped(front);
        lemma_report_keeps_sum(front);
        lemma_first_index(groups, has_label(entry.0));
        match first_index(groups, has_label(entry.0)) {
            Some(j) => {
                lemma_sum_update(groups, j, (entry.0, groups[j].1 + entry.1));
            },
            None => {
                assert(groups.push(entry).drop_last() == groups);
            },
        }
    }
    lemma_sort_keeps_sum(grouped(entries));
}

/// Sorting keeps the sum.
pub proof fn lemma_sort_keeps_sum(groups: Seq<Tally>)
    ensures
        tally_sum(sort_desc(groups)) == tally_sum(groups),
    decreases groups.len(),
{
    if groups.len() > 0 {
        let sorted = sort_desc(groups.drop_last());
        lemma_sort_keeps_sum(groups.drop_last());
        lemma_insert_position(sorted, groups.last().1);
        lemma_sum_insert(sorted, insert_position(sorted, groups.last().1) as int, groups.last());
    }
}

/// What a report is: its rows stand in descending order of their sums;
/// there are as many rows as labels; and each row holds a label of the
/// entries with the sum of that label's amounts.
pub proof fn lemma_report(entries: Seq<Tally>)
    ensures
        is_desc(report(entries)),
        report(entries).len() == grouped(entries).len(),
        report(entries).to_multiset() == grouped(entries).to_multiset(),
        forall|i: int|
            0 <= i < report(entries).len() ==> (#[trigger] report(entries)[i]).1 == label_total(
                entries,
                report(entries)[i].0,
            ),
        forall|k: int|
            0 <= k < entries.len() ==> exists|i: int|
                0 <= i < report(entries).len() && (#[trigger] report(entries)[i]).0 == (
                #[trigger] entries[k]).0,
{
    broadcast use vstd::seq_lib::group_to_multiset_ensures;

    let groups = grouped(entries);
    let rows = report(entries);
    lemma_sort_desc_sorts(groups);
    lemma_groups_have_distinct_labels(entries);
    assert forall|i: int| 0 <= i < rows.len() implies (#[trigger] rows[i]).1 == label_total(
        entries,
        rows[i].0,
    ) by {
        assert(rows.to_multiset().count(rows[i]) > 0);
        assert(groups.to_multiset().count(rows[i]) > 0);
        assert(groups.contains(rows[i]));
        let j = choose|j: int| 0 <= j < groups.len() && groups[j] == rows[i];
        lemma_group_holds_label_total(entries, rows[i].0);
        lemma_first_index(groups, has_label(rows[i].0));
        assert(has_label(rows[i].0)(groups[j]));
        let f = first_index(groups, has_label(rows[i].0))->0;
        if f != j {
            assert(groups[f].0 == groups[j].0);
        }
    }
    assert forall|k: int| 0 <= k < entries.len() implies exists|i: int|
        0 <= i < rows.len() && (#[trigger] rows[i]).0 == (#[trigger] entries[k]).0 by {
        lemma_every_label_is_grouped(entries, k);
        lemma_first_index(groups, has_label(entries[k].0));
        let j = first_index(groups, has_label(entries[k].0))->0;
        assert(groups.to_multiset().count(groups[j]) > 0);
        assert(rows.to_multiset().count(groups[j]) > 0);
        assert(rows.contains(groups[j]));
        let i = choose|i: int| 0 <= i < rows.len() && rows[i] == groups[j];
        assert(rows[i].0 == entries[k].0);
    }
}

/// The sum of a label's amounts only grows as entries are added.
pub proof fn lemma_label_total_grows(entries: Seq<Tally>, label: Seq<char>, n: int)
    requires
        0 <= n <= entries.len(),
    ensures
        label_total(entries.take(n), label) <= label_total(entries, label),
    decreases entries.len() - n,
{
    if n < entries.len() {
        lemma_label_total_grows(entries, label, n + 1);
        assert(entries.take(n + 1).drop_last() == entries.take(n));
    } else {
        assert(entries.take(n) == entries);
    }
}

fn find_label(groups: &Vec<(String, u64)>, label: &String) -> (found: Option<usize>)
    ensures
        match found {
            Some(j) => j < groups.len() && first_index(tallies(groups@), has_label(label@))
                == Some(j as int),
            None => first_index(tallies(groups@), has_label(label@)) is None,
        },
{
    let mut j: usize = 0;
    while j < groups.len()
        invariant
            j <= groups.len(),
            forall|k: int| 0 <= k < j ==> !has_label(label@)(#[trigger] tallies(groups@)[k]),
        decreases groups.len() - j,
    {
        if groups[j].0 == *label {
            proof {
                assert(has_label(label@)(tallies(groups@)[j as int]));
                lemma_first_index_is(tallies(groups@), has_label(label@), j as int);
            }
            return Some(j);
        }
        j += 1;
    }
    proof {
        lemma_first_index_none(tallies(groups@), has_label(label@));
    }
    None
}

fn sort_groups(groups: &Vec<(String, u64)>) -> (sorted: Vec<(String, u64)>)
    ensures
        tallies(sorted@) == sort_desc(tallies(groups@)),
{
    let mut sorted: Vec<(String, u64)> = Vec::new();
    let mut i: usize = 0;
    while i < groups.len()
        invariant
            i <= groups.len(),
            tallies(sorted@) == sort_desc(tallies(groups@).take(i as int)),
        decreases groups.len() - i,
    {
        let amount: u64 = groups[i].1;
        let ghost before = tallies(sorted@);
        let mut at: usize = 0;
        assert(before.skip(0) == before);
        while at < sorted.len() && sorted[at].1 >= amount
            invariant
                at <= sorted.len(),
                before == tallies(sorted@),
                insert_position(before, amount as nat) == at + insert_position(
                    before.skip(at as int),
                    amount as nat,
                ),
            decreases sorted.len() - at,
        {
            proof {
                assert(before.skip(at as int)[0] == before[at as int]);
                assert(before.skip(at as int).drop_first() == before.skip(at + 1));
            }
            at += 1;
        }
        proof {
            if at < sorted.len() {
                assert(before.skip(at as int)[0] == before[at as int]);
            }
            assert(insert_position(before, amount as nat) == at);
            assert(tallies(groups@).take(i + 1).drop_last() == tallies(groups@).take(i as int));
            assert(tallies(groups@).take(i + 1).last() == (groups@[i as int].0@, amount as nat));
        }
        let label = groups[i].0.clone();
        sorted.insert(at, (label, amount));
        assert(tallies(sorted@) == before.insert(at as int, (groups@[i as int].0@, amount as nat)));
        i += 1;
    }
    assert(tallies(groups@).take(groups.len() as int) == tallies(groups@));
    sorted
}

/// Groups the entries by label, sums each group and orders the groups by
/// their sums, largest first. Fails where a sum does not fit in 64 bits.
pub fn build_report(entries: &Vec<(String, u64)>) -> (result: Result<
    Vec<(String, u64)>,
    StorageError,
>)
    ensures
        match result {
            Ok(rows) => tallies(rows@) == report(tallies(entries@)),
            Err(error) => error == StorageError::Overflow,
        },
        result is Err <==> overflows(tallies(entries@)),
{
    let ghost all = tallies(entries@);
    let mut groups: Vec<(String, u64)> = Vec::new();
    let mut i: usize = 0;
    while i < entries.len()
        invariant
            i <= entries.len(),
            all == tallies(entries@),
            tallies(groups@) == grouped(all.take(i as int)),
        decreases entries.len() - i,
    {
        let amount: u64 = entries[i].1;
        let ghost label = entries@[i as int].0@;
        proof {
            assert(all.take(i + 1).drop_last() == all.take(i as int));
            assert(all.take(i + 1).last() == (label, amount as nat));
        }
        match find_label(&groups, &entries[i].0) {
            Some(j) => {
                let ghost before = tallies(groups@);
                match groups[j].1.checked_add(amount) {
                    Some(sum) => {
                        let name = groups[j].0.clone();
                        groups.set(j, (name, sum));
                        proof {
                            lemma_first_index(before, has_label(label));
                            assert(before[j as int].0 == label);
                            assert(tallies(groups@) == before.update(
                                j as int,
                                (label, before[j as int].1 + amount as nat),
                            ));
                        }
                    },
                    None => {
                        proof {
                            let seen = all.take(i + 1);
                            lemma_first_index(before, has_label(label));
                            let after = before.update(
                                j as int,
                                (label, before[j as int].1 + amount as nat),
                            );
                            assert(grouped(seen) == after);
                            lemma_same_labels_same_find(before, after, label);
                            lemma_group_holds_label_total(seen, label);
                            lemma_label_total_grows(all, label, i + 1);
                            assert(label_total(all, label) > u64::MAX);
                        }
                        return Err(StorageError::Overflow);
                    },
                }
            },
            None => {
                let name = entries[i].0.clone();
                groups.push((name, amount));
                assert(tallies(groups@) == grouped(all.take(i as int)).push((label, amount as nat)));
            },
        }
        i += 1;
    }
    proof {
        assert(all.take(entries.len() as int) == all);
        assert forall|label: Seq<char>| label_total(all, label) <= u64::MAX by {
            lemma_group_holds_label_total(all, label);
            lemma_first_index(grouped(all), has_label(label));
        }
    }
    Ok(sort_groups(&groups))
}

} // verus!
