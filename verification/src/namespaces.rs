//! The list of namespaces with their live memory counts.

use vstd::prelude::*;

use crate::order::{lemma_text_total, lemma_text_transitive, text_at_most, text_le};
use crate::text::same_text;

verus! {

/// How many memories of one namespace share a consolidation status. A memory
/// without a status counts as active.
pub struct NamespaceRow {
    pub namespace: String,
    pub status: Option<String>,
    pub memories: i64,
}

/// What the store says about its namespaces: the counts of its memories, and
/// the namespaces of its tasks where it has a table of tasks.
pub struct NamespaceRows {
    pub memories: Vec<NamespaceRow>,
    pub tasks: Option<Vec<String>>,
}

impl NamespaceRow {
    /// Whether the memories counted here were not forgotten.
    pub open spec fn is_live(self) -> bool {
        self.status matches Some(s) ==> s@ != "tombstoned"@
    }

    /// Whether live memories of the namespace `name` are counted here.
    pub open spec fn counts(self, name: Seq<char>) -> bool {
        self.is_live() && self.namespace@ == name
    }
}

/// The live memories of the namespace `name`.
pub open spec fn live_in(rows: Seq<NamespaceRow>, name: Seq<char>) -> int
    decreases rows.len(),
{
    if rows.len() == 0 {
        0
    } else {
        live_in(rows.drop_last(), name) + if rows.last().counts(name) {
            rows.last().memories as int
        } else {
            0
        }
    }
}

/// The live memories of all namespaces.
pub open spec fn live_total(rows: Seq<NamespaceRow>) -> int
    decreases rows.len(),
{
    if rows.len() == 0 {
        0
    } else {
        live_total(rows.drop_last()) + if rows.last().is_live() {
            rows.last().memories as int
        } else {
            0
        }
    }
}

/// Whether the namespace `name` has live memories.
pub open spec fn has_live(rows: Seq<NamespaceRow>, name: Seq<char>) -> bool {
    exists|i: int| 0 <= i < rows.len() && (#[trigger] rows[i]).counts(name)
}

/// Whether one of `names` is `name`.
pub open spec fn has_name(names: Seq<String>, name: Seq<char>) -> bool {
    exists|i: int| 0 <= i < names.len() && (#[trigger] names[i])@ == name
}

impl NamespaceRows {
    /// The namespaces of the tasks.
    pub open spec fn task_names(self) -> Seq<String> {
        match self.tasks {
            Some(names) => names@,
            None => Seq::empty(),
        }
    }

    /// Every namespace, with the number of its live memories: those that have
    /// such memories and those that only hold tasks.
    pub open spec fn contents(self) -> Map<Seq<char>, int> {
        Map::new(
            |name: Seq<char>|
                has_live(self.memories@, name) || has_name(self.task_names(), name),
            |name: Seq<char>| live_in(self.memories@, name),
        )
    }

    /// Whether the counts are counts and their sum is in range.
    pub open spec fn countable(self) -> bool {
        &&& forall|i: int| 0 <= i < self.memories@.len() ==> (#[trigger] self.memories@[i]).memories >= 0
        &&& live_total(self.memories@) <= i64::MAX
    }
}

/// Whether the entries of `list` stand in the order of their names, each name
/// once.
pub open spec fn strictly_sorted(list: Seq<(String, i64)>) -> bool {
    forall|i: int, j: int|
        0 <= i < j < list.len() ==> text_at_most((#[trigger] list[i]).0@, (#[trigger] list[j]).0@)
            && list[i].0@ != list[j].0@
}

/// Whether `list` has an entry for `name`.
pub open spec fn has_entry(list: Seq<(String, i64)>, name: Seq<char>) -> bool {
    exists|i: int| 0 <= i < list.len() && (#[trigger] list[i]).0@ == name
}

/// The entries of `list`, by name.
pub open spec fn entries(list: Seq<(String, i64)>) -> Map<Seq<char>, int> {
    Map::new(
        |name: Seq<char>| has_entry(list, name),
        |name: Seq<char>|
            list[choose|i: int| 0 <= i < list.len() && (#[trigger] list[i]).0@ == name].1 as int,
    )
}

/// The sum of the counts of `list`.
pub open spec fn sum_of(list: Seq<(String, i64)>) -> int
    decreases list.len(),
{
    if list.len() == 0 {
        0
    } else {
        sum_of(list.drop_last()) + list.last().1
    }
}

proof fn lemma_entry(list: Seq<(String, i64)>, i: int)
    requires
        strictly_sorted(list),
        0 <= i < list.len(),
    ensures
        entries(list).contains_key(list[i].0@),
        entries(list)[list[i].0@] == list[i].1,
{
    let name = list[i].0@;
    let k = choose|k: int| 0 <= k < list.len() && (#[trigger] list[k]).0@ == name;
    assert(0 <= k < list.len() && list[k].0@ == name);
}

proof fn lemma_sum_update(list: Seq<(String, i64)>, i: int, e: (String, i64))
    requires
        0 <= i < list.len(),
    ensures
        sum_of(list.update(i, e)) == sum_of(list) - list[i].1 + e.1,
    decreases list.len(),
{
    if i == list.len() - 1 {
        assert(list.update(i, e).drop_last() =~= list.drop_last());
    } else {
        assert(list.update(i, e).drop_last() =~= list.drop_last().update(i, e));
        lemma_sum_update(list.drop_last(), i, e);
    }
}

proof fn lemma_sum_insert(list: Seq<(String, i64)>, i: int, e: (String, i64))
    requires
        0 <= i <= list.len(),
    ensures
        sum_of(list.insert(i, e)) == sum_of(list) + e.1,
    decreases list.len(),
{
    let t = list.insert(i, e);
    if i == list.len() {
        assert(t.drop_last() =~= list);
    } else {
        assert(t.drop_last() =~= list.drop_last().insert(i, e));
        assert(t.last() == list.last());
        lemma_sum_insert(list.drop_last(), i, e);
    }
}

/// The count of `name`, nothing where it has no entry.
pub open spec fn count_in(list: Seq<(String, i64)>, name: Seq<char>) -> int {
    if entries(list).contains_key(name) {
        entries(list)[name]
    } else {
        0
    }
}

/// Adds `n` to the count of `name`, which gets an entry if it has none.
fn add_count(list: &mut Vec<(String, i64)>, name: &String, n: i64)
    requires
        strictly_sorted(old(list)@),
        0 <= count_in(old(list)@, name@) + n <= i64::MAX,
    ensures
        strictly_sorted(final(list)@),
        entries(final(list)@) == entries(old(list)@).insert(
            name@,
            count_in(old(list)@, name@) + n,
        ),
        sum_of(final(list)@) == sum_of(old(list)@) + n,
{
    let mut at: usize = 0;
    while at < list.len() && !text_le(name.as_str(), list[at].0.as_str())
        invariant
            at <= list.len(),
            list@ == old(list)@,
            strictly_sorted(list@),
            forall|i: int| 0 <= i < at ==> !text_at_most(name@, (#[trigger] list@[i]).0@),
        decreases list.len() - at,
    {
        at += 1;
    }
    let ghost before = list@;
    if at < list.len() && same_text(list[at].0.as_str(), name.as_str()) {
        let count: i64 = list[at].1;
        proof {
            lemma_entry(before, at as int);
        }
        let ghost e = (*name, (count + n) as i64);
        list.set(at, (name.clone(), count + n));
        proof {
            lemma_sum_update(before, at as int, e);
            assert forall|i: int, j: int| 0 <= i < j < list@.len() implies text_at_most(
                (#[trigger] list@[i]).0@,
                (#[trigger] list@[j]).0@,
            ) && list@[i].0@ != list@[j].0@ by {
                assert(list@[i].0@ == before[i].0@);
                assert(list@[j].0@ == before[j].0@);
            }
            assert forall|other: Seq<char>| has_entry(list@, other) == has_entry(before, other) by {
                if has_entry(before, other) {
                    let i = choose|i: int| 0 <= i < before.len() && (#[trigger] before[i]).0@ == other;
                    assert(list@[i].0@ == other);
                }
                if has_entry(list@, other) {
                    let i = choose|i: int| 0 <= i < list@.len() && (#[trigger] list@[i]).0@ == other;
                    assert(before[i].0@ == other);
                }
            }
            assert forall|other: Seq<char>| has_entry(list@, other) implies entries(list@)[other]
                == entries(before).insert(name@, count_in(before, name@) + n)[other] by {
                let i = choose|i: int| 0 <= i < list@.len() && (#[trigger] list@[i]).0@ == other;
                lemma_entry(list@, i);
                lemma_entry(before, i);
            }
            assert(entries(list@) =~= entries(before).insert(
                name@,
                count_in(before, name@) + n,
            ));
        }
    } else {
        proof {
            assert forall|i: int| at <= i < before.len() implies text_at_most(
                name@,
                (#[trigger] before[i]).0@,
            ) && name@ != before[i].0@ by {
                lemma_text_total(name@, before[at as int].0@);
                if i > at {
                    lemma_text_transitive(name@, before[at as int].0@, before[i].0@);
                    lemma_text_total(before[at as int].0@, before[i].0@);
                }
            }
            assert(!has_entry(before, name@)) by {
                if has_entry(before, name@) {
                    let i = choose|i: int| 0 <= i < before.len() && (#[trigger] before[i]).0@ == name@;
                    lemma_text_total(name@, name@);
                    assert(i >= at);
                }
            }
        }
        let ghost e = (*name, n);
        list.insert(at, (name.clone(), n));
        proof {
            lemma_sum_insert(before, at as int, e);
            assert forall|i: int, j: int| 0 <= i < j < list@.len() implies text_at_most(
                (#[trigger] list@[i]).0@,
                (#[trigger] list@[j]).0@,
            ) && list@[i].0@ != list@[j].0@ by {
                if j == at {
                    assert(list@[i] == before[i]);
                    lemma_text_total(before[i].0@, name@);
                } else if i == at {
                    assert(list@[j] == before[j - 1]);
                } else {
                    let i0 = if i < at {
                        i
                    } else {
                        i - 1
                    };
                    let j0 = if j < at {
                        j
                    } else {
                        j - 1
                    };
                    assert(list@[i] == before[i0] && list@[j] == before[j0]);
                }
            }
            assert(list@[at as int].0@ == name@);
            assert forall|other: Seq<char>|
                has_entry(list@, other) == (other == name@ || has_entry(before, other)) by {
                if has_entry(before, other) {
                    let i = choose|i: int| 0 <= i < before.len() && (#[trigger] before[i]).0@ == other;
                    if i < at {
                        assert(list@[i] == before[i]);
                    } else {
                        assert(list@[i + 1] == before[i]);
                    }
                }
                if has_entry(list@, other) && other != name@ {
                    let i = choose|i: int| 0 <= i < list@.len() && (#[trigger] list@[i]).0@ == other;
                    if i < at {
                        assert(list@[i] == before[i]);
                    } else {
                        assert(list@[i] == before[i - 1]);
                    }
                }
            }
            assert forall|other: Seq<char>| has_entry(list@, other) implies entries(list@)[other]
                == entries(before).insert(name@, count_in(before, name@) + n)[other] by {
                let i = choose|i: int| 0 <= i < list@.len() && (#[trigger] list@[i]).0@ == other;
                lemma_entry(list@, i);
                if i < at {
                    assert(list@[i] == before[i]);
                    lemma_entry(before, i);
                } else if i > at {
                    assert(list@[i] == before[i - 1]);
                    lemma_entry(before, i - 1);
                }
            }
            assert(entries(list@) =~= entries(before).insert(
                name@,
                count_in(before, name@) + n,
            ));
        }
    }
}

/// Part of the counts is no more than all of them.
proof fn lemma_live_bounds(rows: Seq<NamespaceRow>, k: int, name: Seq<char>)
    requires
        forall|i: int| 0 <= i < rows.len() ==> (#[trigger] rows[i]).memories >= 0,
        0 <= k <= rows.len(),
    ensures
        0 <= live_in(rows.take(k), name) <= live_total(rows.take(k)) <= live_total(rows),
    decreases rows.len(),
{
    if k < rows.len() {
        assert(rows.drop_last().take(k) =~= rows.take(k));
        assert(rows[rows.len() - 1].memories >= 0);
        lemma_live_bounds(rows.drop_last(), k, name);
    } else {
        assert(rows.take(k) =~= rows);
        if k > 0 {
            assert(rows.drop_last().take(k - 1) =~= rows.drop_last());
            assert(rows[rows.len() - 1].memories >= 0);
            lemma_live_bounds(rows.drop_last(), k - 1, name);
        }
    }
}

fn live(row: &NamespaceRow) -> (r: bool)
    ensures
        r == row.is_live(),
{
    match &row.status {
        Some(status) => !same_text(status.as_str(), "tombstoned"),
        None => true,
    }
}

/// Whether the counts are counts and their sum is in range.
pub fn can_count(rows: &NamespaceRows) -> (r: bool)
    ensures
        r == rows.countable(),
{
    let mut sum: i64 = 0;
    let mut ok: bool = true;
    let mut i: usize = 0;
    while i < rows.memories.len()
        invariant
            i <= rows.memories.len(),
            ok ==> sum == live_total(rows.memories@.take(i as int)),
            sum >= 0,
            ok ==> forall|j: int| 0 <= j < i ==> (#[trigger] rows.memories@[j]).memories >= 0,
            !ok ==> !rows.countable(),
        decreases rows.memories.len() - i,
    {
        let row = &rows.memories[i];
        let ghost all = rows.memories@;
        assert(all.take(i + 1).drop_last() =~= all.take(i as int));
        if ok {
            if row.memories < 0 {
                ok = false;
            } else if live(row) {
                match sum.checked_add(row.memories) {
                    Some(more) => {
                        sum = more;
                    },
                    None => {
                        proof {
                            if rows.countable() {
                                lemma_live_bounds(all, i + 1, Seq::empty());
                            }
                        }
                        ok = false;
                    },
                }
            }
        }
        i += 1;
    }
    assert(rows.memories@.take(i as int) =~= rows.memories@);
    ok
}

/// Whether `list` is the list of the namespaces of `rows`: "(all)" with the
/// number of all live memories first, then every namespace by its name with
/// the number of its own.
pub open spec fn lists(rows: NamespaceRows, list: Seq<(String, i64)>) -> bool {
    &&& list.len() > 0
    &&& list[0].0@ == "(all)"@
    &&& list[0].1 == live_total(rows.memories@)
    &&& sum_of(list.skip(1)) == live_total(rows.memories@)
    &&& strictly_sorted(list.skip(1))
    &&& entries(list.skip(1)) == rows.contents()
}

/// The counts of the live memories by namespace, in the order of the names.
fn count_live(rows: &NamespaceRows) -> (list: Vec<(String, i64)>)
    requires
        rows.countable(),
    ensures
        strictly_sorted(list@),
        sum_of(list@) == live_total(rows.memories@),
        forall|name: Seq<char>|
            entries(list@).contains_key(name) == has_live(rows.memories@, name),
        forall|name: Seq<char>| #[trigger]
            count_in(list@, name) == live_in(rows.memories@, name),
{
    let mut list: Vec<(String, i64)> = Vec::new();
    let mut i: usize = 0;
    let ghost all = rows.memories@;
    while i < rows.memories.len()
        invariant
            i <= rows.memories.len(),
            all == rows.memories@,
            rows.countable(),
            strictly_sorted(list@),
            sum_of(list@) == live_total(all.take(i as int)),
            forall|name: Seq<char>|
                entries(list@).contains_key(name) == has_live(all.take(i as int), name),
            forall|name: Seq<char>| #[trigger]
                count_in(list@, name) == live_in(all.take(i as int), name),
        decreases rows.memories.len() - i,
    {
        let row = &rows.memories[i];
        let ghost front = all.take(i as int);
        let ghost next = all.take(i + 1);
        let ghost before = list@;
        assert(next.drop_last() =~= front);
        assert(next.last() == *row);
        assert forall|name: Seq<char>|
            has_live(next, name) == (has_live(front, name) || row.counts(name)) by {
            if has_live(front, name) {
                let k = choose|k: int| 0 <= k < front.len() && (#[trigger] front[k]).counts(name);
                assert(next[k].counts(name));
            }
            if row.counts(name) {
                assert(next[i as int].counts(name));
            }
            if has_live(next, name) && !row.counts(name) {
                let k = choose|k: int| 0 <= k < next.len() && (#[trigger] next[k]).counts(name);
                assert(front[k].counts(name));
            }
        }
        if live(row) {
            proof {
                lemma_live_bounds(all, i as int, row.namespace@);
                lemma_live_bounds(all, i + 1, row.namespace@);
            }
            add_count(&mut list, &row.namespace, row.memories);
            assert forall|name: Seq<char>| #[trigger]
                count_in(list@, name) == live_in(next, name) by {
                assert(count_in(before, name) == live_in(front, name));
            }
        } else {
            assert forall|name: Seq<char>| #[trigger]
                count_in(list@, name) == live_in(next, name) by {
                assert(count_in(before, name) == live_in(front, name));
            }
        }
        i += 1;
    }
    assert(all.take(i as int) =~= all);
    list
}

/// The list of namespaces: "(all)" first, then every namespace, those that
/// only hold tasks with a count of nothing.
pub fn list_namespaces(rows: &NamespaceRows) -> (list: Vec<(String, i64)>)
    requires
        rows.countable(),
    ensures
        lists(*rows, list@),
{
    let mut named = count_live(rows);
    if let Some(tasks) = &rows.tasks {
        let mut i: usize = 0;
        while i < tasks.len()
            invariant
                i <= tasks.len(),
                rows.countable(),
                strictly_sorted(named@),
                sum_of(named@) == live_total(rows.memories@),
                forall|name: Seq<char>| #[trigger]
                    entries(named@).contains_key(name) == (has_live(rows.memories@, name)
                        || has_name(tasks@.take(i as int), name)),
                forall|name: Seq<char>| #[trigger]
                    count_in(named@, name) == live_in(rows.memories@, name),
            decreases tasks.len() - i,
        {
            let ghost before = named@;
            let ghost front = tasks@.take(i as int);
            let ghost next = tasks@.take(i + 1);
            let task = &tasks[i];
            proof {
                assert(rows.memories@.take(rows.memories@.len() as int) =~= rows.memories@);
                lemma_live_bounds(rows.memories@, rows.memories@.len() as int, task@);
                assert(count_in(before, task@) == live_in(rows.memories@, task@));
            }
            add_count(&mut named, task, 0);
            assert forall|name: Seq<char>|
                has_name(next, name) == (has_name(front, name) || task@ == name) by {
                if has_name(front, name) {
                    let k = choose|k: int| 0 <= k < front.len() && (#[trigger] front[k])@ == name;
                    assert(next[k]@ == name);
                }
                if task@ == name {
                    assert(next[i as int]@ == name);
                }
                if has_name(next, name) && task@ != name {
                    let k = choose|k: int| 0 <= k < next.len() && (#[trigger] next[k])@ == name;
                    assert(front[k]@ == name);
                }
            }
            assert forall|name: Seq<char>| #[trigger]
                count_in(named@, name) == live_in(rows.memories@, name) by {
                assert(count_in(before, name) == live_in(rows.memories@, name));
            }
            assert forall|name: Seq<char>| #[trigger]
                entries(named@).contains_key(name) == (has_live(rows.memories@, name) || has_name(
                    next,
                    name,
                )) by {
                assert(entries(before).contains_key(name) == (has_live(rows.memories@, name)
                    || has_name(front, name)));
            }
            i += 1;
        }
        assert(tasks@.take(i as int) =~= tasks@);
    }
    let all: i64 = sum_counts(rows);
    let mut list: Vec<(String, i64)> = Vec::new();
    list.push(("(all)".to_owned(), all));
    let ghost rest = named@;
    proof {
        assert forall|name: Seq<char>| #[trigger] entries(rest).contains_key(name) implies entries(
            rest,
        )[name] == rows.contents()[name] by {
            assert(count_in(rest, name) == live_in(rows.memories@, name));
        }
        assert(entries(rest) =~= rows.contents());
    }
    list.append(&mut named);
    assert(list@.skip(1) =~= rest);
    list
}

fn sum_counts(rows: &NamespaceRows) -> (sum: i64)
    requires
        rows.countable(),
    ensures
        sum == live_total(rows.memories@),
{
    let mut sum: i64 = 0;
    let mut i: usize = 0;
    while i < rows.memories.len()
        invariant
            i <= rows.memories.len(),
            rows.countable(),
            sum == live_total(rows.memories@.take(i as int)),
        decreases rows.memories.len() - i,
    {
        let row = &rows.memories[i];
        assert(rows.memories@.take(i + 1).drop_last() =~= rows.memories@.take(i as int));
        if live(row) {
            proof {
                lemma_live_bounds(rows.memories@, i as int, Seq::empty());
                lemma_live_bounds(rows.memories@, i + 1, Seq::empty());
            }
            sum = sum + row.memories;
        }
        i += 1;
    }
    assert(rows.memories@.take(i as int) =~= rows.memories@);
    sum
}

// Laws ------------------------------------------------------------------

proof fn lemma_listed(rows: NamespaceRows, list: Seq<(String, i64)>, i: int)
    requires
        lists(rows, list),
        1 <= i < list.len(),
    ensures
        rows.contents().contains_key(list[i].0@),
        list[i].1 == live_in(rows.memories@, list[i].0@),
{
    lemma_entry(list.skip(1), i - 1);
    assert(list.skip(1)[i - 1] == list[i]);
}

proof fn lemma_is_listed(rows: NamespaceRows, list: Seq<(String, i64)>, name: Seq<char>) -> (i: int)
    requires
        lists(rows, list),
        rows.contents().contains_key(name),
    ensures
        1 <= i < list.len(),
        list[i].0@ == name,
        list[i].1 == live_in(rows.memories@, name),
{
    let rest = list.skip(1);
    assert(entries(rest).contains_key(name));
    let k = choose|k: int| 0 <= k < rest.len() && (#[trigger] rest[k]).0@ == name;
    assert(list[k + 1] == rest[k]);
    lemma_listed(rows, list, k + 1);
    k + 1
}

/// The list starts with "(all)", whose count is the sum of the others, and the
/// others stand by their names, each once.
pub proof fn law_all_comes_first(rows: NamespaceRows, list: Seq<(String, i64)>)
    requires
        lists(rows, list),
    ensures
        list.len() > 0,
        list[0].0@ == "(all)"@,
        list[0].1 == list.skip(1).fold_left(0, |sum: int, e: (String, i64)| sum + e.1),
        forall|i: int, j: int|
            1 <= i < j < list.len() ==> text_at_most((#[trigger] list[i]).0@, (#[trigger] list[j]).0@)
                && list[i].0@ != list[j].0@,
{
    let rest = list.skip(1);
    lemma_sum_folds(rest);
    assert forall|i: int, j: int| 1 <= i < j < list.len() implies text_at_most(
        (#[trigger] list[i]).0@,
        (#[trigger] list[j]).0@,
    ) && list[i].0@ != list[j].0@ by {
        assert(rest[i - 1] == list[i] && rest[j - 1] == list[j]);
    }
}

proof fn lemma_sum_folds(list: Seq<(String, i64)>)
    ensures
        sum_of(list) == list.fold_left(0, |sum: int, e: (String, i64)| sum + e.1),
    decreases list.len(),
{
    reveal(Seq::fold_left);
    if list.len() > 0 {
        lemma_sum_folds(list.drop_last());
    }
}

/// A store that says nothing lists nothing but "(all)", with no memories.
pub proof fn law_an_empty_store_lists_all(rows: NamespaceRows, list: Seq<(String, i64)>)
    requires
        lists(rows, list),
        rows.memories@.len() == 0,
        rows.tasks matches Some(names) ==> names@.len() == 0,
    ensures
        list.len() == 1,
        list[0].1 == 0,
{
    if list.len() > 1 {
        lemma_listed(rows, list, 1);
    }
}

/// Further memories of a namespace are added to its count and to that of all,
/// unless they were forgotten; the namespace is listed if it was not, and no
/// other entry changes.
pub proof fn law_further_memories_are_counted(
    before: NamespaceRows,
    after: NamespaceRows,
    a: Seq<(String, i64)>,
    b: Seq<(String, i64)>,
    row: NamespaceRow,
)
    requires
        lists(before, a),
        lists(after, b),
        after.memories@ == before.memories@.push(row),
        after.tasks == before.tasks,
    ensures
        ({
            let live = row.status matches Some(status) ==> status@ != "tombstoned"@;
            let added = if live {
                row.memories as int
            } else {
                0
            };
            &&& b[0].1 == a[0].1 + added
            &&& forall|i: int|
                1 <= i < a.len() ==> exists|j: int|
                    1 <= j < b.len() && (#[trigger] b[j]).0@ == (#[trigger] a[i]).0@ && b[j].1
                        == a[i].1 + if a[i].0@ == row.namespace@ {
                        added
                    } else {
                        0
                    }
            &&& forall|j: int|
                1 <= j < b.len() ==> (#[trigger] b[j]).0@ == row.namespace@ && live || exists|i: int|
                    1 <= i < a.len() && (#[trigger] a[i]).0@ == b[j].0@
            &&& live ==> exists|j: int|
                1 <= j < b.len() && (#[trigger] b[j]).0@ == row.namespace@ && ((forall|i: int|
                    1 <= i < a.len() ==> (#[trigger] a[i]).0@ != row.namespace@) ==> b[j].1
                    == added)
        }),
{
    let live = row.status matches Some(status) ==> status@ != "tombstoned"@;
    let added = if live {
        row.memories as int
    } else {
        0
    };
    let (old_rows, new_rows) = (before.memories@, after.memories@);
    assert(new_rows.drop_last() =~= old_rows);
    assert forall|name: Seq<char>| has_live(new_rows, name) == (has_live(old_rows, name) || (live
        && row.namespace@ == name)) by {
        if has_live(old_rows, name) {
            let k = choose|k: int| 0 <= k < old_rows.len() && (#[trigger] old_rows[k]).counts(name);
            assert(new_rows[k].counts(name));
        }
        if live && row.namespace@ == name {
            assert(new_rows[new_rows.len() - 1].counts(name));
        }
        if has_live(new_rows, name) && !(live && row.namespace@ == name) {
            let k = choose|k: int| 0 <= k < new_rows.len() && (#[trigger] new_rows[k]).counts(name);
            assert(old_rows[k].counts(name));
        }
    }
    assert forall|i: int| 1 <= i < a.len() implies exists|j: int|
        1 <= j < b.len() && (#[trigger] b[j]).0@ == (#[trigger] a[i]).0@ && b[j].1 == a[i].1
            + if a[i].0@ == row.namespace@ {
            added
        } else {
            0
        } by {
        lemma_listed(before, a, i);
        let name = a[i].0@;
        assert(has_live(new_rows, name) == (has_live(old_rows, name) || (live && row.namespace@
            == name)));
        let j = lemma_is_listed(after, b, name);
        assert(b[j].0@ == a[i].0@);
    }
    assert forall|j: int| 1 <= j < b.len() implies (#[trigger] b[j]).0@ == row.namespace@ && live
        || exists|i: int| 1 <= i < a.len() && (#[trigger] a[i]).0@ == b[j].0@ by {
        lemma_listed(after, b, j);
        let name = b[j].0@;
        assert(has_live(new_rows, name) == (has_live(old_rows, name) || (live && row.namespace@
            == name)));
        if !(name == row.namespace@ && live) {
            let i = lemma_is_listed(before, a, name);
            assert(a[i].0@ == b[j].0@);
        }
    }
    if live {
        let name = row.namespace@;
        assert(has_live(new_rows, name));
        let j = lemma_is_listed(after, b, name);
        if forall|i: int| 1 <= i < a.len() ==> (#[trigger] a[i]).0@ != name {
            if before.contents().contains_key(name) {
                let i = lemma_is_listed(before, a, name);
            }
            assert(!has_live(old_rows, name));
            lemma_not_live(old_rows, name);
        }
        assert(b[j].0@ == name);
    }
}

proof fn lemma_not_live(rows: Seq<NamespaceRow>, name: Seq<char>)
    requires
        !has_live(rows, name),
    ensures
        live_in(rows, name) == 0,
    decreases rows.len(),
{
    if rows.len() > 0 {
        let front = rows.drop_last();
        if has_live(front, name) {
            let k = choose|k: int| 0 <= k < front.len() && (#[trigger] front[k]).counts(name);
            assert(rows[k].counts(name));
        }
        assert(!rows[rows.len() - 1].counts(name));
        lemma_not_live(front, name);
    }
}

/// The namespace of a further task is listed if it was not, with no memories,
/// and no other entry changes.
pub proof fn law_namespaces_of_tasks_are_listed(
    before: NamespaceRows,
    after: NamespaceRows,
    a: Seq<(String, i64)>,
    b: Seq<(String, i64)>,
    names: Seq<String>,
    task: String,
)
    requires
        lists(before, a),
        lists(after, b),
        after.memories@ == before.memories@,
        match before.tasks {
            Some(old_names) => old_names@ == names,
            None => names.len() == 0,
        },
        after.tasks matches Some(new_names) && new_names@ == names.push(task),
    ensures
        b[0].1 == a[0].1,
        forall|i: int|
            1 <= i < a.len() ==> exists|j: int|
                1 <= j < b.len() && (#[trigger] b[j]).0@ == (#[trigger] a[i]).0@ && b[j].1 == a[i].1,
        forall|j: int|
            1 <= j < b.len() ==> {
                ||| exists|i: int| 1 <= i < a.len() && (#[trigger] a[i]).0@ == b[j].0@
                ||| ((#[trigger] b[j]).0@ == task@ && b[j].1 == 0)
            },
        exists|j: int| 1 <= j < b.len() && (#[trigger] b[j]).0@ == task@,
{
    let more = after.task_names();
    assert forall|name: Seq<char>| has_name(more, name) == (has_name(names, name) || task@ == name) by {
        if has_name(names, name) {
            let k = choose|k: int| 0 <= k < names.len() && (#[trigger] names[k])@ == name;
            assert(more[k]@ == name);
        }
        if task@ == name {
            assert(more[names.len() as int]@ == name);
        }
        if has_name(more, name) && task@ != name {
            let k = choose|k: int| 0 <= k < more.len() && (#[trigger] more[k])@ == name;
            assert(names[k]@ == name);
        }
    }
    assert(before.task_names() =~= names);
    assert forall|i: int| 1 <= i < a.len() implies exists|j: int|
        1 <= j < b.len() && (#[trigger] b[j]).0@ == (#[trigger] a[i]).0@ && b[j].1 == a[i].1 by {
        lemma_listed(before, a, i);
        assert(has_name(more, a[i].0@) == (has_name(names, a[i].0@) || task@ == a[i].0@));
        let j = lemma_is_listed(after, b, a[i].0@);
        assert(b[j].0@ == a[i].0@);
    }
    assert forall|j: int| 1 <= j < b.len() implies {
        ||| exists|i: int| 1 <= i < a.len() && (#[trigger] a[i]).0@ == b[j].0@
        ||| ((#[trigger] b[j]).0@ == task@ && b[j].1 == 0)
    } by {
        lemma_listed(after, b, j);
        let name = b[j].0@;
        assert(has_name(more, name) == (has_name(names, name) || task@ == name));
        if before.contents().contains_key(name) {
            let i = lemma_is_listed(before, a, name);
            assert(a[i].0@ == b[j].0@);
        } else {
            lemma_not_live(before.memories@, name);
        }
    }
    assert(has_name(more, task@));
    let j = lemma_is_listed(after, b, task@);
    assert(b[j].0@ == task@);
}

/// A store can be listed exactly where no count is below nothing and the counts
/// of its memories that were not forgotten add up to what an `i64` holds.
pub proof fn law_what_can_be_counted(rows: NamespaceRows)
    ensures
        rows.countable() <==> {
            &&& forall|i: int|
                0 <= i < rows.memories@.len() ==> (#[trigger] rows.memories@[i]).memories >= 0
            &&& rows.memories@.fold_left(
                0int,
                |sum: int, r: NamespaceRow|
                    if r.status matches Some(s) && s@ == "tombstoned"@ {
                        sum
                    } else {
                        sum + r.memories
                    },
            ) <= i64::MAX
        },
{
    lemma_total_folds(rows.memories@);
}

proof fn lemma_total_folds(rows: Seq<NamespaceRow>)
    ensures
        live_total(rows) == rows.fold_left(
            0int,
            |sum: int, r: NamespaceRow|
                if r.status matches Some(s) && s@ == "tombstoned"@ {
                    sum
                } else {
                    sum + r.memories
                },
        ),
    decreases rows.len(),
{
    reveal(Seq::fold_left);
    if rows.len() > 0 {
        lemma_total_folds(rows.drop_last());
    }
}

} // verus!
