use crate::index::{index_of_text, is_number, number_of_text, parse_index};
use crate::priority::{priority_of_choice, rank, Priority};
use crate::task::{status_name, Task};
use vstd::prelude::*;

verus! {

/// What became of a command that names a task by its number.
#[derive(Clone, Copy, Debug, PartialEq, Eq, Structural)]
pub enum IndexOutcome {
    /// The input was not a number (an optional `+`, then digits); nothing
    /// changed.
    NotANumber,
    /// The number names no task, however large it is; nothing changed.
    InvalidNumber,
    /// The command was carried out.
    Done,
}

/// Whether a 1-based task number names a task of a list of `len` tasks.
pub open spec fn names_task(index: nat, len: nat) -> bool {
    1 <= index <= len
}

/// The tasks of `ts` that have priority `p`, in their order.
pub open spec fn with_priority(ts: Seq<Task>, p: Priority) -> Seq<Task> {
    ts.filter(has_priority(p))
}

pub open spec fn has_priority(p: Priority) -> spec_fn(Task) -> bool {
    |t: Task| t.priority == p
}

/// The tasks of `ts` ordered by priority, `Low` first; tasks of equal
/// priority keep their order.
pub open spec fn sorted_by_priority(ts: Seq<Task>) -> Seq<Task> {
    with_priority(ts, Priority::Low) + with_priority(ts, Priority::Medium) + with_priority(
        ts,
        Priority::High,
    )
}

/// Appends a task with the given description, not completed, whose priority
/// the token selects (`1` Low, `2` Medium, `3` High); any other token gives
/// `Low`. Returns whether the token selected a priority, so that the caller
/// can tell the user of the default.
pub fn add_task(tasks: &mut Vec<Task>, description: String, priority_input: &str) -> (r: bool)
    ensures
        r == (priority_of_choice(priority_input@) is Some),
        final(tasks)@.len() == old(tasks)@.len() + 1,
        final(tasks)@.subrange(0, old(tasks)@.len() as int) == old(tasks)@,
        final(tasks)@.last().description == description,
        !final(tasks)@.last().completed,
        final(tasks)@.last().priority == match priority_of_choice(priority_input@) {
            Some(p) => p,
            None => Priority::Low,
        },
{
    let choice = Priority::from_choice(priority_input);
    let priority = match choice {
        Some(p) => p,
        None => Priority::Low,
    };
    tasks.push(Task::new(description, priority));
    assert(tasks@.subrange(0, old(tasks)@.len() as int) =~= old(tasks)@);
    choice.is_some()
}

/// Marks the task at the 1-based position `index` completed. A number that
/// names no task changes nothing and gives `false`.
pub fn mark_completed_at(tasks: &mut Vec<Task>, index: usize) -> (r: bool)
    ensures
        r == names_task(index as nat, old(tasks)@.len()),
        r ==> final(tasks)@ == old(tasks)@.update(
            index - 1,
            (Task { completed: true, ..old(tasks)@[index - 1] }),
        ),
        !r ==> final(tasks)@ == old(tasks)@,
{
    if index > 0 && index <= tasks.len() {
        let mut t = tasks.remove(index - 1);
        t.mark_completed();
        tasks.insert(index - 1, t);
        assert(tasks@ =~= old(tasks)@.update(
            index - 1,
            (Task { completed: true, ..old(tasks)@[index - 1] }),
        ));
        true
    } else {
        false
    }
}

/// Removes the task at the 1-based position `index`; later tasks move one
/// place up. A number that names no task changes nothing and gives `false`.
pub fn delete_at(tasks: &mut Vec<Task>, index: usize) -> (r: bool)
    ensures
        r == names_task(index as nat, old(tasks)@.len()),
        r ==> final(tasks)@ == old(tasks)@.remove(index - 1),
        !r ==> final(tasks)@ == old(tasks)@,
{
    if index > 0 && index <= tasks.len() {
        tasks.remove(index - 1);
        true
    } else {
        false
    }
}

/// Marks completed the task whose number the user typed.
pub fn mark_task_completed(tasks: &mut Vec<Task>, input: &str) -> (r: IndexOutcome)
    ensures
        match number_of_text(input@) {
            None => r == IndexOutcome::NotANumber && final(tasks)@ == old(tasks)@,
            Some(n) => if names_task(n, old(tasks)@.len()) {
                r == IndexOutcome::Done && final(tasks)@ == old(tasks)@.update(
                    n - 1,
                    (Task { completed: true, ..old(tasks)@[n - 1] }),
                )
            } else {
                r == IndexOutcome::InvalidNumber && final(tasks)@ == old(tasks)@
            },
        },
{
    match parse_index(input) {
        None => if is_number(input) {
            // Too large for a `usize`, so larger than the list's length.
            let count = tasks.len();
            assert(index_of_text(input@) is None);
            assert(number_of_text(input@).unwrap() > count);
            IndexOutcome::InvalidNumber
        } else {
            IndexOutcome::NotANumber
        },
        Some(index) => if mark_completed_at(tasks, index) {
            IndexOutcome::Done
        } else {
            IndexOutcome::InvalidNumber
        },
    }
}

/// Deletes the task whose number the user typed.
pub fn delete_task(tasks: &mut Vec<Task>, input: &str) -> (r: IndexOutcome)
    ensures
        match number_of_text(input@) {
            None => r == IndexOutcome::NotANumber && final(tasks)@ == old(tasks)@,
            Some(n) => if names_task(n, old(tasks)@.len()) {
                r == IndexOutcome::Done && final(tasks)@ == old(tasks)@.remove(n - 1)
            } else {
                r == IndexOutcome::InvalidNumber && final(tasks)@ == old(tasks)@
            },
        },
{
    match parse_index(input) {
        None => if is_number(input) {
            // Too large for a `usize`, so larger than the list's length.
            let count = tasks.len();
            assert(index_of_text(input@) is None);
            assert(number_of_text(input@).unwrap() > count);
            IndexOutcome::InvalidNumber
        } else {
            IndexOutcome::NotANumber
        },
        Some(index) => if delete_at(tasks, index) {
            IndexOutcome::Done
        } else {
            IndexOutcome::InvalidNumber
        },
    }
}

/// Orders the list by priority, `Low` first, keeping the order of tasks of
/// equal priority.
pub fn sort_tasks(tasks: &mut Vec<Task>)
    ensures
        final(tasks)@ == sorted_by_priority(old(tasks)@),
{
    let ghost orig = tasks@;
    let n = tasks.len();
    let mut low: Vec<Task> = Vec::new();
    let mut medium: Vec<Task> = Vec::new();
    let mut high: Vec<Task> = Vec::new();
    assert(orig.subrange(0, 0) =~= Seq::<Task>::empty());
    while tasks.len() > 0
        invariant
            n == orig.len(),
            tasks@.len() <= n,
            tasks@ == orig.subrange(n - tasks@.len(), n as int),
            low@ == with_priority(orig.subrange(0, n - tasks@.len()), Priority::Low),
            medium@ == with_priority(orig.subrange(0, n - tasks@.len()), Priority::Medium),
            high@ == with_priority(orig.subrange(0, n - tasks@.len()), Priority::High),
        decreases tasks@.len(),
    {
        let ghost i = n - tasks@.len();
        let t = tasks.remove(0);
        let ghost done = orig.subrange(0, i);
        assert(orig.subrange(0, i + 1) =~= done.push(t));
        assert(tasks@ =~= orig.subrange(i + 1, n as int));
        proof {
            done.lemma_filter_push(t, has_priority(Priority::Low));
            done.lemma_filter_push(t, has_priority(Priority::Medium));
            done.lemma_filter_push(t, has_priority(Priority::High));
        }
        match t.priority {
            Priority::Low => low.push(t),
            Priority::Medium => medium.push(t),
            Priority::High => high.push(t),
        }
    }
    assert(orig.subrange(0, n as int) =~= orig);
    tasks.append(&mut low);
    tasks.append(&mut medium);
    tasks.append(&mut high);
    assert(tasks@ =~= sorted_by_priority(orig));
}

/// After sorting, priorities never decrease along the list.
pub proof fn lemma_sorted_is_ordered(ts: Seq<Task>, i: int, j: int)
    requires
        0 <= i < j < sorted_by_priority(ts).len(),
    ensures
        rank(sorted_by_priority(ts)[i].priority) <= rank(sorted_by_priority(ts)[j].priority),
{
    let l = with_priority(ts, Priority::Low);
    let m = with_priority(ts, Priority::Medium);
    let h = with_priority(ts, Priority::High);
    let s = sorted_by_priority(ts);
    assert forall|k: int| 0 <= k < l.len() implies #[trigger] l[k].priority == Priority::Low by {
        ts.lemma_filter_pred(has_priority(Priority::Low), k);
    }
    assert forall|k: int| 0 <= k < m.len() implies #[trigger] m[k].priority == Priority::Medium by {
        ts.lemma_filter_pred(has_priority(Priority::Medium), k);
    }
    assert forall|k: int| 0 <= k < h.len() implies #[trigger] h[k].priority == Priority::High by {
        ts.lemma_filter_pred(has_priority(Priority::High), k);
    }
    if i < l.len() {
        assert(s[i] == l[i]);
    } else if i < l.len() + m.len() {
        assert(s[i] == m[i - l.len()]);
        assert(j >= l.len());
        if j < l.len() + m.len() {
            assert(s[j] == m[j - l.len()]);
        } else {
            assert(s[j] == h[j - l.len() - m.len()]);
        }
    } else {
        assert(s[i] == h[i - l.len() - m.len()]);
        assert(s[j] == h[j - l.len() - m.len()]);
    }
}

/// Sorting keeps every task: the sorted list holds the same tasks, each as
/// often as before.
pub proof fn lemma_sorted_is_permutation(ts: Seq<Task>)
    ensures
        sorted_by_priority(ts).to_multiset() == ts.to_multiset(),
    decreases ts.len(),
{
    if ts.len() > 0 {
        let rest = ts.drop_last();
        let t = ts.last();
        lemma_sorted_is_permutation(rest);
        assert(ts =~= rest.push(t));
        rest.lemma_filter_push(t, has_priority(Priority::Low));
        rest.lemma_filter_push(t, has_priority(Priority::Medium));
        rest.lemma_filter_push(t, has_priority(Priority::High));
        let l = with_priority(rest, Priority::Low);
        let m = with_priority(rest, Priority::Medium);
        let h = with_priority(rest, Priority::High);
        vstd::seq_lib::lemma_multiset_commutative(l, m);
        vstd::seq_lib::lemma_multiset_commutative(l + m, h);
        vstd::seq_lib::lemma_multiset_commutative(l.push(t), m);
        vstd::seq_lib::lemma_multiset_commutative(l + m.push(t), h);
        vstd::seq_lib::lemma_multiset_commutative(l + m, h.push(t));
        vstd::seq_lib::lemma_multiset_commutative(l.push(t) + m, h);
        vstd::seq_lib::lemma_multiset_commutative(l, m.push(t));
        assert(h.push(t).to_multiset() == h.to_multiset().insert(t)) by {
            h.to_multiset_ensures();
        }
        assert(m.push(t).to_multiset() == m.to_multiset().insert(t)) by {
            m.to_multiset_ensures();
        }
        assert(l.push(t).to_multiset() == l.to_multiset().insert(t)) by {
            l.to_multiset_ensures();
        }
        assert(ts.to_multiset() == rest.to_multiset().insert(t)) by {
            rest.to_multiset_ensures();
        }
        assert(sorted_by_priority(ts).to_multiset() =~= ts.to_multiset());
    } else {
        assert(sorted_by_priority(ts) =~= ts);
    }
}

/// One line of the task listing.
pub struct ListEntry {
    /// The task's 1-based position.
    pub number: usize,
    pub description: String,
    pub completed: bool,
    /// `Completed` or `Pending`.
    pub status: String,
    pub priority: Priority,
}

/// The listing of the tasks: one entry per task, in list order, numbered
/// from 1. An empty list gives no entries.
pub fn list_tasks(tasks: &Vec<Task>) -> (r: Vec<ListEntry>)
    ensures
        r@.len() == tasks@.len(),
        forall|i: int|
            0 <= i < r@.len() ==> {
                &&& (#[trigger] r@[i]).number == i + 1
                &&& r@[i].description@ == tasks@[i].description@
                &&& r@[i].completed == tasks@[i].completed
                &&& r@[i].status@ == status_name(tasks@[i].completed)
                &&& r@[i].priority == tasks@[i].priority
            },
{
    let mut out: Vec<ListEntry> = Vec::new();
    let mut i: usize = 0;
    while i < tasks.len()
        invariant
            i <= tasks@.len(),
            out@.len() == i,
            forall|k: int|
                0 <= k < i ==> {
                    &&& (#[trigger] out@[k]).number == k + 1
                    &&& out@[k].description@ == tasks@[k].description@
                    &&& out@[k].completed == tasks@[k].completed
                    &&& out@[k].status@ == status_name(tasks@[k].completed)
                    &&& out@[k].priority == tasks@[k].priority
                },
        decreases tasks@.len() - i,
    {
        let t = &tasks[i];
        out.push(
            ListEntry {
                number: i + 1,
                description: t.description.clone(),
                completed: t.completed,
                status: String::from_str(t.get_status_str()),
                priority: t.priority,
            },
        );
        i = i + 1;
    }
    out
}

} // verus!
