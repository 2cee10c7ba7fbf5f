use crate::priority::{lemma_name_round_trip, priority_name, priority_of_name, Priority};
use crate::task::{models, status_name, Task, TaskModel};
use crate::text::{
    lemma_split_concat, lemma_split_nonempty, lemma_split_without_delimiter, same_text, split,
    split_on, views,
};
use vstd::prelude::*;

verus! {

/// The stored line of one task: description, status and priority name,
/// joined by `|`.
pub open spec fn record_line(t: TaskModel) -> Seq<char> {
    t.description + seq!['|'] + status_name(t.completed) + seq!['|'] + priority_name(t.priority)
}

/// The stored text of a task list: one line per task, each ended by `\n`.
pub open spec fn serialize(ts: Seq<TaskModel>) -> Seq<char>
    decreases ts.len(),
{
    if ts.len() == 0 {
        Seq::empty()
    } else {
        serialize(ts.drop_last()) + record_line(ts.last()) + seq!['\n']
    }
}

/// A line without the `\r` of a `\r\n` ending.
pub open spec fn strip_cr(l: Seq<char>) -> Seq<char> {
    if l.len() > 0 && l.last() == '\r' {
        l.drop_last()
    } else {
        l
    }
}

/// The lines of a text. A line ends at `\n` or `\r\n`; the ending of the
/// last line is optional, and no empty line follows a final line ending.
pub open spec fn text_lines(s: Seq<char>) -> Seq<Seq<char>> {
    let parts = split(s, '\n');
    let ended = parts.drop_last().map_values(|l: Seq<char>| strip_cr(l));
    if parts.last().len() == 0 {
        ended
    } else {
        ended.push(parts.last())
    }
}

/// The task a stored line stands for. A line that is not exactly three
/// `|`-separated fields stands for none. The status field means completed
/// only when it is `Completed`; an unknown priority name means `Low`.
pub open spec fn record_of_line(l: Seq<char>) -> Option<TaskModel> {
    let f = split(l, '|');
    if f.len() == 3 {
        Some(
            TaskModel {
                description: f[0],
                completed: f[1] == status_name(true),
                priority: priority_of_name(f[2]),
            },
        )
    } else {
        None
    }
}

/// The tasks of a sequence of lines, in order, skipping malformed lines.
pub open spec fn records(ls: Seq<Seq<char>>) -> Seq<TaskModel>
    decreases ls.len(),
{
    if ls.len() == 0 {
        Seq::empty()
    } else {
        match record_of_line(ls.last()) {
            Some(t) => records(ls.drop_last()).push(t),
            None => records(ls.drop_last()),
        }
    }
}

/// The tasks a stored text holds.
pub open spec fn parse(s: Seq<char>) -> Seq<TaskModel> {
    records(text_lines(s))
}

/// Whether a description can be stored and read back unchanged.
pub open spec fn storable(description: Seq<char>) -> bool {
    !description.contains('|') && !description.contains('\n')
}

proof fn lemma_labels_are_plain(completed: bool, p: Priority)
    ensures
        !status_name(completed).contains('|'),
        !status_name(completed).contains('\n'),
        !priority_name(p).contains('|'),
        !priority_name(p).contains('\n'),
        priority_name(p).len() > 0,
        priority_name(p).last() != '\r',
{
    let s = status_name(completed);
    let n = priority_name(p);
    assert forall|i: int| 0 <= i < s.len() implies s[i] != '|' && s[i] != '\n' by {}
    assert forall|i: int| 0 <= i < n.len() implies n[i] != '|' && n[i] != '\n' by {}
}

proof fn lemma_record_line_read_back(t: TaskModel)
    requires
        storable(t.description),
    ensures
        record_of_line(record_line(t)) == Some(t),
        !record_line(t).contains('\n'),
        strip_cr(record_line(t)) == record_line(t),
{
    let d = t.description;
    let s = status_name(t.completed);
    let n = priority_name(t.priority);
    lemma_labels_are_plain(t.completed, t.priority);
    let x = d + seq!['|'] + s;
    assert(record_line(t) == x + seq!['|'] + n);
    lemma_split_concat(x, n, '|');
    lemma_split_concat(d, s, '|');
    lemma_split_without_delimiter(d, '|');
    lemma_split_without_delimiter(s, '|');
    lemma_split_without_delimiter(n, '|');
    let f = split(record_line(t), '|');
    assert(f =~= seq![d, s, n]);
    assert(status_name(false) != status_name(true)) by {
        assert(status_name(false).len() != status_name(true).len());
    }
    lemma_name_round_trip(t.priority);
    let l = record_line(t);
    assert(!l.contains('\n')) by {
        if l.contains('\n') {
            let k = choose|k: int| 0 <= k < l.len() && l[k] == '\n';
            if k < d.len() {
                assert(d[k] == '\n');
            } else if k == d.len() {
            } else if k < d.len() + 1 + s.len() {
                assert(s[k - d.len() - 1] == '\n');
            } else if k == d.len() + 1 + s.len() {
            } else {
                assert(n[k - d.len() - 2 - s.len()] == '\n');
            }
        }
    }
    assert(l.last() == n.last());
}

proof fn lemma_serialize_split(ts: Seq<TaskModel>, tail: Seq<char>)
    requires
        forall|i: int| 0 <= i < ts.len() ==> storable(#[trigger] ts[i].description),
        !tail.contains('\n'),
    ensures
        split(serialize(ts) + tail, '\n') == ts.map_values(|t: TaskModel| record_line(t)).push(
            tail,
        ),
    decreases ts.len(),
{
    if ts.len() == 0 {
        assert(serialize(ts) + tail =~= tail);
        lemma_split_without_delimiter(tail, '\n');
        assert(ts.map_values(|t: TaskModel| record_line(t)).push(tail) =~= seq![tail]);
    } else {
        let rest = ts.drop_last();
        let line = record_line(ts.last());
        assert(storable(ts[ts.len() - 1].description));
        lemma_record_line_read_back(ts.last());
        assert forall|i: int| 0 <= i < rest.len() implies storable(#[trigger] rest[i].description) by {
            assert(rest[i] == ts[i]);
        }
        lemma_serialize_split(rest, line);
        assert(serialize(ts) + tail =~= (serialize(rest) + line) + seq!['\n'] + tail);
        lemma_split_concat(serialize(rest) + line, tail, '\n');
        lemma_split_without_delimiter(tail, '\n');
        assert(ts.map_values(|t: TaskModel| record_line(t)).push(tail) =~= rest.map_values(
            |t: TaskModel| record_line(t),
        ).push(line) + seq![tail]);
    }
}

proof fn lemma_records_of_lines(ts: Seq<TaskModel>)
    requires
        forall|i: int| 0 <= i < ts.len() ==> storable(#[trigger] ts[i].description),
    ensures
        records(ts.map_values(|t: TaskModel| record_line(t))) == ts,
    decreases ts.len(),
{
    if ts.len() > 0 {
        let rest = ts.drop_last();
        assert forall|i: int| 0 <= i < rest.len() implies storable(#[trigger] rest[i].description) by {
            assert(rest[i] == ts[i]);
        }
        lemma_records_of_lines(rest);
        assert(storable(ts[ts.len() - 1].description));
        lemma_record_line_read_back(ts.last());
        let ls = ts.map_values(|t: TaskModel| record_line(t));
        assert(ls.drop_last() =~= rest.map_values(|t: TaskModel| record_line(t)));
        assert(ts =~= rest.push(ts.last()));
    }
}

/// Storing a task list and reading the text back gives the same tasks, in
/// the same order, as long as no description holds `|` or a line break.
pub proof fn lemma_round_trip(ts: Seq<TaskModel>)
    requires
        forall|i: int| 0 <= i < ts.len() ==> storable(#[trigger] ts[i].description),
    ensures
        parse(serialize(ts)) == ts,
{
    let ls = ts.map_values(|t: TaskModel| record_line(t));
    lemma_serialize_split(ts, Seq::empty());
    assert(serialize(ts) + Seq::<char>::empty() =~= serialize(ts));
    let parts = split(serialize(ts), '\n');
    assert(parts.drop_last() =~= ls);
    assert forall|i: int| 0 <= i < ls.len() implies strip_cr(ls[i]) == ls[i] by {
        assert(storable(ts[i].description));
        lemma_record_line_read_back(ts[i]);
    }
    assert(text_lines(serialize(ts)) =~= ls);
    lemma_records_of_lines(ts);
}

/// The stored text of a task list: one `description|status|priority` line
/// per task, in order, each ended by `\n`.
pub fn save_tasks(tasks: &Vec<Task>) -> (r: String)
    ensures
        r@ == serialize(models(tasks@)),
{
    proof {
        reveal_strlit("|");
        reveal_strlit("\n");
    }
    assert("|"@ =~= seq!['|']);
    assert("\n"@ =~= seq!['\n']);
    let mut out = String::new();
    let mut i: usize = 0;
    assert(models(tasks@).subrange(0, 0) =~= Seq::<TaskModel>::empty());
    while i < tasks.len()
        invariant
            i <= tasks@.len(),
            out@ == serialize(models(tasks@).subrange(0, i as int)),
            "|"@ == seq!['|'],
            "\n"@ == seq!['\n'],
        decreases tasks@.len() - i,
    {
        let t = &tasks[i];
        let ghost before = out@;
        out.append(t.description.as_str());
        out.append("|");
        out.append(t.get_status_str());
        out.append("|");
        out.append(t.get_priority_str());
        out.append("\n");
        let ghost done = models(tasks@).subrange(0, i + 1);
        assert(done.drop_last() =~= models(tasks@).subrange(0, i as int));
        assert(done.last() == tasks@[i as int]@);
        assert(serialize(done) == serialize(done.drop_last()) + record_line(done.last()) + seq![
            '\n',
        ]);
        assert(out@ =~= serialize(done));
        i = i + 1;
    }
    assert(models(tasks@).subrange(0, i as int) =~= models(tasks@));
    out
}

/// A line without the `\r` of a `\r\n` ending.
fn strip_cr_of(l: &str) -> (r: String)
    ensures
        r@ == strip_cr(l@),
{
    let n = l.unicode_len();
    if n > 0 && l.get_char(n - 1) == '\r' {
        String::from_str(l.substring_char(0, n - 1))
    } else {
        String::from_str(l)
    }
}

/// Splits a text into its lines.
pub fn lines_of(s: &str) -> (r: Vec<String>)
    ensures
        views(r@) == text_lines(s@),
{
    let parts = split_on(s, '\n');
    let ghost pv = views(parts@);
    proof {
        lemma_split_nonempty(s@, '\n');
    }
    assert(pv.subrange(0, 0).map_values(|l: Seq<char>| strip_cr(l)) =~= Seq::<Seq<char>>::empty());
    let count = parts.len();
    let mut out: Vec<String> = Vec::new();
    let mut k: usize = 0;
    assert(views(out@) =~= Seq::<Seq<char>>::empty());
    while k + 1 < count
        invariant
            count == parts@.len(),
            count >= 1,
            pv == views(parts@),
            k < count,
            views(out@) == pv.subrange(0, k as int).map_values(|l: Seq<char>| strip_cr(l)),
        decreases count - k,
    {
        let line = strip_cr_of(parts[k].as_str());
        let ghost before = out@;
        let ghost lv = line@;
        out.push(line);
        assert(views(out@) =~= views(before).push(lv));
        assert(views(out@) =~= pv.subrange(0, k + 1).map_values(|l: Seq<char>| strip_cr(l)));
        k = k + 1;
    }
    assert(pv.subrange(0, k as int) =~= pv.drop_last());
    let last = parts[count - 1].as_str();
    if last.unicode_len() > 0 {
        let ghost before = out@;
        out.push(String::from_str(last));
        assert(views(out@) =~= views(before).push(pv.last()));
    }
    out
}

/// The tasks a stored text holds, in order. A line that is not exactly three
/// `|`-separated fields is skipped. The status `Completed` means completed
/// and anything else pending; an unknown priority name means `Low`.
pub fn parse_tasks(text: &str) -> (r: Vec<Task>)
    ensures
        models(r@) == parse(text@),
{
    proof {
        reveal_strlit("Completed");
    }
    assert("Completed"@ =~= status_name(true));
    let lines = lines_of(text);
    let ghost lv = views(lines@);
    let mut out: Vec<Task> = Vec::new();
    let mut k: usize = 0;
    assert(models(out@) =~= Seq::<TaskModel>::empty());
    assert(lv.subrange(0, 0) =~= Seq::<Seq<char>>::empty());
    while k < lines.len()
        invariant
            k <= lines@.len(),
            lv == views(lines@),
            models(out@) == records(lv.subrange(0, k as int)),
            "Completed"@ == status_name(true),
        decreases lines@.len() - k,
    {
        let mut fields = split_on(lines[k].as_str(), '|');
        let ghost fv = views(fields@);
        let ghost done = lv.subrange(0, k + 1);
        assert(done.drop_last() =~= lv.subrange(0, k as int));
        assert(done.last() == lines@[k as int]@);
        if fields.len() == 3 {
            let ghost fs = fields@;
            assert(fv.len() == 3);
            assert(fv[0] == fs[0]@ && fv[1] == fs[1]@ && fv[2] == fs[2]@);
            let priority = match fields.pop() {
                Some(f) => Priority::from_name(f.as_str()),
                None => Priority::Low,
            };
            let completed = match fields.pop() {
                Some(f) => same_text(f.as_str(), "Completed"),
                None => false,
            };
            let description = match fields.pop() {
                Some(f) => f,
                None => String::new(),
            };
            assert(description@ == fv[0]);
            assert(priority == priority_of_name(fv[2]));
            assert(completed == (fv[1] == status_name(true)));
            let task = Task { description, completed, priority };
            let ghost tm = task@;
            assert(record_of_line(done.last()) == Some(tm));
            let ghost before = out@;
            out.push(task);
            assert(models(out@) =~= models(before).push(tm));
        }
        k = k + 1;
    }
    assert(lv.subrange(0, k as int) =~= lv);
    out
}

/// The tasks to start a run with: none when there is no stored text,
/// else the tasks the text holds.
pub fn load_tasks(contents: Option<&str>) -> (r: Vec<Task>)
    ensures
        models(r@) == match contents {
            None => Seq::<TaskModel>::empty(),
            Some(text) => parse(text@),
        },
{
    match contents {
        None => {
            let out: Vec<Task> = Vec::new();
            assert(models(out@) =~= Seq::<TaskModel>::empty());
            out
        },
        Some(text) => parse_tasks(text),
    }
}

} // verus!
