use crate::priority::{priority_name, Priority};
use vstd::prelude::*;

verus! {

/// One to-do item.
#[derive(Debug)]
pub struct Task {
    pub description: String,
    pub completed: bool,
    pub priority: Priority,
}

/// What a task holds, as plain values.
pub struct TaskModel {
    pub description: Seq<char>,
    pub completed: bool,
    pub priority: Priority,
}

impl View for Task {
    type V = TaskModel;

    open spec fn view(&self) -> TaskModel {
        TaskModel {
            description: self.description@,
            completed: self.completed,
            priority: self.priority,
        }
    }
}

/// The models of a sequence of tasks.
pub open spec fn models(ts: Seq<Task>) -> Seq<TaskModel> {
    ts.map_values(|t: Task| t@)
}

/// The label of a completion state.
pub open spec fn status_name(completed: bool) -> Seq<char> {
    if completed {
        seq!['C', 'o', 'm', 'p', 'l', 'e', 't', 'e', 'd']
    } else {
        seq!['P', 'e', 'n', 'd', 'i', 'n', 'g']
    }
}

impl Task {
    /// A new task, not yet completed.
    pub fn new(description: String, priority: Priority) -> (r: Task)
        ensures
            r.description == description,
            !r.completed,
            r.priority == priority,
    {
        Task { description, completed: false, priority }
    }

    /// Marks the task completed; nothing else changes.
    pub fn mark_completed(&mut self)
        ensures
            final(self).completed,
            final(self).description == old(self).description,
            final(self).priority == old(self).priority,
    {
        self.completed = true;
    }

    /// The name of the task's priority.
    pub fn get_priority_str(&self) -> (r: &'static str)
        ensures
            r@ == priority_name(self.priority),
    {
        self.priority.get_priority_str()
    }

    /// The label of the task's completion state: `Completed` or `Pending`.
    pub fn get_status_str(&self) -> (r: &'static str)
        ensures
            r@ == status_name(self.completed),
    {
        proof {
            reveal_strlit("Completed");
            reveal_strlit("Pending");
        }
        assert("Completed"@ =~= status_name(true));
        assert("Pending"@ =~= status_name(false));
        if self.completed {
            "Completed"
        } else {
            "Pending"
        }
    }
}

} // verus!
