//! A single to-do item.
use vstd::prelude::*;

verus! {

/// A to-do item. The text fields are free-form and never validated.
#[derive(Clone, Debug, PartialEq, Eq)]
pub struct Task {
    pub description: String,
    pub due_date: String,
    pub priority: String,
    pub completed: bool,
    pub id: u32,
}

/// `t` with its completion flag set.
pub open spec fn with_completed(t: Task) -> Task {
    Task { completed: true, ..t }
}

impl Task {
    /// A task made of the given fields.
    pub fn new(description: String, due_date: String, priority: String, completed: bool, id: u32) -> (r: Task)
        ensures
            r.description == description,
            r.due_date == due_date,
            r.priority == priority,
            r.completed == completed,
            r.id == id,
    {
        Task { description, due_date, priority, completed, id }
    }

    /// A task equal to this one, field by field.
    pub fn duplicate(&self) -> (r: Task)
        ensures
            r == *self,
    {
        Task {
            description: self.description.clone(),
            due_date: self.due_date.clone(),
            priority: self.priority.clone(),
            completed: self.completed,
            id: self.id,
        }
    }
}

} // verus!
