//! Persisted form of a store: one entry per task, keyed by the decimal form
//! of its identifier.
use vstd::prelude::*;
use vstd::string::*;

use crate::store::{has_id, max_id, unique_ids, TaskStore};
use crate::task::Task;
use crate::text::{dec, decimal};

verus! {

/// Why persisted entries could not be turned into a store.
#[derive(PartialEq, Eq, Structural, Debug)]
pub enum LoadError {
    /// A key differs from the decimal form of its task's identifier, or two
    /// tasks share an identifier.
    Corruption,
}

/// Every key of `e` is the decimal form of its task's identifier.
pub open spec fn keys_match(e: Seq<(String, Task)>) -> bool {
    forall|i: int| 0 <= i < e.len() ==> e[i].0@ == dec(e[i].1.id as nat)
}

/// The tasks of `e`, in order.
pub open spec fn tasks_of(e: Seq<(String, Task)>) -> Seq<Task> {
    e.map_values(|p: (String, Task)| p.1)
}

/// `e` follows the persisted schema: keys match identifiers, and
/// identifiers are unique.
pub open spec fn valid_entries(e: Seq<(String, Task)>) -> bool {
    keys_match(e) && unique_ids(tasks_of(e))
}

/// `e` is the persisted form of `s`: the same tasks in the same order, each
/// keyed by the decimal form of its identifier.
pub open spec fn encodes(e: Seq<(String, Task)>, s: Seq<Task>) -> bool {
    &&& e.len() == s.len()
    &&& forall|i: int| 0 <= i < e.len() ==> e[i].1 == s[i] && e[i].0@ == dec(s[i].id as nat)
}

impl TaskStore {
    /// The persisted form of this store.
    pub fn to_entries(&self) -> (r: Vec<(String, Task)>)
        ensures
            encodes(r@, self@),
    {
        let tasks = self.list();
        let mut r: Vec<(String, Task)> = Vec::new();
        let mut i: usize = 0;
        while i < tasks.len()
            invariant
                i <= tasks@.len(),
                tasks@ == self@,
                encodes(r@, tasks@.subrange(0, i as int)),
            decreases tasks@.len() - i,
        {
            let t = tasks[i].duplicate();
            r.push((decimal(t.id), t));
            i = i + 1;
        }
        assert(tasks@.subrange(0, i as int) == tasks@);
        r
    }

    /// Turns persisted entries back into a store whose counter starts one
    /// past the largest identifier, or 1 when there are none.
    pub fn from_entries(entries: Vec<(String, Task)>) -> (r: Result<TaskStore, LoadError>)
        ensures
            r is Ok <==> valid_entries(entries@),
            r matches Ok(s) ==> s.wf() && s@ == tasks_of(entries@) && s.next_id() == max_id(s@) + 1,
            r is Err ==> r == Err::<TaskStore, LoadError>(LoadError::Corruption),
    {
        let mut tasks: Vec<Task> = Vec::new();
        let mut i: usize = 0;
        while i < entries.len()
            invariant
                i <= entries@.len(),
                tasks@ == tasks_of(entries@.subrange(0, i as int)),
                keys_match(entries@.subrange(0, i as int)),
            decreases entries@.len() - i,
        {
            let key = decimal(entries[i].1.id);
            if key != entries[i].0 {
                assert(!keys_match(entries@));
                return Err(LoadError::Corruption);
            }
            tasks.push(entries[i].1.duplicate());
            assert(entries@.subrange(0, i + 1) == entries@.subrange(0, i as int).push(entries@[i as int]));
            i = i + 1;
        }
        assert(entries@.subrange(0, i as int) == entries@);
        let mut a: usize = 0;
        while a < tasks.len()
            invariant
                a <= tasks@.len(),
                tasks@ == tasks_of(entries@),
                forall|x: int, y: int| 0 <= x < a && 0 <= y < tasks@.len() && x != y ==> tasks@[x].id != tasks@[y].id,
            decreases tasks@.len() - a,
        {
            let mut b: usize = 0;
            while b < tasks.len()
                invariant
                    a < tasks@.len(),
                    b <= tasks@.len(),
                    tasks@ == tasks_of(entries@),
                    forall|x: int, y: int| 0 <= x < a && 0 <= y < tasks@.len() && x != y ==> tasks@[x].id != tasks@[y].id,
                    forall|y: int| 0 <= y < b && y != a ==> tasks@[a as int].id != tasks@[y].id,
                decreases tasks@.len() - b,
            {
                if b != a && tasks[a].id == tasks[b].id {
                    return Err(LoadError::Corruption);
                }
                b = b + 1;
            }
            a = a + 1;
        }
        Ok(TaskStore::from_tasks(tasks))
    }

    /// The identifier whose decimal form is `key`, if a task has it.
    pub fn id_for_key(&self, key: &str) -> (r: Option<u32>)
        ensures
            match r {
                Some(id) => has_id(self@, id) && dec(id as nat) == key@,
                None => forall|i: int| 0 <= i < self@.len() ==> dec(self@[i].id as nat) != key@,
            },
    {
        let tasks = self.list();
        let wanted = String::from_str(key);
        let mut i: usize = 0;
        while i < tasks.len()
            invariant
                i <= tasks@.len(),
                tasks@ == self@,
                forall|k: int| 0 <= k < i ==> dec(tasks@[k].id as nat) != key@,
                wanted@ == key@,
            decreases tasks@.len() - i,
        {
            let d = decimal(tasks[i].id);
            if d == wanted {
                assert(has_id(self@, tasks@[i as int].id));
                return Some(tasks[i].id);
            }
            i = i + 1;
        }
        None
    }
}

/// The store to start a session with: the one the persisted entries give
/// when there are any and they follow the schema, else an empty store.
pub fn load(parsed: Option<Vec<(String, Task)>>) -> (r: TaskStore)
    ensures
        r.wf(),
        r.next_id() == max_id(r@) + 1,
        match parsed {
            Some(e) if valid_entries(e@) => r@ == tasks_of(e@),
            _ => r@ == Seq::<Task>::empty(),
        },
{
    match parsed {
        None => TaskStore::new(),
        Some(e) => match TaskStore::from_entries(e) {
            Ok(s) => s,
            Err(_) => TaskStore::new(),
        },
    }
}

} // verus!
