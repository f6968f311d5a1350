//! The task store: identifier assignment, completion, deletion and the
//! derived filtered and sorted listings.
use vstd::prelude::*;

use crate::task::{with_completed, Task};
use crate::text::{lemma_text_le_total, lemma_text_le_trans, text_le, text_le_exec};

verus! {

broadcast use vstd::seq_lib::group_to_multiset_ensures, vstd::multiset::group_multiset_axioms;

/// Why an operation on a single task failed.
#[derive(PartialEq, Eq, Structural, Debug)]
pub enum StoreError {
    /// No task has the requested identifier.
    NotFound,
}

/// Whether some task of `s` has identifier `id`.
pub open spec fn has_id(s: Seq<Task>, id: u32) -> bool {
    exists|i: int| 0 <= i < s.len() && s[i].id == id
}

/// No two tasks of `s` share an identifier.
pub open spec fn unique_ids(s: Seq<Task>) -> bool {
    forall|i: int, j: int| 0 <= i < s.len() && 0 <= j < s.len() && i != j ==> s[i].id != s[j].id
}

/// The largest identifier in `s`, or 0 when `s` is empty.
pub open spec fn max_id(s: Seq<Task>) -> nat
    decreases s.len(),
{
    if s.len() == 0 {
        0
    } else {
        let m: nat = max_id(s.drop_last());
        if s.last().id as nat > m {
            s.last().id as nat
        } else {
            m
        }
    }
}

/// The tasks of `s` after marking the one with identifier `id` as done.
pub open spec fn completed_in(s: Seq<Task>, id: u32) -> Seq<Task> {
    s.map_values(|t: Task| if t.id == id { with_completed(t) } else { t })
}

/// Whether a task's completion flag equals `completed`.
pub open spec fn status_is(completed: bool) -> spec_fn(Task) -> bool {
    |t: Task| t.completed == completed
}

/// The tasks of `s` whose completion flag equals `completed`, in order.
pub open spec fn with_status(s: Seq<Task>, completed: bool) -> Seq<Task> {
    s.filter(status_is(completed))
}

/// The due dates of `s` never decrease, in character order.
pub open spec fn sorted_by_due(s: Seq<Task>) -> bool {
    forall|i: int, j: int| 0 <= i < j < s.len() ==> text_le(s[i].due_date@, s[j].due_date@)
}

/// `max_id` bounds every identifier of `s` and, for a non-empty `s`, is one of them.
pub proof fn lemma_max_id_bound(s: Seq<Task>)
    ensures
        forall|i: int| 0 <= i < s.len() ==> s[i].id as nat <= max_id(s),
        s.len() > 0 ==> has_id(s, max_id(s) as u32),
        max_id(s) <= u32::MAX,
    decreases s.len(),
{
    if s.len() > 0 {
        lemma_max_id_bound(s.drop_last());
        let m: nat = max_id(s.drop_last());
        assert forall|i: int| 0 <= i < s.len() implies s[i].id as nat <= max_id(s) by {
            if i < s.len() - 1 {
                assert(s[i] == s.drop_last()[i]);
            }
        }
        if (s.last().id as nat) < m {
            let k: int = choose|k: int| 0 <= k < s.len() - 1 && s.drop_last()[k].id == m as u32;
            assert(s[k] == s.drop_last()[k]);
        } else {
            assert(s[s.len() - 1].id == max_id(s) as u32);
        }
    }
}

/// The in-memory collection of tasks and the counter for the next identifier.
pub struct TaskStore {
    tasks: Vec<Task>,
    next_id: u64,
}

impl View for TaskStore {
    type V = Seq<Task>;

    closed spec fn view(&self) -> Seq<Task> {
        self.tasks@
    }
}

impl TaskStore {
    /// The identifier that the next `create` assigns.
    pub closed spec fn next_id(&self) -> nat {
        self.next_id as nat
    }

    /// Identifiers are unique, every one is below the counter, and the
    /// counter is positive and at most one past the largest `u32`.
    pub closed spec fn wf(&self) -> bool {
        &&& unique_ids(self.tasks@)
        &&& forall|i: int| 0 <= i < self.tasks@.len() ==> (self.tasks@[i].id as nat) < self.next_id
        &&& 1 <= self.next_id <= u32::MAX as u64 + 1
    }

    /// What well-formedness gives a caller.
    pub proof fn lemma_wf(&self)
        requires
            self.wf(),
        ensures
            unique_ids(self@),
            forall|i: int| 0 <= i < self@.len() ==> (self@[i].id as nat) < self.next_id(),
            1 <= self.next_id() <= u32::MAX + 1,
    {
    }

    /// An empty store whose first identifier is 1.
    pub fn new() -> (r: TaskStore)
        ensures
            r.wf(),
            r@ == Seq::<Task>::empty(),
            r.next_id() == 1,
    {
        TaskStore { tasks: Vec::new(), next_id: 1 }
    }

    /// A store holding `tasks`, whose counter starts one past the largest
    /// identifier among them.
    pub fn from_tasks(tasks: Vec<Task>) -> (r: TaskStore)
        requires
            unique_ids(tasks@),
        ensures
            r.wf(),
            r@ == tasks@,
            r.next_id() == max_id(tasks@) + 1,
    {
        let mut m: u32 = 0;
        let mut i: usize = 0;
        while i < tasks.len()
            invariant
                i <= tasks@.len(),
                m as nat == max_id(tasks@.subrange(0, i as int)),
            decreases tasks@.len() - i,
        {
            assert(tasks@.subrange(0, i + 1).drop_last() == tasks@.subrange(0, i as int));
            if tasks[i].id > m {
                m = tasks[i].id;
            }
            i = i + 1;
        }
        assert(tasks@.subrange(0, i as int) == tasks@);
        proof { lemma_max_id_bound(tasks@); }
        TaskStore { tasks, next_id: m as u64 + 1 }
    }

    /// Whether an identifier is still free for `create`.
    pub fn can_create(&self) -> (r: bool)
        ensures
            r == (self.next_id() <= u32::MAX),
    {
        self.next_id <= u32::MAX as u64
    }

    /// Adds a task that is not completed, under the current counter, and
    /// advances the counter.
    pub fn create(&mut self, description: String, due_date: String, priority: String) -> (t: Task)
        requires
            old(self).wf(),
            old(self).next_id() <= u32::MAX,
        ensures
            final(self).wf(),
            t.id == old(self).next_id(),
            forall|i: int| 0 <= i < old(self)@.len() ==> old(self)@[i].id < t.id,
            final(self).next_id() == t.id + 1,
            t.description == description,
            t.due_date == due_date,
            t.priority == priority,
            !t.completed,
            final(self)@ == old(self)@.push(t),
    {
        let id: u32 = self.next_id as u32;
        let t = Task::new(description, due_date, priority, false, id);
        self.tasks.push(t.duplicate());
        self.next_id = self.next_id + 1;
        t
    }

    /// All tasks, in the order the store holds them.
    pub fn list(&self) -> (r: Vec<Task>)
        ensures
            r@ == self@,
    {
        let mut r: Vec<Task> = Vec::new();
        let mut i: usize = 0;
        while i < self.tasks.len()
            invariant
                i <= self.tasks@.len(),
                r@ == self.tasks@.subrange(0, i as int),
            decreases self.tasks@.len() - i,
        {
            r.push(self.tasks[i].duplicate());
            assert(self.tasks@.subrange(0, i + 1) == self.tasks@.subrange(0, i as int).push(self.tasks@[i as int]));
            i = i + 1;
        }
        assert(self.tasks@.subrange(0, i as int) == self.tasks@);
        r
    }

    /// The number of tasks.
    pub fn len(&self) -> (r: usize)
        ensures
            r == self@.len(),
    {
        self.tasks.len()
    }

    fn position(&self, id: u32) -> (r: Option<usize>)
        ensures
            match r {
                Some(i) => i < self@.len() && self@[i as int].id == id,
                None => !has_id(self@, id),
            },
    {
        let mut i: usize = 0;
        while i < self.tasks.len()
            invariant
                i <= self.tasks@.len(),
                forall|k: int| 0 <= k < i ==> self.tasks@[k].id != id,
            decreases self.tasks@.len() - i,
        {
            if self.tasks[i].id == id {
                return Some(i);
            }
            i = i + 1;
        }
        None
    }

    /// Marks the task with identifier `id` as done.
    pub fn complete(&mut self, id: u32) -> (r: Result<(), StoreError>)
        requires
            old(self).wf(),
        ensures
            final(self).wf(),
            final(self).next_id() == old(self).next_id(),
            r is Ok <==> has_id(old(self)@, id),
            r is Ok ==> final(self)@ == completed_in(old(self)@, id),
            r is Err ==> r == Err::<(), StoreError>(StoreError::NotFound) && final(self)@ == old(self)@,
    {
        match self.position(id) {
            None => Err(StoreError::NotFound),
            Some(i) => {
                let mut t = self.tasks[i].duplicate();
                t.completed = true;
                let ghost before = self.tasks@;
                self.tasks.set(i, t);
                assert(self.tasks@ =~= completed_in(before, id));
                Ok(())
            },
        }
    }

    /// Removes the task with identifier `id` and hands it back.
    pub fn delete(&mut self, id: u32) -> (r: Result<Task, StoreError>)
        requires
            old(self).wf(),
        ensures
            final(self).wf(),
            final(self).next_id() == old(self).next_id(),
            r is Ok <==> has_id(old(self)@, id),
            r matches Ok(t) ==> t.id == id && exists|i: int|
                0 <= i < old(self)@.len() && old(self)@[i] == t && final(self)@ == old(self)@.remove(i),
            r is Ok ==> final(self)@.len() == old(self)@.len() - 1 && !has_id(final(self)@, id),
            r is Err ==> r == Err::<Task, StoreError>(StoreError::NotFound) && final(self)@ == old(self)@,
    {
        match self.position(id) {
            None => Err(StoreError::NotFound),
            Some(i) => {
                let ghost before = self.tasks@;
                let t = self.tasks.remove(i);
                proof { lemma_remove_unique(before, i as int); }
                Ok(t)
            },
        }
    }

    /// The tasks whose completion flag equals `completed`, in store order.
    /// The store itself is left as it is.
    pub fn filter_by_completion(&self, completed: bool) -> (r: Vec<Task>)
        ensures
            r@ == with_status(self@, completed),
    {
        let mut r: Vec<Task> = Vec::new();
        let mut i: usize = 0;
        while i < self.tasks.len()
            invariant
                i <= self.tasks@.len(),
                r@ == with_status(self.tasks@.subrange(0, i as int), completed),
            decreases self.tasks@.len() - i,
        {
            let ghost pre = self.tasks@.subrange(0, i as int);
            let ghost post = self.tasks@.subrange(0, i + 1);
            assert(post.drop_last() == pre);
            assert(post.last() == self.tasks@[i as int]);
            proof { reveal(Seq::filter); }
            if self.tasks[i].completed == completed {
                r.push(self.tasks[i].duplicate());
            }
            i = i + 1;
        }
        assert(self.tasks@.subrange(0, i as int) == self.tasks@);
        r
    }

    /// The tasks ordered by due date, compared character by character; tasks
    /// with equal due dates keep their store order. The store itself is left
    /// as it is.
    pub fn sorted_by_due_date(&self) -> (r: Vec<Task>)
        ensures
            r@.to_multiset() == self@.to_multiset(),
            sorted_by_due(r@),
    {
        let mut rest = self.list();
        let mut out: Vec<Task> = Vec::new();
        proof { vstd::multiset::lemma_multiset_empty_len(out@.to_multiset()); }
        assert(out@.to_multiset().add(rest@.to_multiset()) =~= self@.to_multiset());
        while rest.len() > 0
            invariant
                out@.to_multiset().add(rest@.to_multiset()) == self@.to_multiset(),
                sorted_by_due(out@),
                forall|a: int, b: int|
                    0 <= a < out@.len() && 0 <= b < rest@.len() ==> text_le(out@[a].due_date@, rest@[b].due_date@),
            decreases rest@.len(),
        {
            let j: usize = earliest_due(&rest);
            let ghost before = rest@;
            let t = rest.remove(j);
            assert(rest@ == before.remove(j as int));
            assert forall|b: int| 0 <= b < rest@.len() implies text_le(t.due_date@, rest@[b].due_date@) by {
                if b < j {
                    assert(rest@[b] == before[b]);
                } else {
                    assert(rest@[b] == before[b + 1]);
                }
            }
            assert forall|a: int, b: int|
                0 <= a < out@.len() && 0 <= b < rest@.len() implies text_le(out@[a].due_date@, rest@[b].due_date@) by {
                if b < j {
                    assert(rest@[b] == before[b]);
                } else {
                    assert(rest@[b] == before[b + 1]);
                }
            }
            let ghost out_before = out@;
            out.push(t);
            assert forall|a: int| 0 <= a < out_before.len() implies text_le(out@[a].due_date@, t.due_date@) by {
                assert(out@[a] == out_before[a]);
            }
            assert(before[j as int] == t);
            assert(before.to_multiset().count(t) > 0) by {
                assert(before.contains(t));
            }
            assert(out@ == out_before.push(t));
            assert(out@.to_multiset() == out_before.to_multiset().insert(t));
            assert(rest@.to_multiset() == before.to_multiset().remove(t));
            assert(out@.to_multiset().add(rest@.to_multiset()) =~= self@.to_multiset());
        }
        proof { vstd::multiset::lemma_multiset_empty_len(rest@.to_multiset()); }
        assert(out@.to_multiset().add(rest@.to_multiset()) =~= out@.to_multiset());
        out
    }
}

/// The position of the first task of `v` with the earliest due date.
fn earliest_due(v: &Vec<Task>) -> (j: usize)
    requires
        v@.len() > 0,
    ensures
        j < v@.len(),
        forall|k: int| 0 <= k < v@.len() ==> text_le(v@[j as int].due_date@, v@[k].due_date@),
{
    let mut best: usize = 0;
    let mut k: usize = 1;
    proof { lemma_text_le_total(v@[0].due_date@, v@[0].due_date@); }
    while k < v.len()
        invariant
            1 <= k <= v@.len(),
            best < k,
            forall|m: int| 0 <= m < k ==> text_le(v@[best as int].due_date@, v@[m].due_date@),
        decreases v@.len() - k,
    {
        if !text_le_exec(v[best].due_date.as_str(), v[k].due_date.as_str()) {
            proof {
                let nb = v@[k as int].due_date@;
                lemma_text_le_total(v@[best as int].due_date@, nb);
                assert forall|m: int| 0 <= m < k + 1 implies text_le(nb, v@[m].due_date@) by {
                    if m < k {
                        lemma_text_le_trans(nb, v@[best as int].due_date@, v@[m].due_date@);
                    } else {
                        lemma_text_le_total(nb, nb);
                    }
                }
            }
            best = k;
        }
        k = k + 1;
    }
    best
}

/// Removing the entry at `i` of a sequence with unique identifiers leaves
/// one entry fewer, none with the removed identifier, and every other entry.
pub proof fn lemma_remove_unique(s: Seq<Task>, i: int)
    requires
        unique_ids(s),
        0 <= i < s.len(),
    ensures
        s.remove(i).len() == s.len() - 1,
        unique_ids(s.remove(i)),
        !has_id(s.remove(i), s[i].id),
        forall|x: u32| x != s[i].id ==> (has_id(s.remove(i), x) <==> has_id(s, x)),
{
    let r = s.remove(i);
    assert forall|k: int| 0 <= k < r.len() implies r[k] == if k < i { s[k] } else { s[k + 1] } by {}
    assert forall|x: u32| x != s[i].id && has_id(s, x) implies has_id(r, x) by {
        let k: int = choose|k: int| 0 <= k < s.len() && s[k].id == x;
        if k < i {
            assert(r[k] == s[k]);
        } else {
            assert(r[k - 1] == s[k]);
        }
    }
}

} // verus!
