//! Properties that relate several operations of the store and its
//! persisted form.
use vstd::prelude::*;

use crate::codec::{encodes, tasks_of, valid_entries};
use crate::store::{completed_in, has_id, lemma_max_id_bound, max_id, status_is, unique_ids, with_status};
use crate::task::{with_completed, Task};
use crate::text::dec;

verus! {

/// The counter a store is seeded with from a set of tasks is above every
/// identifier among them, and is 1 when there are none; so every later
/// `create` returns an identifier above all of them.
pub proof fn lemma_seed_above_all(s: Seq<Task>)
    ensures
        forall|i: int| 0 <= i < s.len() ==> (s[i].id as nat) < max_id(s) + 1,
        s.len() == 0 ==> max_id(s) + 1 == 1,
{
    lemma_max_id_bound(s);
}

/// Decoding the persisted form of a store with unique identifiers succeeds
/// and gives back exactly its tasks.
pub proof fn lemma_round_trip(e: Seq<(String, Task)>, s: Seq<Task>)
    requires
        unique_ids(s),
        encodes(e, s),
    ensures
        valid_entries(e),
        tasks_of(e) == s,
{
    assert(tasks_of(e) =~= s);
    assert forall|i: int| 0 <= i < e.len() implies e[i].0@ == dec(e[i].1.id as nat) by {
        assert(e[i].1 == s[i]);
    }
}

/// Completing a task twice is the same as completing it once: the second
/// call finds the task again, and the task stays completed.
pub proof fn lemma_complete_idempotent(s: Seq<Task>, id: u32)
    requires
        has_id(s, id),
    ensures
        has_id(completed_in(s, id), id),
        completed_in(completed_in(s, id), id) == completed_in(s, id),
        forall|i: int| 0 <= i < s.len() && s[i].id == id ==> completed_in(s, id)[i].completed,
{
    let once = completed_in(s, id);
    let i: int = choose|i: int| 0 <= i < s.len() && s[i].id == id;
    assert(once[i].id == id);
    assert forall|k: int| 0 <= k < s.len() && s[k].id == id implies with_completed(once[k]) == once[k] by {}
    assert(completed_in(once, id) =~= once);
}

/// The completed and the open tasks of a store with unique identifiers share
/// no identifier, and together hold every identifier of the store.
pub proof fn lemma_filter_partition(s: Seq<Task>)
    requires
        unique_ids(s),
    ensures
        forall|id: u32| !(has_id(with_status(s, true), id) && has_id(with_status(s, false), id)),
        forall|id: u32| has_id(s, id) <==> (has_id(with_status(s, true), id) || has_id(with_status(s, false), id)),
{
    broadcast use vstd::seq_lib::group_filter_ensures;

    let done = with_status(s, true);
    let open = with_status(s, false);
    assert forall|id: u32| !(has_id(done, id) && has_id(open, id)) by {
        if has_id(done, id) && has_id(open, id) {
            let a: int = choose|a: int| 0 <= a < done.len() && done[a].id == id;
            let b: int = choose|b: int| 0 <= b < open.len() && open[b].id == id;
            s.lemma_filter_contains_rev(status_is(true), done[a]);
            s.lemma_filter_contains_rev(status_is(false), open[b]);
            let x: int = choose|x: int| 0 <= x < s.len() && s[x] == done[a];
            let y: int = choose|y: int| 0 <= y < s.len() && s[y] == open[b];
            assert(done[a].completed);
            assert(!open[b].completed);
        }
    }
    assert forall|id: u32| has_id(s, id) <==> (has_id(done, id) || has_id(open, id)) by {
        if has_id(s, id) {
            let x: int = choose|x: int| 0 <= x < s.len() && s[x].id == id;
            if s[x].completed {
                assert(done.contains(s[x]));
            } else {
                assert(open.contains(s[x]));
            }
        }
        if has_id(done, id) {
            let a: int = choose|a: int| 0 <= a < done.len() && done[a].id == id;
            s.lemma_filter_contains_rev(status_is(true), done[a]);
        }
        if has_id(open, id) {
            let b: int = choose|b: int| 0 <= b < open.len() && open[b].id == id;
            s.lemma_filter_contains_rev(status_is(false), open[b]);
        }
    }
}

} // verus!
