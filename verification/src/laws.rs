//! What holds of the store across its operations, proved of the model that
//! the operations' contracts are stated over.

use crate::model::{
    created_keys, deleted_set, found_by, lemma_fewer_tasks_valid, lemma_task_at,
    lemma_with_changed, lemma_with_task_valid, lemma_without_workspace_valid, live, live_in,
    name_keys, new_task, other_than, outside_of, shown, status_set, trashed, update_with,
    updated_keys, with_deleted, workspace_other_than, StoreView, TaskChangesView,
};
use crate::order::{
    arranged, arrangement, goes_before, lemma_arranged_same_items, lemma_arrangement_sorted,
};
use crate::pick::{
    lemma_filter_contains, lemma_filter_len_push, lemma_filter_len_update, lemma_filter_same,
    one_if,
};
use crate::status::TaskStatus;
use crate::task::{TaskView, WorkspaceView};
use crate::task_type::TaskType;
use crate::text::{lemma_contains_folded_same, lemma_text_lt_total, same_folded, text_lt};
use vstd::prelude::*;

verus! {

/// Whether a listing holds a task with the surrogate key `id`.
pub open spec fn lists(listing: Seq<TaskView>, id: Seq<char>) -> bool {
    exists|k: int| 0 <= k < listing.len() && (#[trigger] listing[k]).id == id
}

/// A listing of a valid store's tasks that takes those that meet a condition
/// and arranges them by a key holds exactly the tasks of the store that meet
/// the condition.
pub proof fn lemma_listing_holds(
    s: StoreView,
    pred: spec_fn(TaskView) -> bool,
    keys: Seq<Seq<char>>,
    x: TaskView,
)
    requires
        s.valid(),
        keys.len() == s.tasks.filter(pred).len(),
    ensures
        arranged(s.tasks.filter(pred), keys, true).len() == s.tasks.filter(pred).len(),
        arranged(s.tasks.filter(pred), keys, true).contains(x) <==> s.tasks.contains(x) && pred(x),
{
    let f = s.tasks.filter(pred);
    s.tasks.lemma_filter_len(pred);
    lemma_arranged_same_items(f, keys, true);
    lemma_filter_contains(s.tasks, pred, x);
    assert(arranged(f, keys, true).contains(x) <==> f.contains(x));
}

/// The three listings of tasks hold exactly the tasks that they are to show:
/// the listing of tasks those of the workspace asked for, with those in the
/// trash only on demand; the listing of the trash those in the trash; a
/// search those that it finds.
pub proof fn lemma_listings_hold(
    s: StoreView,
    ws: Option<Seq<char>>,
    include_deleted: bool,
    query: Seq<char>,
    x: TaskView,
)
    requires
        s.valid(),
    ensures
        s.task_listing(ws, include_deleted).contains(x) <==> s.tasks.contains(x) && shown(
            ws,
            include_deleted,
        )(x),
        s.trash_listing().contains(x) <==> s.tasks.contains(x) && x.is_deleted,
        s.search_result(query).contains(x) <==> s.tasks.contains(x) && found_by(query)(x),
{
    let p1 = shown(ws, include_deleted);
    lemma_listing_holds(s, p1, created_keys(s.tasks.filter(p1)), x);
    let p2 = trashed();
    lemma_listing_holds(s, p2, updated_keys(s.tasks.filter(p2)), x);
    let p3 = found_by(query);
    lemma_listing_holds(s, p3, created_keys(s.tasks.filter(p3)), x);
}

/// The listing of tasks and a search give the latest created first, and the
/// listing of the trash the latest changed first: along each, the time never
/// rises.
pub proof fn lemma_listings_sorted(
    s: StoreView,
    ws: Option<Seq<char>>,
    include_deleted: bool,
    query: Seq<char>,
)
    requires
        s.valid(),
    ensures
        forall|j: int, k: int|
            0 <= j < k < s.task_listing(ws, include_deleted).len() ==> !text_lt(
                (#[trigger] s.task_listing(ws, include_deleted)[j]).created_at,
                (#[trigger] s.task_listing(ws, include_deleted)[k]).created_at,
            ),
        forall|j: int, k: int|
            0 <= j < k < s.search_result(query).len() ==> !text_lt(
                (#[trigger] s.search_result(query)[j]).created_at,
                (#[trigger] s.search_result(query)[k]).created_at,
            ),
        forall|j: int, k: int|
            0 <= j < k < s.trash_listing().len() ==> !text_lt(
                (#[trigger] s.trash_listing()[j]).updated_at,
                (#[trigger] s.trash_listing()[k]).updated_at,
            ),
{
    let f1 = s.tasks.filter(shown(ws, include_deleted));
    s.tasks.lemma_filter_len(shown(ws, include_deleted));
    lemma_arrangement_sorted(created_keys(f1), f1.len(), true);
    let f2 = s.tasks.filter(found_by(query));
    s.tasks.lemma_filter_len(found_by(query));
    lemma_arrangement_sorted(created_keys(f2), f2.len(), true);
    let f3 = s.tasks.filter(trashed());
    s.tasks.lemma_filter_len(trashed());
    lemma_arrangement_sorted(updated_keys(f3), f3.len(), true);
    let o1 = arrangement(created_keys(f1), f1.len(), true);
    let l1 = s.task_listing(ws, include_deleted);
    assert forall|j: int, k: int| 0 <= j < k < l1.len() implies !text_lt(
        (#[trigger] l1[j]).created_at,
        (#[trigger] l1[k]).created_at,
    ) by {
        assert(!goes_before(created_keys(f1), o1[k], o1[j], true));
    }
    let o2 = arrangement(created_keys(f2), f2.len(), true);
    assert forall|j: int, k: int| 0 <= j < k < s.search_result(query).len() implies !text_lt(
        (#[trigger] s.search_result(query)[j]).created_at,
        (#[trigger] s.search_result(query)[k]).created_at,
    ) by {
        assert(!goes_before(created_keys(f2), o2[k], o2[j], true));
    }
    let o3 = arrangement(updated_keys(f3), f3.len(), true);
    assert forall|j: int, k: int| 0 <= j < k < s.trash_listing().len() implies !text_lt(
        (#[trigger] s.trash_listing()[j]).updated_at,
        (#[trigger] s.trash_listing()[k]).updated_at,
    ) by {
        assert(!goes_before(updated_keys(f3), o3[k], o3[j], true));
    }
}

/// Round trip of creation. A task that the store takes is read back as it
/// was made: it is found under its surrogate key, it stands in the listing
/// of all tasks and in that of its workspace, its fields are the ones given,
/// with no tags, no progress, no link and outside the trash, and it was last
/// changed when it was created.
pub proof fn lemma_created_task_reads_back(
    s: StoreView,
    id: Seq<char>,
    task_id: Seq<char>,
    now: Seq<char>,
    title: Seq<char>,
    description: Option<Seq<char>>,
    task_type: TaskType,
    priority: i32,
    workspace_id: Option<Seq<char>>,
    status: TaskStatus,
)
    requires
        s.valid(),
        s.task_refusal(
            new_task(
                id,
                task_id,
                now,
                title,
                description,
                task_type,
                priority,
                workspace_id,
                status,
            ),
        ) is None,
    ensures
        ({
            let t = new_task(
                id,
                task_id,
                now,
                title,
                description,
                task_type,
                priority,
                workspace_id,
                status,
            );
            let after = s.with_task(t);
            &&& after.valid()
            &&& after.task(id) == Some(t)
            &&& after.task_listing(None, false).contains(t)
            &&& after.task_listing(workspace_id, false).contains(t)
            &&& !after.trash_listing().contains(t)
            &&& t.id == id && t.task_id == task_id && t.title == title && t.description
                == description && t.task_type == task_type && t.priority == priority
                && t.workspace_id == workspace_id && t.status == status
            &&& t.tags.len() == 0 && t.progress == 0 && !t.is_ai_linked && !t.is_deleted
            &&& t.created_at == now && t.updated_at == t.created_at
        }),
{
    let t =
        new_task(id, task_id, now, title, description, task_type, priority, workspace_id, status);
    let after = s.with_task(t);
    lemma_with_task_valid(s, t);
    let last = after.tasks.len() - 1;
    assert(after.tasks[last] == t);
    lemma_task_at(after, last);
    lemma_listings_hold(after, None, false, Seq::empty(), t);
    lemma_listings_hold(after, workspace_id, false, Seq::empty(), t);
}

/// The trash and back. Moving a task into the trash takes it out of the
/// listing of tasks and puts it into the listing of the trash; taking it out
/// again reverses both. Across the two steps the task keeps every field but
/// the flag and the time of the last change, and every other task stays as
/// it was.
pub proof fn lemma_trash_and_restore(s: StoreView, id: Seq<char>, first: Seq<char>, then: Seq<char>)
    requires
        s.valid(),
        s.has_task(id),
    ensures
        ({
            let t = s.task(id)->0;
            let gone = s.flagged(id, true, first);
            let back = gone.flagged(id, false, then);
            &&& gone.valid()
            &&& back.valid()
            &&& gone.task(id) == Some(with_deleted(t, true, first))
            &&& !lists(gone.task_listing(None, false), id)
            &&& lists(gone.trash_listing(), id)
            &&& back.task(id) == Some(with_deleted(t, false, then))
            &&& lists(back.task_listing(None, false), id)
            &&& !lists(back.trash_listing(), id)
            &&& forall|o: Seq<char>| o != id ==> #[trigger] back.task(o) == s.task(o)
            &&& back.workspaces == s.workspaces
        }),
{
    let t = s.task(id)->0;
    let gone = s.flagged(id, true, first);
    let back = gone.flagged(id, false, then);
    lemma_with_changed(s, id, deleted_set(true, first));
    lemma_with_changed(gone, id, deleted_set(false, then));
    let i = s.place_of(id);
    let d = with_deleted(t, true, first);
    let r = with_deleted(t, false, then);
    assert(gone.tasks[i] == d);
    assert(back.tasks[i] == r);
    lemma_never_listed_twice(gone, id, d);
    lemma_never_listed_twice(back, id, r);
    lemma_listings_hold(gone, None, false, Seq::empty(), d);
    lemma_listings_hold(back, None, false, Seq::empty(), r);
    let shown_gone = gone.task_listing(None, false);
    let trash_gone = gone.trash_listing();
    let shown_back = back.task_listing(None, false);
    let trash_back = back.trash_listing();
    assert(trash_gone.contains(d));
    assert(lists(trash_gone, id)) by {
        let k = choose|k: int| 0 <= k < trash_gone.len() && trash_gone[k] == d;
        assert(trash_gone[k].id == id);
    }
    assert(lists(shown_back, id)) by {
        let k = choose|k: int| 0 <= k < shown_back.len() && shown_back[k] == r;
        assert(shown_back[k].id == id);
    }
    if lists(shown_gone, id) {
        let k = choose|k: int| 0 <= k < shown_gone.len() && (#[trigger] shown_gone[k]).id == id;
        lemma_listings_hold(gone, None, false, Seq::empty(), shown_gone[k]);
        assert(shown_gone.contains(shown_gone[k]));
    }
    if lists(trash_back, id) {
        let k = choose|k: int| 0 <= k < trash_back.len() && (#[trigger] trash_back[k]).id == id;
        lemma_listings_hold(back, None, false, Seq::empty(), trash_back[k]);
        assert(trash_back.contains(trash_back[k]));
    }
}

/// Cascade. Deleting a workspace leaves a valid store without it: it is no
/// longer listed, none of its tasks is there any more, in the trash or
/// not, no task that stays names it, and every task of another workspace, or
/// of none, stays as it was.
pub proof fn lemma_workspace_delete_cascades(s: StoreView, id: Seq<char>)
    requires
        s.valid(),
    ensures
        ({
            let after = s.without_workspace(id);
            &&& after.valid()
            &&& !after.has_workspace(id)
            &&& forall|k: int|
                0 <= k < after.workspace_listing().len() ==> (
                #[trigger] after.workspace_listing()[k]).id != id
            &&& forall|k: int|
                0 <= k < after.tasks.len() ==> (#[trigger] after.tasks[k]).workspace_id != Some(id)
            &&& forall|i: int|
                0 <= i < s.tasks.len() && (#[trigger] s.tasks[i]).workspace_id == Some(id)
                    ==> !after.has_task(s.tasks[i].id)
            &&& forall|i: int|
                0 <= i < s.tasks.len() && (#[trigger] s.tasks[i]).workspace_id != Some(id)
                    ==> after.task(s.tasks[i].id) == Some(s.tasks[i])
            &&& forall|i: int|
                0 <= i < s.workspaces.len() && (#[trigger] s.workspaces[i]).id != id
                    ==> after.workspaces.contains(s.workspaces[i])
        }),
{
    let after = s.without_workspace(id);
    lemma_without_workspace_valid(s, id);
    let keep = outside_of(id);
    let keep_ws = workspace_other_than(id);
    if after.has_workspace(id) {
        let k = choose|k: int|
            0 <= k < after.workspaces.len() && (#[trigger] after.workspaces[k]).id == id;
        lemma_filter_contains(s.workspaces, keep_ws, after.workspaces[k]);
        assert(after.workspaces.contains(after.workspaces[k]));
    }
    assert forall|k: int| 0 <= k < after.tasks.len() implies (
    #[trigger] after.tasks[k]).workspace_id != Some(id) by {
        lemma_filter_contains(s.tasks, keep, after.tasks[k]);
        assert(after.tasks.contains(after.tasks[k]));
    }
    assert forall|i: int|
        0 <= i < s.tasks.len() && (#[trigger] s.tasks[i]).workspace_id == Some(
            id,
        ) implies !after.has_task(s.tasks[i].id) by {
        if after.has_task(s.tasks[i].id) {
            let k = after.place_of(s.tasks[i].id);
            let x = after.tasks[k];
            lemma_filter_contains(s.tasks, keep, x);
            assert(after.tasks.contains(x));
            assert(s.tasks.contains(s.tasks[i]));
            lemma_never_listed_twice(s, s.tasks[i].id, s.tasks[i]);
        }
    }
    assert forall|i: int|
        0 <= i < s.tasks.len() && (#[trigger] s.tasks[i]).workspace_id != Some(
            id,
        ) implies after.task(s.tasks[i].id) == Some(s.tasks[i]) by {
        let x = s.tasks[i];
        assert(s.tasks.contains(x));
        lemma_filter_contains(s.tasks, keep, x);
        let k = choose|k: int| 0 <= k < after.tasks.len() && after.tasks[k] == x;
        lemma_task_at(after, k);
    }
    assert forall|i: int| 0 <= i < s.workspaces.len() && (#[trigger] s.workspaces[i]).id != id
        implies after.workspaces.contains(s.workspaces[i]) by {
        assert(s.workspaces.contains(s.workspaces[i]));
        lemma_filter_contains(s.workspaces, keep_ws, s.workspaces[i]);
    }
    lemma_workspace_listing(after);
}

/// The listing of workspaces holds every workspace once, under its own key
/// and name, with the count of its tasks that lie outside the trash, and
/// along it the names rise.
pub proof fn lemma_workspace_listing(s: StoreView)
    requires
        s.valid(),
    ensures
        s.workspace_listing().len() == s.workspaces.len(),
        forall|k: int|
            0 <= k < s.workspace_listing().len() ==> s.has_workspace(
                (#[trigger] s.workspace_listing()[k]).id,
            ) && s.workspace_listing()[k].task_count == s.live_count(s.workspace_listing()[k].id),
        forall|i: int|
            0 <= i < s.workspaces.len() ==> s.workspace_listing().contains(
                WorkspaceView {
                    task_count: s.live_count((#[trigger] s.workspaces[i]).id) as i32,
                    ..s.workspaces[i]
                },
            ),
        forall|j: int, k: int|
            0 <= j < k < s.workspace_listing().len() ==> text_lt(
                (#[trigger] s.workspace_listing()[j]).name,
                (#[trigger] s.workspace_listing()[k]).name,
            ),
{
    let counted = s.counted_workspaces();
    let keys = name_keys(s.workspaces);
    let order = arrangement(keys, keys.len(), false);
    let listing = s.workspace_listing();
    lemma_arrangement_sorted(keys, keys.len(), false);
    lemma_arranged_same_items(counted, keys, false);
    assert forall|k: int| 0 <= k < listing.len() implies s.has_workspace((#[trigger] listing[k]).id)
        && listing[k].task_count == s.live_count(listing[k].id) by {
        let i = order[k] as int;
        assert(listing[k] == counted[i]);
        assert(s.workspaces[i].id == listing[k].id);
        s.tasks.lemma_filter_len(live_in(listing[k].id));
    }
    assert forall|i: int| 0 <= i < s.workspaces.len() implies listing.contains(
        WorkspaceView {
            task_count: s.live_count((#[trigger] s.workspaces[i]).id) as i32,
            ..s.workspaces[i]
        },
    ) by {
        assert(counted[i] == WorkspaceView {
            task_count: s.live_count(s.workspaces[i].id) as i32,
            ..s.workspaces[i]
        });
        assert(counted.contains(counted[i]));
    }
    assert forall|j: int, k: int| 0 <= j < k < listing.len() implies text_lt(
        (#[trigger] listing[j]).name,
        (#[trigger] listing[k]).name,
    ) by {
        let a = order[j] as int;
        let b = order[k] as int;
        assert(!goes_before(keys, order[k], order[j], false));
        assert(order[j] != order[k]);
        if a < b {
            assert(s.workspaces[a].name != s.workspaces[b].name);
        } else {
            assert(s.workspaces[b].name != s.workspaces[a].name);
        }
        lemma_text_lt_total(keys[a], keys[b]);
    }
}

/// Counts follow the tasks. A new task adds one to the count of its
/// workspace where it lies outside the trash; moving a task into the trash
/// takes one from the count of its workspace where it lay outside, and
/// taking it out adds one where it lay inside; no other count changes.
pub proof fn lemma_counts_follow(
    s: StoreView,
    ws: Seq<char>,
    t: TaskView,
    id: Seq<char>,
    deleted: bool,
    now: Seq<char>,
)
    requires
        s.valid(),
    ensures
        s.with_task(t).live_count(ws) == s.live_count(ws) + one_if(
            t.workspace_id == Some(ws) && !t.is_deleted,
        ),
        !s.has_task(id) ==> s.flagged(id, deleted, now).live_count(ws) == s.live_count(ws),
        s.has_task(id) ==> s.flagged(id, deleted, now).live_count(ws) == s.live_count(ws) - one_if(
            s.task(id)->0.workspace_id == Some(ws) && !s.task(id)->0.is_deleted,
        ) + one_if(s.task(id)->0.workspace_id == Some(ws) && !deleted),
{
    let pred = live_in(ws);
    lemma_filter_len_push(s.tasks, pred, t);
    lemma_with_changed(s, id, deleted_set(deleted, now));
    if s.has_task(id) {
        let i = s.place_of(id);
        lemma_filter_len_update(s.tasks, pred, i, with_deleted(s.tasks[i], deleted, now));
    }
}

/// Whether the task `id` stands in `after` stamped with `now`, created when
/// it was in `before`, and last changed no earlier than it was in `before`.
pub open spec fn stamped(
    before: StoreView,
    after: StoreView,
    id: Seq<char>,
    now: Seq<char>,
) -> bool {
    &&& after.has_task(id)
    &&& after.task(id)->0.updated_at == now
    &&& after.task(id)->0.created_at == before.task(id)->0.created_at
    &&& !text_lt(after.task(id)->0.updated_at, before.task(id)->0.updated_at)
}

/// Changes follow the clock. An update, a change of status, a move into the
/// trash and a move out of it each stamp the task with the time they are
/// given and leave the time of creation alone. So where the time given is
/// not before the time of the task's last change, that time does not go
/// back.
pub proof fn lemma_changes_follow_clock(
    s: StoreView,
    id: Seq<char>,
    c: TaskChangesView,
    status: TaskStatus,
    now: Seq<char>,
)
    requires
        s.valid(),
        s.has_task(id),
        !text_lt(now, s.task(id)->0.updated_at),
    ensures
        stamped(s, s.updated(id, c, now), id, now),
        stamped(s, s.restatused(id, status, now), id, now),
        stamped(s, s.flagged(id, true, now), id, now),
        stamped(s, s.flagged(id, false, now), id, now),
{
    lemma_with_changed(s, id, update_with(c, now));
    lemma_with_changed(s, id, status_set(status, now));
    lemma_with_changed(s, id, deleted_set(true, now));
    lemma_with_changed(s, id, deleted_set(false, now));
}

/// A search sets the case of letters aside: two queries that differ in the
/// case of letters only give the same result. And it never gives a task
/// from the trash.
pub proof fn lemma_search_ignores_case(s: StoreView, a: Seq<char>, b: Seq<char>)
    requires
        s.valid(),
        same_folded(a, b),
    ensures
        s.search_result(a) == s.search_result(b),
        forall|k: int|
            0 <= k < s.search_result(a).len() ==> !(#[trigger] s.search_result(a)[k]).is_deleted,
{
    assert forall|i: int| 0 <= i < s.tasks.len() implies found_by(a)(#[trigger] s.tasks[i])
        == found_by(b)(s.tasks[i]) by {
        let t = s.tasks[i];
        lemma_contains_folded_same(t.title, a, b);
        lemma_contains_folded_same(t.task_id, a, b);
        if t.description is Some {
            lemma_contains_folded_same(t.description->0, a, b);
        }
    }
    lemma_filter_same(s.tasks, found_by(a), found_by(b));
    assert forall|k: int| 0 <= k < s.search_result(a).len() implies !(
    #[trigger] s.search_result(a)[k]).is_deleted by {
        let x = s.search_result(a)[k];
        lemma_listings_hold(s, None, false, a, x);
        assert(s.search_result(a).contains(x));
    }
}

/// Deleting for good. A task that is deleted for good is no longer there,
/// whether it lay in the trash or not, and every other task stays as it was.
/// Emptying the trash leaves nothing in it and leaves every task outside it
/// as it was.
pub proof fn lemma_deleted_for_good(s: StoreView, id: Seq<char>)
    requires
        s.valid(),
    ensures
        s.without_task(id).valid(),
        !s.without_task(id).has_task(id),
        forall|i: int|
            0 <= i < s.tasks.len() && (#[trigger] s.tasks[i]).id != id ==> s.without_task(id).task(
                s.tasks[i].id,
            ) == Some(s.tasks[i]),
        s.without_trash().valid(),
        s.without_trash().trash_listing().len() == 0,
        forall|i: int|
            0 <= i < s.tasks.len() && !(#[trigger] s.tasks[i]).is_deleted
                ==> s.without_trash().task(s.tasks[i].id) == Some(s.tasks[i]),
        forall|i: int|
            0 <= i < s.tasks.len() && (#[trigger] s.tasks[i]).is_deleted
                ==> !s.without_trash().has_task(s.tasks[i].id),
{
    let one = s.without_task(id);
    let all = s.without_trash();
    lemma_fewer_tasks_valid(s, other_than(id));
    lemma_fewer_tasks_valid(s, live());
    if one.has_task(id) {
        let x = one.tasks[one.place_of(id)];
        lemma_filter_contains(s.tasks, other_than(id), x);
        assert(one.tasks.contains(x));
    }
    assert forall|i: int| 0 <= i < s.tasks.len() && (#[trigger] s.tasks[i]).id != id
        implies one.task(s.tasks[i].id) == Some(s.tasks[i]) by {
        let x = s.tasks[i];
        assert(s.tasks.contains(x));
        lemma_filter_contains(s.tasks, other_than(id), x);
        let k = choose|k: int| 0 <= k < one.tasks.len() && one.tasks[k] == x;
        lemma_task_at(one, k);
    }
    assert forall|i: int| 0 <= i < s.tasks.len() && !(#[trigger] s.tasks[i]).is_deleted
        implies all.task(s.tasks[i].id) == Some(s.tasks[i]) by {
        let x = s.tasks[i];
        assert(s.tasks.contains(x));
        lemma_filter_contains(s.tasks, live(), x);
        let k = choose|k: int| 0 <= k < all.tasks.len() && all.tasks[k] == x;
        lemma_task_at(all, k);
    }
    assert forall|i: int| 0 <= i < s.tasks.len() && (#[trigger] s.tasks[i]).is_deleted
        implies !all.has_task(s.tasks[i].id) by {
        if all.has_task(s.tasks[i].id) {
            let x = all.tasks[all.place_of(s.tasks[i].id)];
            lemma_filter_contains(s.tasks, live(), x);
            assert(all.tasks.contains(x));
            assert(s.tasks.contains(s.tasks[i]));
            lemma_never_listed_twice(s, s.tasks[i].id, s.tasks[i]);
        }
    }
    let left = all.trash_listing();
    if left.len() > 0 {
        let x = left[0];
        assert(left.contains(x));
        lemma_listings_hold(all, None, false, Seq::empty(), x);
        lemma_filter_contains(s.tasks, live(), x);
    }
}

/// In a valid store a task with the key of a task that is there is that task.
pub proof fn lemma_never_listed_twice(s: StoreView, id: Seq<char>, t: TaskView)
    requires
        s.valid(),
        s.tasks.contains(t),
        t.id == id,
    ensures
        forall|x: TaskView| s.tasks.contains(x) && x.id == id ==> x == t,
{
    let i = choose|i: int| 0 <= i < s.tasks.len() && s.tasks[i] == t;
    assert forall|x: TaskView| s.tasks.contains(x) && x.id == id implies x == t by {
        let j = choose|j: int| 0 <= j < s.tasks.len() && s.tasks[j] == x;
        if j < i {
            assert(s.tasks[j].id != s.tasks[i].id);
        } else if i < j {
            assert(s.tasks[i].id != s.tasks[j].id);
        }
    }
}

} // verus!
