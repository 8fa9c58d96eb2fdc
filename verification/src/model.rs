//! The store as a mathematical value: two sequences of rows, what makes them
//! a valid store, and what each operation makes of them.

use crate::order::arranged;
use crate::pick::{lemma_filter_by_places, lemma_places, places};
use crate::status::TaskStatus;
use crate::task::{TaskView, WorkspaceView};
use crate::task_type::TaskType;
use crate::text::contains_folded;
use vstd::prelude::*;
use vstd::string::StringExecFns;

verus! {

/// The most tasks a store holds, so that a count of them fits the type of a
/// workspace's task count.
pub const MAX_TASKS: usize = 0x7fff_ffff;

/// Why the store refused a new row.
#[derive(Debug, Clone, Copy, PartialEq, Eq, Structural)]
pub enum StoreError {
    /// A row with the same surrogate key is already there.
    DuplicateKey,
    /// A task with the same readable identifier is already there.
    DuplicateTaskId,
    /// A workspace with the same name is already there.
    DuplicateName,
    /// The task names a workspace that is not there.
    UnknownWorkspace,
    /// The store holds as many tasks as it can.
    TooManyTasks,
}

impl StoreError {
    /// What a refusal reads as.
    pub open spec fn text(self) -> Seq<char> {
        match self {
            StoreError::DuplicateKey => "a row with this key is already stored"@,
            StoreError::DuplicateTaskId => "a task with this identifier is already stored"@,
            StoreError::DuplicateName => "a workspace with this name is already stored"@,
            StoreError::UnknownWorkspace => "the task names a workspace that is not stored"@,
            StoreError::TooManyTasks => "the store holds as many tasks as it can"@,
        }
    }

    /// Describes the refusal in words.
    pub fn message(&self) -> (r: String)
        ensures
            r@ == self.text(),
    {
        match self {
            StoreError::DuplicateKey => String::from_str(
                "a row with this key is already stored",
            ),
            StoreError::DuplicateTaskId => String::from_str(
                "a task with this identifier is already stored",
            ),
            StoreError::DuplicateName => String::from_str(
                "a workspace with this name is already stored",
            ),
            StoreError::UnknownWorkspace => String::from_str(
                "the task names a workspace that is not stored",
            ),
            StoreError::TooManyTasks => String::from_str(
                "the store holds as many tasks as it can",
            ),
        }
    }
}

/// The fields of a task that an update may set; a field left out keeps its
/// value.
pub struct TaskChangesView {
    pub title: Option<Seq<char>>,
    pub description: Option<Seq<char>>,
    pub status: Option<TaskStatus>,
    pub priority: Option<i32>,
    pub progress: Option<i32>,
    pub is_ai_linked: Option<bool>,
}

/// The task `t` after an update at time `now`: each given field is set, and
/// the time of the last change is `now` whether or not a field was given.
pub open spec fn changed(t: TaskView, c: TaskChangesView, now: Seq<char>) -> TaskView {
    TaskView {
        title: if let Some(x) = c.title { x } else { t.title },
        description: if c.description is Some { c.description } else { t.description },
        status: if let Some(x) = c.status { x } else { t.status },
        priority: if let Some(x) = c.priority { x } else { t.priority },
        progress: if let Some(x) = c.progress { x } else { t.progress },
        is_ai_linked: if let Some(x) = c.is_ai_linked { x } else { t.is_ai_linked },
        updated_at: now,
        ..t
    }
}

/// The task `t` with its status set at time `now`.
pub open spec fn with_status(t: TaskView, status: TaskStatus, now: Seq<char>) -> TaskView {
    TaskView { status, updated_at: now, ..t }
}

/// The task `t` moved into the trash or out of it at time `now`.
pub open spec fn with_deleted(t: TaskView, deleted: bool, now: Seq<char>) -> TaskView {
    TaskView { is_deleted: deleted, updated_at: now, ..t }
}

/// The change that an update at time `now` makes to a task.
pub open spec fn update_with(c: TaskChangesView, now: Seq<char>) -> spec_fn(TaskView) -> TaskView {
    |t: TaskView| changed(t, c, now)
}

/// The change that setting a status at time `now` makes to a task.
pub open spec fn status_set(status: TaskStatus, now: Seq<char>) -> spec_fn(TaskView) -> TaskView {
    |t: TaskView| with_status(t, status, now)
}

/// The change that moving a task into the trash, or out of it, makes to it.
pub open spec fn deleted_set(deleted: bool, now: Seq<char>) -> spec_fn(TaskView) -> TaskView {
    |t: TaskView| with_deleted(t, deleted, now)
}

/// Whether a change leaves a task its two keys and its workspace.
pub open spec fn keeps_keys(f: spec_fn(TaskView) -> TaskView) -> bool {
    forall|t: TaskView|
        (#[trigger] f(t)).id == t.id && f(t).task_id == t.task_id && f(t).workspace_id
            == t.workspace_id
}

/// A task as it is when it has just been created.
pub open spec fn new_task(
    id: Seq<char>,
    task_id: Seq<char>,
    now: Seq<char>,
    title: Seq<char>,
    description: Option<Seq<char>>,
    task_type: TaskType,
    priority: i32,
    workspace_id: Option<Seq<char>>,
    status: TaskStatus,
) -> TaskView {
    TaskView {
        id,
        task_id,
        title,
        description,
        status,
        priority,
        task_type,
        workspace_id,
        tags: Seq::empty(),
        progress: 0,
        is_ai_linked: false,
        is_deleted: false,
        created_at: now,
        updated_at: now,
    }
}

/// A workspace as it is when it has just been created.
pub open spec fn new_workspace(
    id: Seq<char>,
    name: Seq<char>,
    color: Seq<char>,
    now: Seq<char>,
) -> WorkspaceView {
    WorkspaceView { id, name, color, icon: None, task_count: 0, created_at: now }
}

/// The workspace that a store without any workspace is given first.
pub open spec fn default_workspace(id: Seq<char>, now: Seq<char>) -> WorkspaceView {
    new_workspace(id, "Development"@, "#3b82f6"@, now)
}

/// Tasks whose surrogate key is not `id`.
pub open spec fn other_than(id: Seq<char>) -> spec_fn(TaskView) -> bool {
    |t: TaskView| t.id != id
}

/// Tasks that do not belong to the workspace `ws`.
pub open spec fn outside_of(ws: Seq<char>) -> spec_fn(TaskView) -> bool {
    |t: TaskView| t.workspace_id != Some(ws)
}

/// Tasks that belong to the workspace `ws`.
pub open spec fn inside_of(ws: Seq<char>) -> spec_fn(TaskView) -> bool {
    |t: TaskView| t.workspace_id == Some(ws)
}

/// Tasks whose surrogate key is `id`.
pub open spec fn with_key(id: Seq<char>) -> spec_fn(TaskView) -> bool {
    |t: TaskView| t.id == id
}

/// The surrogate keys of the tasks, in their order.
pub open spec fn keys_of(tasks: Seq<TaskView>) -> Seq<Seq<char>> {
    tasks.map_values(|t: TaskView| t.id)
}

/// Workspaces whose surrogate key is not `id`.
pub open spec fn workspace_other_than(id: Seq<char>) -> spec_fn(WorkspaceView) -> bool {
    |w: WorkspaceView| w.id != id
}

/// Tasks that do not lie in the trash.
pub open spec fn live() -> spec_fn(TaskView) -> bool {
    |t: TaskView| !t.is_deleted
}

/// Tasks that lie in the trash.
pub open spec fn trashed() -> spec_fn(TaskView) -> bool {
    |t: TaskView| t.is_deleted
}

/// Tasks of the workspace `ws` that do not lie in the trash.
pub open spec fn live_in(ws: Seq<char>) -> spec_fn(TaskView) -> bool {
    |t: TaskView| t.workspace_id == Some(ws) && !t.is_deleted
}

/// Tasks that a listing shows: those of the workspace, where one is given,
/// and those in the trash only on demand.
pub open spec fn shown(ws: Option<Seq<char>>, include_deleted: bool) -> spec_fn(TaskView) -> bool {
    |t: TaskView| (ws is Some ==> t.workspace_id == ws) && (include_deleted || !t.is_deleted)
}

/// Tasks that a search for `query` finds: those outside the trash with
/// `query` in the title, in the readable identifier or in a description, the
/// case of letters set aside.
pub open spec fn found_by(query: Seq<char>) -> spec_fn(TaskView) -> bool {
    |t: TaskView|
        !t.is_deleted && (contains_folded(t.title, query) || contains_folded(t.task_id, query) || (
        t.description is Some && contains_folded(t.description->0, query)))
}

/// The times at which the tasks were created.
pub open spec fn created_keys(tasks: Seq<TaskView>) -> Seq<Seq<char>> {
    tasks.map_values(|t: TaskView| t.created_at)
}

/// The times at which the tasks were last changed.
pub open spec fn updated_keys(tasks: Seq<TaskView>) -> Seq<Seq<char>> {
    tasks.map_values(|t: TaskView| t.updated_at)
}

/// The names of the workspaces.
pub open spec fn name_keys(workspaces: Seq<WorkspaceView>) -> Seq<Seq<char>> {
    workspaces.map_values(|w: WorkspaceView| w.name)
}

/// The tasks with the latest created first.
pub open spec fn newest_first(tasks: Seq<TaskView>) -> Seq<TaskView> {
    arranged(tasks, created_keys(tasks), true)
}

/// The tasks with the latest changed first.
pub open spec fn latest_change_first(tasks: Seq<TaskView>) -> Seq<TaskView> {
    arranged(tasks, updated_keys(tasks), true)
}

/// What a store holds.
pub struct StoreView {
    pub workspaces: Seq<WorkspaceView>,
    pub tasks: Seq<TaskView>,
}

impl StoreView {
    /// Whether a workspace with this surrogate key is there.
    pub open spec fn has_workspace(self, id: Seq<char>) -> bool {
        exists|i: int| 0 <= i < self.workspaces.len() && (#[trigger] self.workspaces[i]).id == id
    }

    /// Whether a workspace with this name is there.
    pub open spec fn has_name(self, name: Seq<char>) -> bool {
        exists|i: int|
            0 <= i < self.workspaces.len() && (#[trigger] self.workspaces[i]).name == name
    }

    /// Whether a task with this surrogate key is there, in the trash or not.
    pub open spec fn has_task(self, id: Seq<char>) -> bool {
        exists|i: int| 0 <= i < self.tasks.len() && (#[trigger] self.tasks[i]).id == id
    }

    /// Whether a task with this readable identifier is there.
    pub open spec fn has_task_id(self, task_id: Seq<char>) -> bool {
        exists|i: int| 0 <= i < self.tasks.len() && (#[trigger] self.tasks[i]).task_id == task_id
    }

    /// The task with this surrogate key, if it is there.
    pub open spec fn task(self, id: Seq<char>) -> Option<TaskView> {
        if self.has_task(id) {
            Some(self.tasks[self.place_of(id)])
        } else {
            None
        }
    }

    /// What makes the two sequences a store: no two tasks share a surrogate
    /// key or a readable identifier, no two workspaces share a surrogate key
    /// or a name, every task that names a workspace names one that is there,
    /// no count is kept with a workspace, and the rows are not too many.
    pub open spec fn valid(self) -> bool {
        &&& forall|i: int, j: int|
            0 <= i < j < self.tasks.len() ==> (#[trigger] self.tasks[i]).id != (
            #[trigger] self.tasks[j]).id
        &&& forall|i: int, j: int|
            0 <= i < j < self.tasks.len() ==> (#[trigger] self.tasks[i]).task_id != (
            #[trigger] self.tasks[j]).task_id
        &&& forall|i: int, j: int|
            0 <= i < j < self.workspaces.len() ==> (#[trigger] self.workspaces[i]).id != (
            #[trigger] self.workspaces[j]).id
        &&& forall|i: int, j: int|
            0 <= i < j < self.workspaces.len() ==> (#[trigger] self.workspaces[i]).name != (
            #[trigger] self.workspaces[j]).name
        &&& forall|i: int|
            0 <= i < self.tasks.len() && (#[trigger] self.tasks[i]).workspace_id is Some
                ==> self.has_workspace(self.tasks[i].workspace_id->0)
        &&& forall|i: int|
            0 <= i < self.workspaces.len() ==> (#[trigger] self.workspaces[i]).task_count == 0
        &&& self.tasks.len() <= MAX_TASKS
        &&& self.workspaces.len() <= usize::MAX
    }

    /// Why a new task is refused, if it is.
    pub open spec fn task_refusal(self, t: TaskView) -> Option<StoreError> {
        if self.tasks.len() >= MAX_TASKS {
            Some(StoreError::TooManyTasks)
        } else if self.has_task(t.id) {
            Some(StoreError::DuplicateKey)
        } else if self.has_task_id(t.task_id) {
            Some(StoreError::DuplicateTaskId)
        } else if t.workspace_id is Some && !self.has_workspace(t.workspace_id->0) {
            Some(StoreError::UnknownWorkspace)
        } else {
            None
        }
    }

    /// Why a new workspace is refused, if it is.
    pub open spec fn workspace_refusal(self, w: WorkspaceView) -> Option<StoreError> {
        if self.has_workspace(w.id) {
            Some(StoreError::DuplicateKey)
        } else if self.has_name(w.name) {
            Some(StoreError::DuplicateName)
        } else {
            None
        }
    }

    /// The store with one more task, behind the others.
    pub open spec fn with_task(self, t: TaskView) -> StoreView {
        StoreView { tasks: self.tasks.push(t), ..self }
    }

    /// The store with one more workspace, behind the others.
    pub open spec fn with_workspace(self, w: WorkspaceView) -> StoreView {
        StoreView { workspaces: self.workspaces.push(w), ..self }
    }

    /// The store with the task `id` changed by `f`, and every other row as
    /// it was.
    pub open spec fn with_changed(
        self,
        id: Seq<char>,
        f: spec_fn(TaskView) -> TaskView,
    ) -> StoreView {
        StoreView {
            tasks: self.tasks.map_values(|t: TaskView| if t.id == id { f(t) } else { t }),
            ..self
        }
    }

    /// The store after an update of the task `id` at time `now`.
    pub open spec fn updated(self, id: Seq<char>, c: TaskChangesView, now: Seq<char>) -> StoreView {
        self.with_changed(id, update_with(c, now))
    }

    /// The store after the task `id` was given a status at time `now`.
    pub open spec fn restatused(
        self,
        id: Seq<char>,
        status: TaskStatus,
        now: Seq<char>,
    ) -> StoreView {
        self.with_changed(id, status_set(status, now))
    }

    /// The store after the task `id` was moved into the trash, or out of it,
    /// at time `now`.
    pub open spec fn flagged(self, id: Seq<char>, deleted: bool, now: Seq<char>) -> StoreView {
        self.with_changed(id, deleted_set(deleted, now))
    }

    /// The place of the task with surrogate key `id`, where it is there.
    pub open spec fn place_of(self, id: Seq<char>) -> int {
        choose|i: int| 0 <= i < self.tasks.len() && (#[trigger] self.tasks[i]).id == id
    }

    /// The store without the task `id`.
    pub open spec fn without_task(self, id: Seq<char>) -> StoreView {
        StoreView { tasks: self.tasks.filter(other_than(id)), ..self }
    }

    /// The store without the tasks that lay in the trash.
    pub open spec fn without_trash(self) -> StoreView {
        StoreView { tasks: self.tasks.filter(live()), ..self }
    }

    /// The store without the workspace `id` and without every task of it, in
    /// the trash or not.
    pub open spec fn without_workspace(self, id: Seq<char>) -> StoreView {
        StoreView {
            workspaces: self.workspaces.filter(workspace_other_than(id)),
            tasks: self.tasks.filter(outside_of(id)),
        }
    }

    /// How many tasks of the workspace `ws` lie outside the trash.
    pub open spec fn live_count(self, ws: Seq<char>) -> nat {
        self.tasks.filter(live_in(ws)).len()
    }

    /// The workspaces, each with the count of its tasks outside the trash.
    pub open spec fn counted_workspaces(self) -> Seq<WorkspaceView> {
        self.workspaces.map_values(
            |w: WorkspaceView| WorkspaceView { task_count: self.live_count(w.id) as i32, ..w },
        )
    }

    /// The listing of workspaces: by name, each with its count.
    pub open spec fn workspace_listing(self) -> Seq<WorkspaceView> {
        arranged(self.counted_workspaces(), name_keys(self.workspaces), false)
    }

    /// The listing of tasks: those shown, the latest created first.
    pub open spec fn task_listing(
        self,
        ws: Option<Seq<char>>,
        include_deleted: bool,
    ) -> Seq<TaskView> {
        newest_first(self.tasks.filter(shown(ws, include_deleted)))
    }

    /// The listing of the trash: the latest changed first.
    pub open spec fn trash_listing(self) -> Seq<TaskView> {
        latest_change_first(self.tasks.filter(trashed()))
    }

    /// What a search for `query` gives: the tasks found, the latest created
    /// first.
    pub open spec fn search_result(self, query: Seq<char>) -> Seq<TaskView> {
        newest_first(self.tasks.filter(found_by(query)))
    }
}

/// A task that is not refused leaves the store valid.
pub proof fn lemma_with_task_valid(s: StoreView, t: TaskView)
    requires
        s.valid(),
        s.task_refusal(t) is None,
    ensures
        s.with_task(t).valid(),
{
    let after = s.with_task(t);
    assert forall|i: int|
        0 <= i < after.tasks.len() && (#[trigger] after.tasks[i]).workspace_id is Some
        implies after.has_workspace(after.tasks[i].workspace_id->0) by {
        if i < s.tasks.len() {
            assert(after.tasks[i] == s.tasks[i]);
            assert(s.has_workspace(s.tasks[i].workspace_id->0));
        } else {
            assert(s.has_workspace(t.workspace_id->0));
        }
    }
    assert forall|i: int, j: int| 0 <= i < j < after.tasks.len() implies (
    #[trigger] after.tasks[i]).id != (#[trigger] after.tasks[j]).id by {
        assert(after.tasks[i] == s.tasks[i]);
        if j < s.tasks.len() {
            assert(after.tasks[j] == s.tasks[j]);
        }
    }
    assert forall|i: int, j: int|
        0 <= i < j < after.tasks.len() implies (#[trigger] after.tasks[i]).task_id != (
    #[trigger] after.tasks[j]).task_id by {
        assert(after.tasks[i] == s.tasks[i]);
        if j < s.tasks.len() {
            assert(after.tasks[j] == s.tasks[j]);
        }
    }
}

/// A workspace that is not refused, and that carries no count, leaves the
/// store valid.
pub proof fn lemma_with_workspace_valid(s: StoreView, w: WorkspaceView)
    requires
        s.valid(),
        s.workspace_refusal(w) is None,
        w.task_count == 0,
        s.workspaces.len() < usize::MAX,
    ensures
        s.with_workspace(w).valid(),
{
    let after = s.with_workspace(w);
    assert forall|i: int|
        0 <= i < after.tasks.len() && (#[trigger] after.tasks[i]).workspace_id is Some
        implies after.has_workspace(after.tasks[i].workspace_id->0) by {
        let id = s.tasks[i].workspace_id->0;
        assert(s.has_workspace(id));
        let j = choose|j: int| 0 <= j < s.workspaces.len() && (#[trigger] s.workspaces[j]).id == id;
        assert(after.workspaces[j].id == id);
    }
    assert forall|i: int, j: int|
        0 <= i < j < after.workspaces.len() implies (#[trigger] after.workspaces[i]).id != (
    #[trigger] after.workspaces[j]).id by {
        assert(after.workspaces[i] == s.workspaces[i]);
        if j < s.workspaces.len() {
            assert(after.workspaces[j] == s.workspaces[j]);
        }
    }
    assert forall|i: int, j: int|
        0 <= i < j < after.workspaces.len() implies (#[trigger] after.workspaces[i]).name != (
    #[trigger] after.workspaces[j]).name by {
        assert(after.workspaces[i] == s.workspaces[i]);
        if j < s.workspaces.len() {
            assert(after.workspaces[j] == s.workspaces[j]);
        }
    }
    assert forall|i: int| 0 <= i < after.workspaces.len() implies (
    #[trigger] after.workspaces[i]).task_count == 0 by {
        if i < s.workspaces.len() {
            assert(after.workspaces[i] == s.workspaces[i]);
        }
    }
}

/// In a valid store the task at a place is the one found under its key.
pub proof fn lemma_task_at(s: StoreView, i: int)
    requires
        s.valid(),
        0 <= i < s.tasks.len(),
    ensures
        s.has_task(s.tasks[i].id),
        s.place_of(s.tasks[i].id) == i,
        s.task(s.tasks[i].id) == Some(s.tasks[i]),
{
    let j = s.place_of(s.tasks[i].id);
    if j < i {
        assert(s.tasks[j].id != s.tasks[i].id);
    } else if i < j {
        assert(s.tasks[i].id != s.tasks[j].id);
    }
}

/// A change that keeps the keys changes the one row that has the key, where
/// there is one, and leaves a valid store: the changed task is found under
/// its key, and every other task is found as it was.
pub proof fn lemma_with_changed(s: StoreView, id: Seq<char>, f: spec_fn(TaskView) -> TaskView)
    requires
        s.valid(),
        keeps_keys(f),
    ensures
        s.with_changed(id, f).valid(),
        s.with_changed(id, f).workspaces == s.workspaces,
        !s.has_task(id) ==> s.with_changed(id, f) == s,
        s.has_task(id) ==> s.with_changed(id, f).tasks == s.tasks.update(
            s.place_of(id),
            f(s.tasks[s.place_of(id)]),
        ),
        s.has_task(id) ==> s.with_changed(id, f).task(id) == Some(f(s.task(id)->0)),
        forall|o: Seq<char>|
            o != id ==> #[trigger] s.with_changed(id, f).task(o) == s.task(o),
        forall|o: Seq<char>| #[trigger] s.with_changed(id, f).has_task(o) == s.has_task(o),
{
    let after = s.with_changed(id, f);
    assert forall|i: int| 0 <= i < s.tasks.len() implies (#[trigger] after.tasks[i]).id
        == s.tasks[i].id && after.tasks[i].task_id == s.tasks[i].task_id
        && after.tasks[i].workspace_id == s.tasks[i].workspace_id by {
        assert(f(s.tasks[i]).id == s.tasks[i].id);
    }
    assert forall|i: int|
        0 <= i < after.tasks.len() && (#[trigger] after.tasks[i]).workspace_id is Some
        implies after.has_workspace(after.tasks[i].workspace_id->0) by {
        assert(s.has_workspace(s.tasks[i].workspace_id->0));
    }
    assert forall|i: int, j: int| 0 <= i < j < after.tasks.len() implies (
    #[trigger] after.tasks[i]).id != (#[trigger] after.tasks[j]).id by {
        assert(s.tasks[i].id != s.tasks[j].id);
    }
    assert forall|i: int, j: int|
        0 <= i < j < after.tasks.len() implies (#[trigger] after.tasks[i]).task_id != (
    #[trigger] after.tasks[j]).task_id by {
        assert(s.tasks[i].task_id != s.tasks[j].task_id);
    }
    assert(after.valid());
    assert forall|o: Seq<char>| #[trigger] after.has_task(o) == s.has_task(o) by {
        if s.has_task(o) {
            let i = s.place_of(o);
            assert(after.tasks[i].id == o);
        }
        if after.has_task(o) {
            let i = after.place_of(o);
            assert(s.tasks[i].id == o);
        }
    }
    if s.has_task(id) {
        let i = s.place_of(id);
        lemma_task_at(s, i);
        assert forall|k: int| 0 <= k < s.tasks.len() && k != i implies s.tasks[k].id != id by {
            if k < i {
                assert(s.tasks[k].id != s.tasks[i].id);
            } else {
                assert(s.tasks[i].id != s.tasks[k].id);
            }
        }
        assert(after.tasks =~= s.tasks.update(i, f(s.tasks[i])));
        lemma_task_at(after, i);
    } else {
        assert(after.tasks =~= s.tasks);
    }
    assert forall|o: Seq<char>| o != id implies #[trigger] after.task(o) == s.task(o) by {
        if s.has_task(o) {
            let i = s.place_of(o);
            lemma_task_at(s, i);
            lemma_task_at(after, i);
        }
    }
}

/// The refusal that a result carries, if it carries one.
pub open spec fn refusal_in<T>(r: Result<T, StoreError>) -> Option<StoreError> {
    match r {
        Ok(_) => None,
        Err(e) => Some(e),
    }
}

/// What offering the task `t` to the store `before` comes to: the store
/// refuses it exactly where `task_refusal` says so and then stays as it is,
/// and takes it behind the other tasks otherwise.
pub open spec fn task_offered(
    before: StoreView,
    after: StoreView,
    t: TaskView,
    refused: Option<StoreError>,
) -> bool {
    &&& refused == before.task_refusal(t)
    &&& after == if refused is None {
        before.with_task(t)
    } else {
        before
    }
}

/// What offering the workspace `w` to the store `before` comes to: the store
/// refuses it exactly where `workspace_refusal` says so and then stays as it
/// is, and takes it behind the other workspaces otherwise.
pub open spec fn workspace_offered(
    before: StoreView,
    after: StoreView,
    w: WorkspaceView,
    refused: Option<StoreError>,
) -> bool {
    &&& refused == before.workspace_refusal(w)
    &&& after == if refused is None {
        before.with_workspace(w)
    } else {
        before
    }
}

/// Leaving tasks out of a valid store leaves a valid store.
pub proof fn lemma_fewer_tasks_valid(s: StoreView, keep: spec_fn(TaskView) -> bool)
    requires
        s.valid(),
    ensures
        (StoreView { tasks: s.tasks.filter(keep), ..s }).valid(),
{
    let kept = s.tasks.filter(keep);
    let at = places(s.tasks, keep);
    lemma_places(s.tasks, keep);
    lemma_filter_by_places(s.tasks, keep);
    let after = StoreView { tasks: kept, ..s };
    assert forall|i: int| 0 <= i < kept.len() implies (#[trigger] kept[i]) == s.tasks[at[i]] by {}
    assert forall|i: int, j: int| 0 <= i < j < kept.len() implies (#[trigger] kept[i]).id != (
    #[trigger] kept[j]).id by {
        assert(at[i] < at[j]);
    }
    assert forall|i: int, j: int| 0 <= i < j < kept.len() implies (#[trigger] kept[i]).task_id != (
    #[trigger] kept[j]).task_id by {
        assert(at[i] < at[j]);
    }
    assert forall|i: int| 0 <= i < kept.len() && (#[trigger] kept[i]).workspace_id is Some
        implies after.has_workspace(kept[i].workspace_id->0) by {
        assert(s.has_workspace(s.tasks[at[i]].workspace_id->0));
    }
}

/// Removing a workspace together with its tasks leaves a valid store.
pub proof fn lemma_without_workspace_valid(s: StoreView, id: Seq<char>)
    requires
        s.valid(),
    ensures
        s.without_workspace(id).valid(),
{
    let after = s.without_workspace(id);
    let mid = StoreView { tasks: s.tasks.filter(outside_of(id)), ..s };
    lemma_fewer_tasks_valid(s, outside_of(id));
    let keep = workspace_other_than(id);
    let at = places(s.workspaces, keep);
    lemma_places(s.workspaces, keep);
    lemma_filter_by_places(s.workspaces, keep);
    let kept = after.workspaces;
    assert forall|i: int| 0 <= i < kept.len() implies (#[trigger] kept[i])
        == s.workspaces[at[i]] by {}
    assert forall|i: int, j: int| 0 <= i < j < kept.len() implies (#[trigger] kept[i]).id != (
    #[trigger] kept[j]).id by {
        assert(at[i] < at[j]);
    }
    assert forall|i: int, j: int| 0 <= i < j < kept.len() implies (#[trigger] kept[i]).name != (
    #[trigger] kept[j]).name by {
        assert(at[i] < at[j]);
    }
    let tat = places(s.tasks, outside_of(id));
    lemma_places(s.tasks, outside_of(id));
    lemma_filter_by_places(s.tasks, outside_of(id));
    assert forall|i: int|
        0 <= i < after.tasks.len() && (#[trigger] after.tasks[i]).workspace_id is Some
        implies after.has_workspace(after.tasks[i].workspace_id->0) by {
        let w = after.tasks[i].workspace_id->0;
        assert(after.tasks[i] == s.tasks[tat[i]]);
        assert(outside_of(id)(s.tasks[tat[i]]));
        assert(w != id);
        assert(mid.has_workspace(w));
        let j = choose|j: int| 0 <= j < s.workspaces.len() && (#[trigger] s.workspaces[j]).id == w;
        assert(keep(s.workspaces[j]));
        assert(at.contains(j));
        let m = choose|m: int| 0 <= m < at.len() && at[m] == j;
        assert(kept[m].id == w);
    }
}

} // verus!
