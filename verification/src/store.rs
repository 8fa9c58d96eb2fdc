//! The store: workspaces and tasks in the order in which they came, and the
//! operations on them.

use crate::clock::utc_now_text;
use crate::ident::{fresh_key, generate_task_id, is_task_id, is_uuid_text};
use crate::model::{
    changed, created_keys, default_workspace, found_by, inside_of, keys_of, latest_change_first,
    lemma_fewer_tasks_valid, lemma_with_task_valid, lemma_with_workspace_valid,
    lemma_without_workspace_valid, live, live_in, name_keys, new_task, new_workspace, newest_first,
    other_than, outside_of, refusal_in, shown, task_offered, trashed, updated_keys, with_key,
    workspace_offered, workspace_other_than, StoreError, StoreView, TaskChangesView, MAX_TASKS,
};
use crate::order::{arrange, arranged};
use crate::pick::lemma_filter_step;
use crate::status::TaskStatus;
use crate::task::{Task, TaskView, Workspace, WorkspaceView};
use crate::task_type::TaskType;
use crate::text::{chars_of, contains_folded, lowercase_of, occurs_in, same_text, uppercase_of};
use vstd::prelude::*;
use vstd::string::StringExecFns;

verus! {

/// The fields of a task that an update sets; a field left out keeps its
/// value.
#[derive(Debug, PartialEq, Eq)]
pub struct TaskChanges {
    pub title: Option<String>,
    pub description: Option<String>,
    pub status: Option<TaskStatus>,
    pub priority: Option<i32>,
    pub progress: Option<i32>,
    pub is_ai_linked: Option<bool>,
}

impl View for TaskChanges {
    type V = TaskChangesView;

    open spec fn view(&self) -> TaskChangesView {
        TaskChangesView {
            title: self.title.deep_view(),
            description: self.description.deep_view(),
            status: self.status,
            priority: self.priority,
            progress: self.progress,
            is_ai_linked: self.is_ai_linked,
        }
    }
}

/// The status that an optional text asks for, read leniently.
pub open spec fn read_status(text: Option<Seq<char>>) -> Option<TaskStatus> {
    match text {
        Some(s) => Some(TaskStatus::named_or_default(uppercase_of(s))),
        None => None,
    }
}

/// Which tasks stay when tasks are removed.
enum Keep<'a> {
    /// All but the task with this surrogate key.
    OtherThan(&'a str),
    /// All but the tasks of this workspace.
    OutsideOf(&'a str),
    /// All but the tasks in the trash.
    Live,
}

impl<'a> Keep<'a> {
    spec fn selects(&self) -> spec_fn(TaskView) -> bool {
        match self {
            Keep::OtherThan(id) => other_than(id@),
            Keep::OutsideOf(ws) => outside_of(ws@),
            Keep::Live => live(),
        }
    }

    spec fn drops(&self) -> spec_fn(TaskView) -> bool {
        match self {
            Keep::OtherThan(id) => with_key(id@),
            Keep::OutsideOf(ws) => inside_of(ws@),
            Keep::Live => trashed(),
        }
    }

    fn keeps(&self, t: &Task) -> (r: bool)
        ensures
            r == (self.selects())(t@),
            r == !(self.drops())(t@),
    {
        match self {
            Keep::OtherThan(id) => !same_text(t.id.as_str(), id),
            Keep::OutsideOf(ws) => match &t.workspace_id {
                Some(w) => !same_text(w.as_str(), ws),
                None => true,
            },
            Keep::Live => !t.is_deleted,
        }
    }
}

/// The status of a new task: the one that the text asks for, read leniently,
/// and the backlog where no text is given.
pub open spec fn first_status(text: Option<Seq<char>>) -> TaskStatus {
    match text {
        Some(s) => TaskStatus::named_or_default(uppercase_of(s)),
        None => TaskStatus::Backlog,
    }
}

/// The task that a request for a new one describes, once its keys are drawn
/// and the clock is read: kind and status are read leniently from their
/// texts.
pub open spec fn requested_task(
    id: Seq<char>,
    task_id: Seq<char>,
    now: Seq<char>,
    title: Seq<char>,
    description: Option<Seq<char>>,
    task_type: Seq<char>,
    priority: i32,
    workspace_id: Option<Seq<char>>,
    status: Option<Seq<char>>,
) -> TaskView {
    new_task(
        id,
        task_id,
        now,
        title,
        description,
        TaskType::named_or_default(lowercase_of(task_type)),
        priority,
        workspace_id,
        first_status(status),
    )
}

/// The tasks at the given places.
pub open spec fn picked_tasks(tasks: Seq<TaskView>, picks: Seq<usize>) -> Seq<TaskView> {
    picks.map_values(|p: usize| tasks[p as int])
}

/// Whether `needle` occurs in `text`, the case of letters set aside.
fn holds(text: &str, needle: &Vec<char>) -> (r: bool)
    ensures
        r == contains_folded(text@, needle@),
{
    let hay = chars_of(text);
    occurs_in(&hay, needle)
}

/// All workspaces and tasks. Its rows are reached through its operations
/// only, and every one of them leaves a valid store.
pub struct Store {
    workspaces: Vec<Workspace>,
    tasks: Vec<Task>,
}

impl View for Store {
    type V = StoreView;

    closed spec fn view(&self) -> StoreView {
        StoreView { workspaces: self.workspaces.deep_view(), tasks: self.tasks.deep_view() }
    }
}

impl Store {
    #[verifier::type_invariant]
    spec fn well_formed(&self) -> bool {
        self@.valid()
    }

    /// A store without rows.
    pub fn new() -> (s: Store)
        ensures
            s@.workspaces.len() == 0,
            s@.tasks.len() == 0,
            s@.valid(),
    {
        Store { workspaces: Vec::new(), tasks: Vec::new() }
    }

    /// Gives a store without any workspace its first one, under the key `id`
    /// and created at `now`, and hands back a copy of it. A store that has a
    /// workspace is left as it is.
    pub fn bootstrap_at(&mut self, id: String, now: String) -> (r: Option<Workspace>)
        ensures
            old(self)@.workspaces.len() == 0 ==> r is Some && r->0@ == default_workspace(id@, now@)
                && final(self)@ == old(self)@.with_workspace(default_workspace(id@, now@)),
            old(self)@.workspaces.len() != 0 ==> r is None && final(self)@ == old(self)@,
            final(self)@.valid(),
    {
        proof {
            use_type_invariant(&*self);
        }
        if self.workspaces.len() != 0 {
            return None;
        }
        let name = String::from_str("Development");
        let color = String::from_str("#3b82f6");
        match self.create_workspace_at(id, name, color, now) {
            Ok(w) => Some(w),
            Err(_) => None,
        }
    }

    /// Gives a store without any workspace its first one, under a freshly
    /// drawn key and created now.
    pub fn bootstrap(&mut self) -> (r: Option<Workspace>)
        ensures
            old(self)@.workspaces.len() == 0 ==> exists|id: Seq<char>, now: Seq<char>|
                #![trigger default_workspace(id, now)]
                {
                    &&& is_uuid_text(id)
                    &&& r is Some && r->0@ == default_workspace(id, now)
                    &&& final(self)@ == old(self)@.with_workspace(default_workspace(id, now))
                },
            old(self)@.workspaces.len() != 0 ==> r is None && final(self)@ == old(self)@,
            final(self)@.valid(),
    {
        let id = fresh_key();
        let now = utc_now_text();
        self.bootstrap_at(id, now)
    }

    /// Takes a workspace into the store, behind the others and without a
    /// count, unless the store refuses it: its surrogate key or its name is
    /// in use. A refusal changes nothing.
    pub fn insert_workspace(&mut self, w: Workspace) -> (r: Result<(), StoreError>)
        ensures
            workspace_offered(
                old(self)@,
                final(self)@,
                (WorkspaceView { task_count: 0, ..w@ }),
                refusal_in(r),
            ),
            final(self)@.valid(),
    {
        proof {
            use_type_invariant(&*self);
        }
        let ghost before = self@;
        let ghost row = WorkspaceView { task_count: 0, ..w@ };
        if self.find_workspace(w.id.as_str()).is_some() {
            return Err(StoreError::DuplicateKey);
        }
        if self.has_name(w.name.as_str()) {
            return Err(StoreError::DuplicateName);
        }
        let mut w = w;
        w.task_count = 0;
        let mut tasks: Vec<Task> = Vec::new();
        let mut workspaces: Vec<Workspace> = Vec::new();
        proof {
            assert(tasks.deep_view() =~= Seq::<TaskView>::empty());
            assert(workspaces.deep_view() =~= Seq::<WorkspaceView>::empty());
        }
        std::mem::swap(&mut self.tasks, &mut tasks);
        std::mem::swap(&mut self.workspaces, &mut workspaces);
        workspaces.push(w);
        proof {
            assert(workspaces.deep_view() =~= before.workspaces.push(row));
            vstd::std_specs::vec::axiom_spec_len(&workspaces);
            assert(workspaces@.len() == before.workspaces.len() + 1);
            lemma_with_workspace_valid(before, row);
        }
        self.workspaces = workspaces;
        self.tasks = tasks;
        Ok(())
    }

    /// Creates a workspace under the key `id` at time `now` and hands back a
    /// copy of it: no icon, no tasks. The store refuses it where the key or
    /// the name is in use, and a refusal changes nothing.
    pub fn create_workspace_at(
        &mut self,
        id: String,
        name: String,
        color: String,
        now: String,
    ) -> (r: Result<Workspace, StoreError>)
        ensures
            workspace_offered(
                old(self)@,
                final(self)@,
                new_workspace(id@, name@, color@, now@),
                refusal_in(r),
            ),
            r is Ok ==> r->Ok_0@ == new_workspace(id@, name@, color@, now@),
            final(self)@.valid(),
    {
        let w = Workspace { id, name, color, icon: None, task_count: 0, created_at: now };
        let copy = w.clone();
        match self.insert_workspace(w) {
            Ok(_) => Ok(copy),
            Err(e) => Err(e),
        }
    }

    /// Creates a workspace now, under a freshly drawn key.
    pub fn create_workspace(
        &mut self,
        name: String,
        color: String,
    ) -> (r: Result<Workspace, StoreError>)
        ensures
            exists|id: Seq<char>, now: Seq<char>|
                #![trigger new_workspace(id, name@, color@, now)]
                {
                    let w = new_workspace(id, name@, color@, now);
                    &&& is_uuid_text(id)
                    &&& workspace_offered(old(self)@, final(self)@, w, refusal_in(r))
                    &&& r is Ok ==> r->Ok_0@ == w
                },
            final(self)@.valid(),
    {
        let id = fresh_key();
        let now = utc_now_text();
        self.create_workspace_at(id, name, color, now)
    }

    /// Takes a task as it is into the store, behind the others, unless the
    /// store refuses it: it holds as many tasks as it can, the task's
    /// surrogate key or readable identifier is in use, or the task names a
    /// workspace that is not there. A refusal changes nothing.
    pub fn insert_task(&mut self, t: Task) -> (r: Result<(), StoreError>)
        ensures
            task_offered(old(self)@, final(self)@, t@, refusal_in(r)),
            final(self)@.valid(),
    {
        proof {
            use_type_invariant(&*self);
        }
        let ghost before = self@;
        if self.tasks.len() >= MAX_TASKS {
            return Err(StoreError::TooManyTasks);
        }
        if self.find_task(t.id.as_str()).is_some() {
            return Err(StoreError::DuplicateKey);
        }
        if self.has_task_id(t.task_id.as_str()) {
            return Err(StoreError::DuplicateTaskId);
        }
        if let Some(w) = &t.workspace_id {
            if self.find_workspace(w.as_str()).is_none() {
                return Err(StoreError::UnknownWorkspace);
            }
        }
        let mut tasks: Vec<Task> = Vec::new();
        proof {
            assert(tasks.deep_view() =~= Seq::<TaskView>::empty());
        }
        std::mem::swap(&mut self.tasks, &mut tasks);
        tasks.push(t);
        proof {
            assert(tasks.deep_view() =~= before.tasks.push(t@));
            lemma_with_task_valid(before, t@);
        }
        self.tasks = tasks;
        Ok(())
    }

    /// Creates a task with the given keys at time `now` and hands back a copy
    /// of it: no tags, no progress, not linked, outside the trash, created and
    /// last changed at `now`. The store may refuse it as it may any task, and
    /// a refusal changes nothing.
    pub fn create_task_at(
        &mut self,
        id: String,
        task_id: String,
        now: String,
        title: String,
        description: Option<String>,
        task_type: TaskType,
        priority: i32,
        workspace_id: Option<String>,
        status: TaskStatus,
    ) -> (r: Result<Task, StoreError>)
        ensures
            ({
                let t = new_task(
                    id@,
                    task_id@,
                    now@,
                    title@,
                    description.deep_view(),
                    task_type,
                    priority,
                    workspace_id.deep_view(),
                    status,
                );
                &&& task_offered(old(self)@, final(self)@, t, refusal_in(r))
                &&& r is Ok ==> r->Ok_0@ == t
            }),
            final(self)@.valid(),
    {
        let tags: Vec<String> = Vec::new();
        proof {
            assert(tags.deep_view() =~= Seq::<Seq<char>>::empty());
        }
        let task = Task {
            id,
            task_id,
            title,
            description,
            status,
            priority,
            task_type,
            workspace_id,
            tags,
            progress: 0,
            is_ai_linked: false,
            is_deleted: false,
            created_at: now.clone(),
            updated_at: now,
        };
        let copy = task.clone();
        match self.insert_task(task) {
            Ok(_) => Ok(copy),
            Err(e) => Err(e),
        }
    }

    /// Creates a task now, under a freshly drawn surrogate key and a readable
    /// identifier made for its kind. Kind and status are given as text and
    /// read leniently: a kind that names none gives a feature, a status that
    /// names none or is left out gives the backlog. The drawn identifier may
    /// be in use already; the store then refuses the task, and the call may
    /// be made again.
    pub fn create_task(
        &mut self,
        title: String,
        description: Option<String>,
        task_type: &str,
        priority: i32,
        workspace_id: Option<String>,
        status: Option<String>,
    ) -> (r: Result<Task, StoreError>)
        ensures
            exists|id: Seq<char>, task_id: Seq<char>, now: Seq<char>|
                #![trigger requested_task(
                    id,
                    task_id,
                    now,
                    title@,
                    description.deep_view(),
                    task_type@,
                    priority,
                    workspace_id.deep_view(),
                    status.deep_view(),
                )]
                {
                    let t = requested_task(
                        id,
                        task_id,
                        now,
                        title@,
                        description.deep_view(),
                        task_type@,
                        priority,
                        workspace_id.deep_view(),
                        status.deep_view(),
                    );
                    &&& is_uuid_text(id)
                    &&& is_task_id(task_id, t.task_type)
                    &&& task_offered(old(self)@, final(self)@, t, refusal_in(r))
                    &&& r is Ok ==> r->Ok_0@ == t
                },
            final(self)@.valid(),
    {
        let id = fresh_key();
        let kind = TaskType::parse_or_default(task_type);
        let task_id = generate_task_id(&kind);
        let now = utc_now_text();
        let ghost t = requested_task(
            id@,
            task_id@,
            now@,
            title@,
            description.deep_view(),
            task_type@,
            priority,
            workspace_id.deep_view(),
            status.deep_view(),
        );
        let first = match status {
            Some(text) => TaskStatus::parse_or_default(text.as_str()),
            None => TaskStatus::Backlog,
        };
        let r = self.create_task_at(
            id,
            task_id,
            now,
            title,
            description,
            kind,
            priority,
            workspace_id,
            first,
        );
        proof {
            assert(is_task_id(t.task_id, t.task_type));
        }
        r
    }

    /// Updates the task `id` at time `now`: every field that `changes` gives
    /// is set, all in one step, and the time of the last change becomes `now`
    /// even where no field is given. Says whether the task was there; where
    /// it was not, nothing changes.
    pub fn update_task_at(&mut self, id: &str, changes: TaskChanges, now: String) -> (found: bool)
        ensures
            final(self)@ == old(self)@.updated(id@, changes@, now@),
            found == old(self)@.has_task(id@),
            final(self)@.valid(),
    {
        proof {
            use_type_invariant(&*self);
        }
        let ghost before = self@;
        let ghost c = changes@;
        match self.find_task(id) {
            None => {
                assert(before.updated(id@, c, now@).tasks =~= before.tasks);
                false
            },
            Some(i) => {
                let TaskChanges { title, description, status, priority, progress, is_ai_linked } =
                    changes;
                let mut t = self.tasks[i].clone();
                if let Some(x) = title {
                    t.title = x;
                }
                if description.is_some() {
                    t.description = description;
                }
                if let Some(x) = status {
                    t.status = x;
                }
                if let Some(x) = priority {
                    t.priority = x;
                }
                if let Some(x) = progress {
                    t.progress = x;
                }
                if let Some(x) = is_ai_linked {
                    t.is_ai_linked = x;
                }
                t.updated_at = now;
                assert(t@ == changed(before.tasks[i as int], c, now@));
                self.replace_at(i, t);
                assert(before.updated(id@, c, now@).tasks =~= self@.tasks);
                true
            },
        }
    }

    /// Updates the task `id` now. A status is given as text and read
    /// leniently: one that names no status sets the backlog.
    pub fn update_task(
        &mut self,
        id: &str,
        title: Option<String>,
        description: Option<String>,
        status: Option<String>,
        priority: Option<i32>,
        progress: Option<i32>,
        is_ai_linked: Option<bool>,
    ) -> (found: bool)
        ensures
            exists|now: Seq<char>|
                final(self)@ == #[trigger] old(self)@.updated(
                    id@,
                    TaskChangesView {
                        title: title.deep_view(),
                        description: description.deep_view(),
                        status: read_status(status.deep_view()),
                        priority,
                        progress,
                        is_ai_linked,
                    },
                    now,
                ),
            found == old(self)@.has_task(id@),
            final(self)@.valid(),
    {
        let status = match status {
            Some(text) => Some(TaskStatus::parse_or_default(text.as_str())),
            None => None,
        };
        let changes = TaskChanges { title, description, status, priority, progress, is_ai_linked };
        let now = utc_now_text();
        self.update_task_at(id, changes, now)
    }

    /// Sets the status of the task `id` at time `now`. Any status may follow
    /// any other. Says whether the task was there.
    pub fn update_task_status_at(
        &mut self,
        id: &str,
        status: TaskStatus,
        now: String,
    ) -> (found: bool)
        ensures
            final(self)@ == old(self)@.restatused(id@, status, now@),
            found == old(self)@.has_task(id@),
            final(self)@.valid(),
    {
        proof {
            use_type_invariant(&*self);
        }
        let ghost before = self@;
        match self.find_task(id) {
            None => {
                assert(before.restatused(id@, status, now@).tasks =~= before.tasks);
                false
            },
            Some(i) => {
                let mut t = self.tasks[i].clone();
                t.status = status;
                t.updated_at = now;
                self.replace_at(i, t);
                assert(before.restatused(id@, status, now@).tasks =~= self@.tasks);
                true
            },
        }
    }

    /// Sets the status of the task `id` now. The status is given as text and
    /// read leniently: one that names no status sets the backlog.
    pub fn update_task_status(&mut self, id: &str, status: &str) -> (found: bool)
        ensures
            exists|now: Seq<char>|
                final(self)@ == #[trigger] old(self)@.restatused(
                    id@,
                    TaskStatus::named_or_default(uppercase_of(status@)),
                    now,
                ),
            found == old(self)@.has_task(id@),
            final(self)@.valid(),
    {
        let status = TaskStatus::parse_or_default(status);
        let now = utc_now_text();
        self.update_task_status_at(id, status, now)
    }

    /// Moves the task `id` into the trash (`deleted`) or out of it at time
    /// `now`; its other fields stay. Says whether the task was there.
    fn set_deleted_at(&mut self, id: &str, deleted: bool, now: String) -> (found: bool)
        ensures
            final(self)@ == old(self)@.flagged(id@, deleted, now@),
            found == old(self)@.has_task(id@),
            final(self)@.valid(),
    {
        proof {
            use_type_invariant(&*self);
        }
        let ghost before = self@;
        match self.find_task(id) {
            None => {
                assert(before.flagged(id@, deleted, now@).tasks =~= before.tasks);
                false
            },
            Some(i) => {
                let mut t = self.tasks[i].clone();
                t.is_deleted = deleted;
                t.updated_at = now;
                self.replace_at(i, t);
                assert(before.flagged(id@, deleted, now@).tasks =~= self@.tasks);
                true
            },
        }
    }

    /// Takes the task `id` out of the trash at time `now`. Says whether the
    /// task was there.
    pub fn restore_task_at(&mut self, id: &str, now: String) -> (found: bool)
        ensures
            final(self)@ == old(self)@.flagged(id@, false, now@),
            found == old(self)@.has_task(id@),
            final(self)@.valid(),
    {
        self.set_deleted_at(id, false, now)
    }

    /// Takes the task `id` out of the trash now.
    pub fn restore_task(&mut self, id: &str) -> (found: bool)
        ensures
            exists|now: Seq<char>| final(self)@ == #[trigger] old(self)@.flagged(id@, false, now),
            found == old(self)@.has_task(id@),
            final(self)@.valid(),
    {
        let now = utc_now_text();
        self.restore_task_at(id, now)
    }

    /// Deletes the task `id` at time `now`: for good where `permanent` is set,
    /// whether or not it lay in the trash, and into the trash otherwise.
    pub fn delete_task_at(&mut self, id: &str, permanent: bool, now: String)
        ensures
            final(self)@ == if permanent {
                old(self)@.without_task(id@)
            } else {
                old(self)@.flagged(id@, true, now@)
            },
            final(self)@.valid(),
    {
        if permanent {
            self.retain_tasks(&Keep::OtherThan(id));
        } else {
            self.set_deleted_at(id, true, now);
        }
    }

    /// Deletes the task `id` now: for good where `permanent` is set, and into
    /// the trash otherwise.
    pub fn delete_task(&mut self, id: &str, permanent: bool)
        ensures
            permanent ==> final(self)@ == old(self)@.without_task(id@),
            !permanent ==> exists|now: Seq<char>|
                final(self)@ == #[trigger] old(self)@.flagged(id@, true, now),
            final(self)@.valid(),
    {
        if permanent {
            self.retain_tasks(&Keep::OtherThan(id));
        } else {
            let now = utc_now_text();
            self.set_deleted_at(id, true, now);
        }
    }

    /// Deletes the workspace `id` and with it every task of that workspace,
    /// those in the trash too. Both go in one step: no task is left without
    /// its workspace. Hands back the surrogate keys of the tasks that went.
    pub fn delete_workspace(&mut self, id: &str) -> (removed: Vec<String>)
        ensures
            final(self)@ == old(self)@.without_workspace(id@),
            removed.deep_view() == keys_of(old(self)@.tasks.filter(inside_of(id@))),
            final(self)@.valid(),
    {
        proof {
            use_type_invariant(&*self);
        }
        let ghost before = self@;
        let ghost pred = workspace_other_than(id@);
        let removed = self.retain_tasks(&Keep::OutsideOf(id));
        let mut kept: Vec<Workspace> = Vec::new();
        let mut i: usize = 0;
        assert(before.workspaces.take(0).filter(pred) =~= Seq::<WorkspaceView>::empty()) by {
            reveal(Seq::filter);
        }
        while i < self.workspaces.len()
            invariant
                i <= self.workspaces.len(),
                self@.workspaces == before.workspaces,
                self@.tasks == before.tasks.filter(outside_of(id@)),
                pred == workspace_other_than(id@),
                kept.deep_view() =~= before.workspaces.take(i as int).filter(pred),
            decreases self.workspaces.len() - i,
        {
            proof {
                lemma_filter_step(before.workspaces, pred, i as int);
            }
            if !same_text(self.workspaces[i].id.as_str(), id) {
                kept.push(self.workspaces[i].clone());
            }
            i += 1;
        }
        proof {
            assert(before.workspaces.take(i as int) =~= before.workspaces);
            lemma_without_workspace_valid(before, id@);
        }
        self.workspaces = kept;
        removed
    }

    /// Removes from the trash everything that lies in it, for good, and hands
    /// back the surrogate keys of the tasks that went.
    pub fn empty_trash(&mut self) -> (removed: Vec<String>)
        ensures
            final(self)@ == old(self)@.without_trash(),
            removed.deep_view() == keys_of(old(self)@.tasks.filter(trashed())),
            final(self)@.valid(),
    {
        self.retain_tasks(&Keep::Live)
    }

    /// Keeps the tasks that `keep` selects and drops the others, whose
    /// surrogate keys it hands back.
    fn retain_tasks(&mut self, keep: &Keep) -> (dropped: Vec<String>)
        ensures
            final(self)@.workspaces == old(self)@.workspaces,
            final(self)@.tasks == old(self)@.tasks.filter(keep.selects()),
            dropped.deep_view() == keys_of(old(self)@.tasks.filter(keep.drops())),
            final(self)@.valid(),
    {
        proof {
            use_type_invariant(&*self);
        }
        let ghost before = self@;
        let ghost pred = keep.selects();
        let ghost gone = keep.drops();
        let mut kept: Vec<Task> = Vec::new();
        let mut dropped: Vec<String> = Vec::new();
        let mut i: usize = 0;
        assert(before.tasks.take(0).filter(pred) =~= Seq::<TaskView>::empty()) by {
            reveal(Seq::filter);
        }
        assert(before.tasks.take(0).filter(gone) =~= Seq::<TaskView>::empty()) by {
            reveal(Seq::filter);
        }
        while i < self.tasks.len()
            invariant
                i <= self.tasks.len(),
                self@ == before,
                pred == keep.selects(),
                gone == keep.drops(),
                kept.deep_view() =~= before.tasks.take(i as int).filter(pred),
                dropped.deep_view() =~= keys_of(before.tasks.take(i as int).filter(gone)),
            decreases self.tasks.len() - i,
        {
            proof {
                lemma_filter_step(before.tasks, pred, i as int);
                lemma_filter_step(before.tasks, gone, i as int);
            }
            if keep.keeps(&self.tasks[i]) {
                kept.push(self.tasks[i].clone());
            } else {
                dropped.push(self.tasks[i].id.clone());
                proof {
                    let f = before.tasks.take(i as int).filter(gone);
                    let t = before.tasks[i as int];
                    assert(keys_of(f.push(t)) =~= keys_of(f).push(t.id));
                }
            }
            i += 1;
        }
        proof {
            assert(before.tasks.take(i as int) =~= before.tasks);
            lemma_fewer_tasks_valid(before, pred);
        }
        self.tasks = kept;
        dropped
    }

    /// Lists the workspaces by name, each with the count of its tasks that lie
    /// outside the trash.
    pub fn get_workspaces(&self) -> (out: Vec<Workspace>)
        ensures
            out.deep_view() == self@.workspace_listing(),
            self@.valid(),
    {
        proof {
            use_type_invariant(self);
        }
        let ghost counted = self@.counted_workspaces();
        let mut keys: Vec<Vec<char>> = Vec::new();
        let mut counts: Vec<i32> = Vec::new();
        let mut i: usize = 0;
        while i < self.workspaces.len()
            invariant
                i <= self.workspaces.len(),
                keys.len() == i,
                counts.len() == i,
                forall|j: int| 0 <= j < i ==> (#[trigger] keys@[j])@ == self@.workspaces[j].name,
                forall|j: int|
                    0 <= j < i ==> (#[trigger] counts@[j]) == self@.live_count(
                        self@.workspaces[j].id,
                    ),
            decreases self.workspaces.len() - i,
        {
            let w = &self.workspaces[i];
            keys.push(chars_of(w.name.as_str()));
            counts.push(self.count_live(w.id.as_str()));
            i += 1;
        }
        proof {
            assert(keys.deep_view().len() == self@.workspaces.len());
            assert forall|j: int| 0 <= j < keys.len() implies #[trigger] keys.deep_view()[j]
                == keys@[j]@ by {}
            assert(keys.deep_view() =~= name_keys(self@.workspaces));
        }
        let order = arrange(&keys, false);
        let mut out: Vec<Workspace> = Vec::new();
        let mut k: usize = 0;
        while k < order.len()
            invariant
                k <= order.len(),
                out.len() == k,
                order.len() == self.workspaces.len(),
                counts.len() == self.workspaces.len(),
                counted == self@.counted_workspaces(),
                forall|j: int|
                    0 <= j < order.len() ==> (#[trigger] order@[j]) < self.workspaces.len(),
                forall|j: int|
                    0 <= j < counts.len() ==> (#[trigger] counts@[j]) == self@.live_count(
                        self@.workspaces[j].id,
                    ),
                forall|j: int| 0 <= j < k ==> (#[trigger] out@[j])@ == counted[order@[j] as int],
            decreases order.len() - k,
        {
            let at = order[k];
            let mut w = self.workspaces[at].clone();
            w.task_count = counts[at];
            out.push(w);
            k += 1;
        }
        proof {
            assert(out.deep_view() =~= arranged(counted, keys.deep_view(), false));
        }
        out
    }

    /// How many tasks of the workspace `ws` lie outside the trash.
    fn count_live(&self, ws: &str) -> (n: i32)
        ensures
            n == self@.live_count(ws@),
    {
        proof {
            use_type_invariant(self);
        }
        let ghost pred = live_in(ws@);
        let ghost all = self@.tasks;
        let mut n: i32 = 0;
        let mut i: usize = 0;
        assert(all.take(0).filter(pred) =~= Seq::<TaskView>::empty()) by {
            reveal(Seq::filter);
        }
        while i < self.tasks.len()
            invariant
                i <= self.tasks.len(),
                self.tasks.len() <= MAX_TASKS,
                all == self@.tasks,
                pred == live_in(ws@),
                0 <= n <= i,
                n == all.take(i as int).filter(pred).len(),
            decreases self.tasks.len() - i,
        {
            proof {
                lemma_filter_step(all, pred, i as int);
            }
            let t = &self.tasks[i];
            let inside = match &t.workspace_id {
                Some(w) => same_text(w.as_str(), ws),
                None => false,
            };
            if inside && !t.is_deleted {
                n += 1;
            }
            i += 1;
        }
        assert(all.take(i as int) =~= all);
        n
    }

    /// A copy of the task with surrogate key `id`, in the trash or not.
    pub fn get_task(&self, id: &str) -> (r: Option<Task>)
        ensures
            r.deep_view() == self@.task(id@),
            self@.valid(),
    {
        proof {
            use_type_invariant(self);
        }
        match self.find_task(id) {
            Some(i) => {
                let ghost j = choose|j: int|
                    0 <= j < self@.tasks.len() && (#[trigger] self@.tasks[j]).id == id@;
                assert(j == i);
                Some(self.tasks[i].clone())
            },
            None => None,
        }
    }

    /// Lists tasks, the latest created first: those of the workspace where
    /// one is given, all otherwise; those in the trash only where
    /// `include_deleted` is set. Tasks created at the same time keep the order
    /// in which they came into the store.
    pub fn get_tasks(&self, workspace_id: Option<String>, include_deleted: bool) -> (out: Vec<Task>)
        ensures
            out.deep_view() == self@.task_listing(workspace_id.deep_view(), include_deleted),
            self@.valid(),
    {
        proof {
            use_type_invariant(self);
        }
        let ghost pred = shown(workspace_id.deep_view(), include_deleted);
        let ghost all = self@.tasks;
        let mut picks: Vec<usize> = Vec::new();
        let mut i: usize = 0;
        assert(all.take(0).filter(pred) =~= Seq::<TaskView>::empty()) by {
            reveal(Seq::filter);
        }
        while i < self.tasks.len()
            invariant
                i <= self.tasks.len(),
                all == self@.tasks,
                pred == shown(workspace_id.deep_view(), include_deleted),
                forall|k: int| 0 <= k < picks.len() ==> (#[trigger] picks@[k]) < i,
                picked_tasks(all, picks@) =~= all.take(i as int).filter(pred),
            decreases self.tasks.len() - i,
        {
            proof {
                lemma_filter_step(all, pred, i as int);
            }
            let t = &self.tasks[i];
            let in_workspace = match &workspace_id {
                Some(ws) => match &t.workspace_id {
                    Some(w) => same_text(w.as_str(), ws.as_str()),
                    None => false,
                },
                None => true,
            };
            if in_workspace && (include_deleted || !t.is_deleted) {
                picks.push(i);
            }
            i += 1;
        }
        assert(all.take(i as int) =~= all);
        self.copies_in_order(&picks, false)
    }

    /// Lists the trash, the latest changed first.
    pub fn get_trash(&self) -> (out: Vec<Task>)
        ensures
            out.deep_view() == self@.trash_listing(),
            self@.valid(),
    {
        proof {
            use_type_invariant(self);
        }
        let ghost pred = trashed();
        let ghost all = self@.tasks;
        let mut picks: Vec<usize> = Vec::new();
        let mut i: usize = 0;
        assert(all.take(0).filter(pred) =~= Seq::<TaskView>::empty()) by {
            reveal(Seq::filter);
        }
        while i < self.tasks.len()
            invariant
                i <= self.tasks.len(),
                all == self@.tasks,
                pred == trashed(),
                forall|k: int| 0 <= k < picks.len() ==> (#[trigger] picks@[k]) < i,
                picked_tasks(all, picks@) =~= all.take(i as int).filter(pred),
            decreases self.tasks.len() - i,
        {
            proof {
                lemma_filter_step(all, pred, i as int);
            }
            if self.tasks[i].is_deleted {
                picks.push(i);
            }
            i += 1;
        }
        assert(all.take(i as int) =~= all);
        self.copies_in_order(&picks, true)
    }

    /// Finds the tasks outside the trash that hold `query` in the title, in
    /// the readable identifier or in the description, whatever the case of
    /// the letters `a` to `z`, and lists them with the latest created first.
    /// The empty query finds every task outside the trash.
    pub fn search_tasks(&self, query: &str) -> (out: Vec<Task>)
        ensures
            out.deep_view() == self@.search_result(query@),
            self@.valid(),
    {
        proof {
            use_type_invariant(self);
        }
        let ghost pred = found_by(query@);
        let ghost all = self@.tasks;
        let needle = chars_of(query);
        let mut picks: Vec<usize> = Vec::new();
        let mut i: usize = 0;
        assert(all.take(0).filter(pred) =~= Seq::<TaskView>::empty()) by {
            reveal(Seq::filter);
        }
        while i < self.tasks.len()
            invariant
                i <= self.tasks.len(),
                all == self@.tasks,
                needle@ == query@,
                pred == found_by(query@),
                forall|k: int| 0 <= k < picks.len() ==> (#[trigger] picks@[k]) < i,
                picked_tasks(all, picks@) =~= all.take(i as int).filter(pred),
            decreases self.tasks.len() - i,
        {
            proof {
                lemma_filter_step(all, pred, i as int);
            }
            let t = &self.tasks[i];
            if !t.is_deleted && (holds(t.title.as_str(), &needle) || holds(
                t.task_id.as_str(),
                &needle,
            ) || match &t.description {
                Some(d) => holds(d.as_str(), &needle),
                None => false,
            }) {
                picks.push(i);
            }
            i += 1;
        }
        assert(all.take(i as int) =~= all);
        self.copies_in_order(&picks, false)
    }

    /// Copies of the tasks at the places `picks`, the latest first: by the
    /// time of the last change where `by_change` is set, by the time of
    /// creation otherwise.
    fn copies_in_order(&self, picks: &Vec<usize>, by_change: bool) -> (out: Vec<Task>)
        requires
            forall|k: int| 0 <= k < picks.len() ==> (#[trigger] picks@[k]) < self@.tasks.len(),
        ensures
            out.deep_view() == if by_change {
                latest_change_first(picked_tasks(self@.tasks, picks@))
            } else {
                newest_first(picked_tasks(self@.tasks, picks@))
            },
    {
        let ghost chosen = picked_tasks(self@.tasks, picks@);
        let mut keys: Vec<Vec<char>> = Vec::new();
        let mut k: usize = 0;
        while k < picks.len()
            invariant
                k <= picks.len(),
                keys.len() == k,
                forall|j: int| 0 <= j < picks.len() ==> (#[trigger] picks@[j]) < self@.tasks.len(),
                forall|j: int|
                    0 <= j < k ==> (#[trigger] keys@[j])@ == if by_change {
                        self@.tasks[picks@[j] as int].updated_at
                    } else {
                        self@.tasks[picks@[j] as int].created_at
                    },
            decreases picks.len() - k,
        {
            let t = &self.tasks[picks[k]];
            let key = if by_change {
                chars_of(t.updated_at.as_str())
            } else {
                chars_of(t.created_at.as_str())
            };
            keys.push(key);
            k += 1;
        }
        proof {
            assert(keys.deep_view().len() == chosen.len());
            assert forall|j: int| 0 <= j < keys.len() implies #[trigger] keys.deep_view()[j]
                == keys@[j]@ by {}
            if by_change {
                assert(keys.deep_view() =~= updated_keys(chosen));
            } else {
                assert(keys.deep_view() =~= created_keys(chosen));
            }
        }
        let order = arrange(&keys, true);
        let mut out: Vec<Task> = Vec::new();
        let mut k: usize = 0;
        while k < order.len()
            invariant
                k <= order.len(),
                out.len() == k,
                order.len() == picks.len(),
                forall|j: int| 0 <= j < picks.len() ==> (#[trigger] picks@[j]) < self@.tasks.len(),
                forall|j: int| 0 <= j < order.len() ==> (#[trigger] order@[j]) < picks.len(),
                forall|j: int|
                    0 <= j < k ==> (#[trigger] out@[j])@
                        == self@.tasks[picks@[order@[j] as int] as int],
            decreases order.len() - k,
        {
            out.push(self.tasks[picks[order[k]]].clone());
            k += 1;
        }
        proof {
            assert(out.deep_view() =~= arranged(chosen, keys.deep_view(), true));
        }
        out
    }

    /// Puts `t` in place of the task at `i`, which has the same keys and the
    /// same workspace.
    fn replace_at(&mut self, i: usize, t: Task)
        requires
            i < old(self)@.tasks.len(),
            t@.id == old(self)@.tasks[i as int].id,
            t@.task_id == old(self)@.tasks[i as int].task_id,
            t@.workspace_id == old(self)@.tasks[i as int].workspace_id,
        ensures
            final(self)@.workspaces == old(self)@.workspaces,
            final(self)@.tasks == old(self)@.tasks.update(i as int, t@),
            final(self)@.valid(),
    {
        proof {
            use_type_invariant(&*self);
        }
        let ghost before = self@;
        let ghost after = StoreView { tasks: before.tasks.update(i as int, t@), ..before };
        let mut tasks: Vec<Task> = Vec::new();
        proof {
            assert(tasks.deep_view() =~= Seq::<TaskView>::empty());
        }
        std::mem::swap(&mut self.tasks, &mut tasks);
        tasks.set(i, t);
        proof {
            assert(tasks.deep_view() =~= after.tasks);
            assert forall|k: int|
                0 <= k < after.tasks.len() && (#[trigger] after.tasks[k]).workspace_id is Some
                implies after.has_workspace(after.tasks[k].workspace_id->0) by {
                assert(before.tasks[k].workspace_id == after.tasks[k].workspace_id);
                assert(before.has_workspace(before.tasks[k].workspace_id->0));
            }
            assert(after.valid());
        }
        self.tasks = tasks;
    }

    /// Whether a task has the readable identifier `task_id`.
    fn has_task_id(&self, task_id: &str) -> (r: bool)
        ensures
            r == self@.has_task_id(task_id@),
    {
        let mut i: usize = 0;
        while i < self.tasks.len()
            invariant
                i <= self.tasks.len(),
                forall|k: int| 0 <= k < i ==> (#[trigger] self@.tasks[k]).task_id != task_id@,
            decreases self.tasks.len() - i,
        {
            if same_text(self.tasks[i].task_id.as_str(), task_id) {
                assert(self@.tasks[i as int].task_id == task_id@);
                return true;
            }
            i += 1;
        }
        false
    }

    /// The place of the workspace with surrogate key `id`.
    fn find_workspace(&self, id: &str) -> (r: Option<usize>)
        ensures
            match r {
                Some(i) => i < self@.workspaces.len() && self@.workspaces[i as int].id == id@,
                None => !self@.has_workspace(id@),
            },
    {
        let mut i: usize = 0;
        while i < self.workspaces.len()
            invariant
                i <= self.workspaces.len(),
                forall|k: int| 0 <= k < i ==> (#[trigger] self@.workspaces[k]).id != id@,
            decreases self.workspaces.len() - i,
        {
            if same_text(self.workspaces[i].id.as_str(), id) {
                return Some(i);
            }
            i += 1;
        }
        None
    }

    /// Whether a workspace has the name `name`.
    fn has_name(&self, name: &str) -> (r: bool)
        ensures
            r == self@.has_name(name@),
    {
        let mut i: usize = 0;
        while i < self.workspaces.len()
            invariant
                i <= self.workspaces.len(),
                forall|k: int| 0 <= k < i ==> (#[trigger] self@.workspaces[k]).name != name@,
            decreases self.workspaces.len() - i,
        {
            if same_text(self.workspaces[i].name.as_str(), name) {
                assert(self@.workspaces[i as int].name == name@);
                return true;
            }
            i += 1;
        }
        false
    }

    /// The place of the task with surrogate key `id`.
    fn find_task(&self, id: &str) -> (r: Option<usize>)
        ensures
            match r {
                Some(i) => i < self@.tasks.len() && self@.tasks[i as int].id == id@,
                None => !self@.has_task(id@),
            },
    {
        let mut i: usize = 0;
        while i < self.tasks.len()
            invariant
                i <= self.tasks.len(),
                forall|k: int| 0 <= k < i ==> (#[trigger] self@.tasks[k]).id != id@,
            decreases self.tasks.len() - i,
        {
            if same_text(self.tasks[i].id.as_str(), id) {
                return Some(i);
            }
            i += 1;
        }
        None
    }
}

} // verus!
