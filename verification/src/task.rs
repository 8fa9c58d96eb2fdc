//! Tasks and workspaces, and what each stands for in contracts.

use crate::status::TaskStatus;
use crate::tags::{decode_tags, tags_of};
use crate::task_type::TaskType;
use crate::text::{lowercase_of, uppercase_of};
use vstd::prelude::*;

verus! {

/// A unit of work.
#[derive(Debug, PartialEq, Eq)]
pub struct Task {
    /// Surrogate key, given at creation and never changed.
    pub id: String,
    /// Readable identifier, given at creation and never changed.
    pub task_id: String,
    pub title: String,
    pub description: Option<String>,
    pub status: TaskStatus,
    pub priority: i32,
    pub task_type: TaskType,
    /// The workspace that holds it, if any.
    pub workspace_id: Option<String>,
    pub tags: Vec<String>,
    pub progress: i32,
    pub is_ai_linked: bool,
    /// Set while the task lies in the trash.
    pub is_deleted: bool,
    pub created_at: String,
    pub updated_at: String,
}

/// What a task holds, as mathematical values.
pub struct TaskView {
    pub id: Seq<char>,
    pub task_id: Seq<char>,
    pub title: Seq<char>,
    pub description: Option<Seq<char>>,
    pub status: TaskStatus,
    pub priority: i32,
    pub task_type: TaskType,
    pub workspace_id: Option<Seq<char>>,
    pub tags: Seq<Seq<char>>,
    pub progress: i32,
    pub is_ai_linked: bool,
    pub is_deleted: bool,
    pub created_at: Seq<char>,
    pub updated_at: Seq<char>,
}

impl View for Task {
    type V = TaskView;

    open spec fn view(&self) -> TaskView {
        TaskView {
            id: self.id@,
            task_id: self.task_id@,
            title: self.title@,
            description: self.description.deep_view(),
            status: self.status,
            priority: self.priority,
            task_type: self.task_type,
            workspace_id: self.workspace_id.deep_view(),
            tags: self.tags.deep_view(),
            progress: self.progress,
            is_ai_linked: self.is_ai_linked,
            is_deleted: self.is_deleted,
            created_at: self.created_at@,
            updated_at: self.updated_at@,
        }
    }
}

impl DeepView for Task {
    type V = TaskView;

    open spec fn deep_view(&self) -> TaskView {
        self@
    }
}

/// A copy of an optional text.
pub fn copy_opt_text(t: &Option<String>) -> (r: Option<String>)
    ensures
        r.deep_view() == t.deep_view(),
{
    match t {
        Some(s) => Some(s.clone()),
        None => None,
    }
}

/// A copy of a list of texts.
pub fn copy_texts(v: &Vec<String>) -> (r: Vec<String>)
    ensures
        r.deep_view() == v.deep_view(),
{
    let mut r: Vec<String> = Vec::new();
    let mut i: usize = 0;
    while i < v.len()
        invariant
            i <= v.len(),
            r.len() == i,
            forall|j: int| 0 <= j < i ==> r@[j]@ == v@[j]@,
        decreases v.len() - i,
    {
        r.push(v[i].clone());
        i += 1;
    }
    assert(r.deep_view() =~= v.deep_view());
    r
}

impl Clone for Task {
    fn clone(&self) -> (r: Task)
        ensures
            r@ == self@,
    {
        Task {
            id: self.id.clone(),
            task_id: self.task_id.clone(),
            title: self.title.clone(),
            description: copy_opt_text(&self.description),
            status: self.status,
            priority: self.priority,
            task_type: self.task_type,
            workspace_id: copy_opt_text(&self.workspace_id),
            tags: copy_texts(&self.tags),
            progress: self.progress,
            is_ai_linked: self.is_ai_linked,
            is_deleted: self.is_deleted,
            created_at: self.created_at.clone(),
            updated_at: self.updated_at.clone(),
        }
    }
}

/// A named group of tasks.
#[derive(Debug, PartialEq, Eq)]
pub struct Workspace {
    /// Surrogate key.
    pub id: String,
    /// Display name; no two workspaces share one.
    pub name: String,
    pub color: String,
    pub icon: Option<String>,
    /// How many tasks of this workspace lie outside the trash. It is counted
    /// when workspaces are listed and is not kept with the workspace.
    pub task_count: i32,
    pub created_at: String,
}

/// What a workspace holds, as mathematical values.
pub struct WorkspaceView {
    pub id: Seq<char>,
    pub name: Seq<char>,
    pub color: Seq<char>,
    pub icon: Option<Seq<char>>,
    pub task_count: i32,
    pub created_at: Seq<char>,
}

impl View for Workspace {
    type V = WorkspaceView;

    open spec fn view(&self) -> WorkspaceView {
        WorkspaceView {
            id: self.id@,
            name: self.name@,
            color: self.color@,
            icon: self.icon.deep_view(),
            task_count: self.task_count,
            created_at: self.created_at@,
        }
    }
}

impl DeepView for Workspace {
    type V = WorkspaceView;

    open spec fn deep_view(&self) -> WorkspaceView {
        self@
    }
}

impl Clone for Workspace {
    fn clone(&self) -> (r: Workspace)
        ensures
            r@ == self@,
    {
        Workspace {
            id: self.id.clone(),
            name: self.name.clone(),
            color: self.color.clone(),
            icon: copy_opt_text(&self.icon),
            task_count: self.task_count,
            created_at: self.created_at.clone(),
        }
    }
}

/// A task as one row of the persisted table holds it: status and kind as
/// free text, the tags as one encoded text, the two flags as integers.
#[derive(Debug, PartialEq, Eq)]
pub struct TaskRow {
    pub id: String,
    pub task_id: String,
    pub title: String,
    pub description: Option<String>,
    pub status: String,
    pub priority: i32,
    pub task_type: String,
    pub workspace_id: Option<String>,
    pub tags: String,
    pub progress: i32,
    pub is_ai_linked: i32,
    pub is_deleted: i32,
    pub created_at: String,
    pub updated_at: String,
}

/// What a flag is kept as in a row: 1 where it is set, 0 where it is not.
pub fn flag_column(set: bool) -> (r: i32)
    ensures
        r == if set { 1i32 } else { 0i32 },
        (r == 1) == set,
{
    if set {
        1
    } else {
        0
    }
}

/// The task that a row stands for. A flag is set where its column holds 1. A
/// status or kind that names none reads as the default, and tags that do not
/// decode read as none.
pub open spec fn task_of_row(row: TaskRow) -> TaskView {
    TaskView {
        id: row.id@,
        task_id: row.task_id@,
        title: row.title@,
        description: row.description.deep_view(),
        status: TaskStatus::named_or_default(uppercase_of(row.status@)),
        priority: row.priority,
        task_type: TaskType::named_or_default(lowercase_of(row.task_type@)),
        workspace_id: row.workspace_id.deep_view(),
        tags: tags_of(row.tags@),
        progress: row.progress,
        is_ai_linked: row.is_ai_linked == 1,
        is_deleted: row.is_deleted == 1,
        created_at: row.created_at@,
        updated_at: row.updated_at@,
    }
}

/// Turns a row of the persisted table into a task.
pub fn row_to_task(row: TaskRow) -> (task: Task)
    ensures
        task@ == task_of_row(row),
{
    let status = TaskStatus::parse_or_default(row.status.as_str());
    let task_type = TaskType::parse_or_default(row.task_type.as_str());
    let tags = decode_tags(row.tags.as_str());
    Task {
        id: row.id,
        task_id: row.task_id,
        title: row.title,
        description: row.description,
        status,
        priority: row.priority,
        task_type,
        workspace_id: row.workspace_id,
        tags,
        progress: row.progress,
        is_ai_linked: row.is_ai_linked == 1,
        is_deleted: row.is_deleted == 1,
        created_at: row.created_at,
        updated_at: row.updated_at,
    }
}

} // verus!
