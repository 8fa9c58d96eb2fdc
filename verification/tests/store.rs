use flowtask::model::StoreError;
use flowtask::status::TaskStatus;
use flowtask::store::{Store, TaskChanges};
use flowtask::task::{
    copy_opt_text, copy_texts, flag_column, row_to_task, Task, TaskRow, Workspace,
};
use flowtask::task_type::TaskType;

fn s(text: &str) -> String {
    text.to_string()
}

fn store_with_workspace(id: &str, name: &str) -> Store {
    let mut store = Store::new();
    store
        .create_workspace_at(s(id), s(name), s("#112233"), s("2024-01-01T00:00:00+00:00"))
        .unwrap();
    store
}

fn add_task(
    store: &mut Store,
    id: &str,
    task_id: &str,
    now: &str,
    title: &str,
    ws: Option<&str>,
) -> Task {
    store
        .create_task_at(
            s(id),
            s(task_id),
            s(now),
            s(title),
            None,
            TaskType::Feat,
            2,
            ws.map(s),
            TaskStatus::Backlog,
        )
        .unwrap()
}

fn ids(tasks: &[Task]) -> Vec<String> {
    tasks.iter().map(|t| t.id.clone()).collect()
}

fn no_changes() -> TaskChanges {
    TaskChanges {
        title: None,
        description: None,
        status: None,
        priority: None,
        progress: None,
        is_ai_linked: None,
    }
}

#[test]
fn new_store_is_empty() {
    let store = Store::new();
    assert!(store.get_workspaces().is_empty());
    assert!(store.get_tasks(None, true).is_empty());
    assert!(store.get_trash().is_empty());
    assert!(store.search_tasks("").is_empty());
    assert_eq!(store.get_task("x"), None);
}

#[test]
fn bootstrap_makes_one_default_workspace() {
    let mut store = Store::new();
    let made = store.bootstrap_at(s("w-0"), s("2024-01-01T00:00:00+00:00"));
    let expected = Workspace {
        id: s("w-0"),
        name: s("Development"),
        color: s("#3b82f6"),
        icon: None,
        task_count: 0,
        created_at: s("2024-01-01T00:00:00+00:00"),
    };
    assert_eq!(made, Some(expected.clone()));
    assert_eq!(store.get_workspaces(), vec![expected.clone()]);
    assert_eq!(store.bootstrap_at(s("w-1"), s("2024-01-02T00:00:00+00:00")), None);
    assert_eq!(store.get_workspaces(), vec![expected]);
}

#[test]
fn bootstrap_draws_a_key_and_reads_the_clock() {
    let mut store = Store::new();
    let made = store.bootstrap().unwrap();
    assert_eq!(made.name, "Development");
    assert_eq!(made.color, "#3b82f6");
    assert_eq!(made.id.chars().count(), 36);
    assert!(!made.created_at.is_empty());
    assert_eq!(store.bootstrap(), None);
    assert_eq!(store.get_workspaces().len(), 1);
}

#[test]
fn no_operation_brings_a_deleted_default_workspace_back() {
    let mut store = Store::new();
    store.bootstrap_at(s("w-0"), s("t0")).unwrap();
    store.delete_workspace("w-0");
    assert!(store.get_workspaces().is_empty());
    add_task(&mut store, "k-1", "feat-0001", "t1", "a", None);
    store.update_task_status_at("k-1", TaskStatus::Done, s("t2"));
    store.delete_task_at("k-1", false, s("t3"));
    store.empty_trash();
    assert!(store.get_workspaces().is_empty());
}

#[test]
fn bootstrap_leaves_a_store_with_a_workspace_alone() {
    let mut store = Store::new();
    store.create_workspace_at(s("w-1"), s("Mine"), s("#000000"), s("t1")).unwrap();
    assert_eq!(store.bootstrap_at(s("w-2"), s("t2")), None);
    assert_eq!(store.get_workspaces().len(), 1);
    assert_eq!(store.get_workspaces()[0].name, "Mine");
}

#[test]
fn create_workspace_returns_the_row() {
    let mut store = Store::new();
    let w = store
        .create_workspace_at(s("w-1"), s("Home"), s("#ff0000"), s("2024-02-02T00:00:00+00:00"))
        .unwrap();
    assert_eq!(
        w,
        Workspace {
            id: s("w-1"),
            name: s("Home"),
            color: s("#ff0000"),
            icon: None,
            task_count: 0,
            created_at: s("2024-02-02T00:00:00+00:00"),
        }
    );
    assert_eq!(store.get_workspaces(), vec![w]);
}

#[test]
fn create_workspace_refuses_a_name_in_use() {
    let mut store = store_with_workspace("w-1", "Home");
    let r = store.create_workspace_at(s("w-2"), s("Home"), s("#00ff00"), s("t"));
    assert_eq!(r, Err(StoreError::DuplicateName));
    assert_eq!(store.get_workspaces().len(), 1);
    let r = store.create_workspace(s("Home"), s("#00ff00"));
    assert_eq!(r, Err(StoreError::DuplicateName));
    assert!(store.create_workspace_at(s("w-2"), s("home"), s("#00ff00"), s("t")).is_ok());
}

#[test]
fn create_workspace_refuses_a_key_in_use() {
    let mut store = store_with_workspace("w-1", "Home");
    let r = store.create_workspace_at(s("w-1"), s("Work"), s("#00ff00"), s("t"));
    assert_eq!(r, Err(StoreError::DuplicateKey));
    let r = store.create_workspace_at(s("w-1"), s("Home"), s("#00ff00"), s("t"));
    assert_eq!(r, Err(StoreError::DuplicateKey));
    assert_eq!(store.get_workspaces().len(), 1);
}

#[test]
fn create_workspace_now_draws_a_key() {
    let mut store = Store::new();
    let w = store.create_workspace(s("Home"), s("#ff0000")).unwrap();
    assert_eq!(w.name, "Home");
    assert_eq!(w.color, "#ff0000");
    assert_eq!(w.icon, None);
    assert_eq!(w.task_count, 0);
    assert_eq!(w.id.chars().count(), 36);
    assert_eq!(store.get_workspaces(), vec![w]);
}

#[test]
fn insert_workspace_drops_a_count() {
    let mut store = Store::new();
    let w = Workspace {
        id: s("w-1"),
        name: s("Home"),
        color: s("#ff0000"),
        icon: Some(s("house")),
        task_count: 7,
        created_at: s("t"),
    };
    assert_eq!(store.insert_workspace(w), Ok(()));
    let listed = store.get_workspaces();
    assert_eq!(listed.len(), 1);
    assert_eq!(listed[0].task_count, 0);
    assert_eq!(listed[0].icon, Some(s("house")));
}

#[test]
fn workspaces_are_listed_by_name() {
    let mut store = Store::new();
    store.create_workspace_at(s("w-1"), s("beta"), s("#1"), s("t1")).unwrap();
    store.create_workspace_at(s("w-2"), s("Alpha"), s("#2"), s("t2")).unwrap();
    store.create_workspace_at(s("w-3"), s("alpha"), s("#3"), s("t3")).unwrap();
    store.create_workspace_at(s("w-4"), s("Zed"), s("#4"), s("t4")).unwrap();
    let names: Vec<String> = store.get_workspaces().into_iter().map(|w| w.name).collect();
    assert_eq!(names, vec![s("Alpha"), s("Zed"), s("alpha"), s("beta")]);
}

#[test]
fn round_trip_of_creation() {
    let mut store = store_with_workspace("w-1", "Home");
    let made = store
        .create_task_at(
            s("k-1"),
            s("bug-aa11"),
            s("2024-03-03T10:00:00+00:00"),
            s("Fix login bug"),
            Some(s("Users cannot log in")),
            TaskType::Bug,
            3,
            Some(s("w-1")),
            TaskStatus::Ready,
        )
        .unwrap();
    let expected = Task {
        id: s("k-1"),
        task_id: s("bug-aa11"),
        title: s("Fix login bug"),
        description: Some(s("Users cannot log in")),
        status: TaskStatus::Ready,
        priority: 3,
        task_type: TaskType::Bug,
        workspace_id: Some(s("w-1")),
        tags: vec![],
        progress: 0,
        is_ai_linked: false,
        is_deleted: false,
        created_at: s("2024-03-03T10:00:00+00:00"),
        updated_at: s("2024-03-03T10:00:00+00:00"),
    };
    assert_eq!(made, expected);
    assert_eq!(made.created_at, made.updated_at);
    assert_eq!(store.get_tasks(None, false), vec![expected.clone()]);
    assert_eq!(store.get_tasks(Some(s("w-1")), false), vec![expected.clone()]);
    assert_eq!(store.get_task("k-1"), Some(expected));
    assert!(store.get_trash().is_empty());
}

#[test]
fn create_task_now_applies_defaults() {
    let mut store = Store::new();
    let t = store.create_task(s("Write docs"), None, "chore", 1, None, None).unwrap();
    assert_eq!(t.title, "Write docs");
    assert_eq!(t.description, None);
    assert_eq!(t.status, TaskStatus::Backlog);
    assert_eq!(t.task_type, TaskType::Chore);
    assert_eq!(t.priority, 1);
    assert_eq!(t.workspace_id, None);
    assert!(t.tags.is_empty());
    assert_eq!(t.progress, 0);
    assert!(!t.is_ai_linked);
    assert!(!t.is_deleted);
    assert_eq!(t.created_at, t.updated_at);
    assert!(t.task_id.starts_with("chore-"));
    assert_eq!(t.task_id.len(), "chore-".len() + 4);
    assert_eq!(t.id.chars().count(), 36);
    assert_eq!(store.get_tasks(None, false), vec![t.clone()]);
    assert_eq!(store.get_task(&t.id), Some(t));
}

#[test]
fn create_task_now_reads_kind_and_status_leniently() {
    let mut store = Store::new();
    let a = store.create_task(s("a"), None, "BUG", 0, None, Some(s("in_progress"))).unwrap();
    assert_eq!(a.task_type, TaskType::Bug);
    assert_eq!(a.status, TaskStatus::InProgress);
    assert!(a.task_id.starts_with("bug-"));
    let b = store.create_task(s("b"), None, "epic", 0, None, Some(s("someday"))).unwrap();
    assert_eq!(b.task_type, TaskType::Feat);
    assert_eq!(b.status, TaskStatus::Backlog);
    assert!(b.task_id.starts_with("feat-"));
}

#[test]
fn create_task_refuses_an_identifier_in_use() {
    let mut store = Store::new();
    add_task(&mut store, "k-1", "feat-0001", "t1", "one", None);
    let r = store.create_task_at(
        s("k-2"),
        s("feat-0001"),
        s("t2"),
        s("two"),
        None,
        TaskType::Feat,
        2,
        None,
        TaskStatus::Backlog,
    );
    assert_eq!(r, Err(StoreError::DuplicateTaskId));
    assert_eq!(ids(&store.get_tasks(None, true)), vec![s("k-1")]);
}

#[test]
fn create_task_refuses_an_identifier_in_use_in_the_trash() {
    let mut store = Store::new();
    add_task(&mut store, "k-1", "feat-0001", "t1", "one", None);
    store.delete_task_at("k-1", false, s("t2"));
    let r = store.create_task_at(
        s("k-2"),
        s("feat-0001"),
        s("t3"),
        s("two"),
        None,
        TaskType::Feat,
        2,
        None,
        TaskStatus::Backlog,
    );
    assert_eq!(r, Err(StoreError::DuplicateTaskId));
}

#[test]
fn create_task_refuses_a_key_in_use() {
    let mut store = Store::new();
    add_task(&mut store, "k-1", "feat-0001", "t1", "one", None);
    let r = store.create_task_at(
        s("k-1"),
        s("feat-0002"),
        s("t2"),
        s("two"),
        None,
        TaskType::Feat,
        2,
        None,
        TaskStatus::Backlog,
    );
    assert_eq!(r, Err(StoreError::DuplicateKey));
    assert_eq!(store.get_tasks(None, true).len(), 1);
}

#[test]
fn create_task_refuses_an_unknown_workspace() {
    let mut store = store_with_workspace("w-1", "Home");
    let r = store.create_task_at(
        s("k-1"),
        s("feat-0001"),
        s("t1"),
        s("one"),
        None,
        TaskType::Feat,
        2,
        Some(s("w-9")),
        TaskStatus::Backlog,
    );
    assert_eq!(r, Err(StoreError::UnknownWorkspace));
    assert!(store.get_tasks(None, true).is_empty());
    let r = store.create_task(s("one"), None, "feat", 2, Some(s("w-9")), None);
    assert_eq!(r, Err(StoreError::UnknownWorkspace));
    store.delete_workspace("w-1");
    let r = store.create_task(s("one"), None, "feat", 2, Some(s("w-1")), None);
    assert_eq!(r, Err(StoreError::UnknownWorkspace));
}

#[test]
fn refusals_read_as_text() {
    let expected = [
        (StoreError::DuplicateKey, "a row with this key is already stored"),
        (StoreError::DuplicateTaskId, "a task with this identifier is already stored"),
        (StoreError::DuplicateName, "a workspace with this name is already stored"),
        (StoreError::UnknownWorkspace, "the task names a workspace that is not stored"),
        (StoreError::TooManyTasks, "the store holds as many tasks as it can"),
    ];
    for (error, text) in expected {
        assert_eq!(error.message(), text);
    }
}

#[test]
fn tasks_are_listed_latest_created_first() {
    let mut store = store_with_workspace("w-1", "Home");
    add_task(&mut store, "k-1", "feat-0001", "2024-01-02T00:00:00+00:00", "b", Some("w-1"));
    add_task(&mut store, "k-2", "feat-0002", "2024-01-03T00:00:00+00:00", "c", None);
    add_task(&mut store, "k-3", "feat-0003", "2024-01-01T00:00:00+00:00", "a", Some("w-1"));
    assert_eq!(ids(&store.get_tasks(None, false)), vec![s("k-2"), s("k-1"), s("k-3")]);
    assert_eq!(ids(&store.get_tasks(Some(s("w-1")), false)), vec![s("k-1"), s("k-3")]);
    assert!(store.get_tasks(Some(s("w-9")), true).is_empty());
}

#[test]
fn tasks_created_at_the_same_time_keep_their_order() {
    let mut store = Store::new();
    add_task(&mut store, "k-1", "feat-0001", "t5", "a", None);
    add_task(&mut store, "k-2", "feat-0002", "t9", "b", None);
    add_task(&mut store, "k-3", "feat-0003", "t5", "c", None);
    add_task(&mut store, "k-4", "feat-0004", "t5", "d", None);
    assert_eq!(ids(&store.get_tasks(None, false)), vec![s("k-2"), s("k-1"), s("k-3"), s("k-4")]);
}

#[test]
fn listing_shows_the_trash_on_demand() {
    let mut store = store_with_workspace("w-1", "Home");
    add_task(&mut store, "k-1", "feat-0001", "t1", "a", Some("w-1"));
    add_task(&mut store, "k-2", "feat-0002", "t2", "b", Some("w-1"));
    store.delete_task_at("k-2", false, s("t3"));
    assert_eq!(ids(&store.get_tasks(None, false)), vec![s("k-1")]);
    assert_eq!(ids(&store.get_tasks(None, true)), vec![s("k-2"), s("k-1")]);
    assert_eq!(ids(&store.get_tasks(Some(s("w-1")), false)), vec![s("k-1")]);
    assert_eq!(ids(&store.get_tasks(Some(s("w-1")), true)), vec![s("k-2"), s("k-1")]);
}

#[test]
fn soft_delete_and_restore() {
    let mut store = store_with_workspace("w-1", "Home");
    let made = add_task(&mut store, "k-1", "feat-0001", "t1", "a", Some("w-1"));
    add_task(&mut store, "k-2", "feat-0002", "t2", "b", None);
    let other = store.get_task("k-2").unwrap();

    store.delete_task_at("k-1", false, s("t3"));
    assert_eq!(ids(&store.get_tasks(None, false)), vec![s("k-2")]);
    assert_eq!(ids(&store.get_trash()), vec![s("k-1")]);
    let in_trash = store.get_task("k-1").unwrap();
    assert_eq!(in_trash, Task { is_deleted: true, updated_at: s("t3"), ..made.clone() });

    assert!(store.restore_task_at("k-1", s("t4")));
    assert_eq!(ids(&store.get_tasks(None, false)), vec![s("k-2"), s("k-1")]);
    assert!(store.get_trash().is_empty());
    let back = store.get_task("k-1").unwrap();
    assert_eq!(back, Task { updated_at: s("t4"), ..made });
    assert_eq!(store.get_task("k-2"), Some(other));
}

#[test]
fn restore_of_a_missing_task_changes_nothing() {
    let mut store = Store::new();
    add_task(&mut store, "k-1", "feat-0001", "t1", "a", None);
    let before = store.get_tasks(None, true);
    assert!(!store.restore_task_at("k-9", s("t2")));
    assert!(!store.restore_task("k-9"));
    store.delete_task_at("k-9", false, s("t2"));
    store.delete_task("k-9", true);
    assert_eq!(store.get_tasks(None, true), before);
}

#[test]
fn delete_and_restore_now_read_the_clock() {
    let mut store = Store::new();
    let made = add_task(&mut store, "k-1", "feat-0001", "t1", "a", None);
    store.delete_task("k-1", false);
    let gone = store.get_task("k-1").unwrap();
    assert!(gone.is_deleted);
    assert_ne!(gone.updated_at, "t1");
    assert_eq!(gone.created_at, "t1");
    assert!(store.restore_task("k-1"));
    let back = store.get_task("k-1").unwrap();
    assert!(!back.is_deleted);
    assert!(back.updated_at >= gone.updated_at);
    assert_eq!(Task { updated_at: s("t1"), ..back }, made);
}

#[test]
fn trash_is_listed_latest_changed_first() {
    let mut store = Store::new();
    add_task(&mut store, "k-1", "feat-0001", "t1", "a", None);
    add_task(&mut store, "k-2", "feat-0002", "t2", "b", None);
    add_task(&mut store, "k-3", "feat-0003", "t3", "c", None);
    store.delete_task_at("k-3", false, s("t4"));
    store.delete_task_at("k-1", false, s("t6"));
    store.delete_task_at("k-2", false, s("t5"));
    assert_eq!(ids(&store.get_trash()), vec![s("k-1"), s("k-2"), s("k-3")]);
    assert!(store.get_tasks(None, false).is_empty());
}

#[test]
fn permanent_delete_removes_a_task_in_or_out_of_the_trash() {
    let mut store = Store::new();
    add_task(&mut store, "k-1", "feat-0001", "t1", "a", None);
    add_task(&mut store, "k-2", "feat-0002", "t2", "b", None);
    add_task(&mut store, "k-3", "feat-0003", "t3", "c", None);
    store.delete_task_at("k-2", false, s("t4"));
    store.delete_task_at("k-2", true, s("t5"));
    assert_eq!(store.get_task("k-2"), None);
    assert!(store.get_trash().is_empty());
    store.delete_task("k-1", true);
    assert_eq!(store.get_task("k-1"), None);
    assert_eq!(ids(&store.get_tasks(None, true)), vec![s("k-3")]);
    assert!(!store.restore_task_at("k-1", s("t6")));
}

#[test]
fn empty_trash_removes_only_the_trash() {
    let mut store = Store::new();
    add_task(&mut store, "k-1", "feat-0001", "t1", "a", None);
    add_task(&mut store, "k-2", "feat-0002", "t2", "b", None);
    add_task(&mut store, "k-3", "feat-0003", "t3", "c", None);
    store.delete_task_at("k-3", false, s("t4"));
    store.delete_task_at("k-1", false, s("t5"));
    assert_eq!(store.empty_trash(), vec![s("k-1"), s("k-3")]);
    assert!(store.get_trash().is_empty());
    assert_eq!(ids(&store.get_tasks(None, true)), vec![s("k-2")]);
    assert_eq!(store.empty_trash(), Vec::<String>::new());
    assert_eq!(ids(&store.get_tasks(None, true)), vec![s("k-2")]);
}

#[test]
fn cascading_delete() {
    let mut store = store_with_workspace("w-1", "Home");
    store.create_workspace_at(s("w-2"), s("Work"), s("#2"), s("t0")).unwrap();
    add_task(&mut store, "k-1", "feat-0001", "t1", "normal", Some("w-1"));
    add_task(&mut store, "k-2", "feat-0002", "t2", "trashed", Some("w-1"));
    add_task(&mut store, "k-3", "feat-0003", "t3", "elsewhere", Some("w-2"));
    add_task(&mut store, "k-4", "feat-0004", "t4", "nowhere", None);
    store.delete_task_at("k-2", false, s("t5"));

    assert_eq!(store.delete_workspace("w-1"), vec![s("k-1"), s("k-2")]);

    let names: Vec<String> = store.get_workspaces().into_iter().map(|w| w.name).collect();
    assert_eq!(names, vec![s("Work")]);
    assert_eq!(store.get_task("k-1"), None);
    assert_eq!(store.get_task("k-2"), None);
    assert!(!store.restore_task_at("k-2", s("t6")));
    assert!(store.get_trash().is_empty());
    assert_eq!(ids(&store.get_tasks(None, true)), vec![s("k-4"), s("k-3")]);
    assert!(store.get_tasks(Some(s("w-1")), true).is_empty());
}

#[test]
fn delete_of_a_missing_workspace_changes_nothing() {
    let mut store = store_with_workspace("w-1", "Home");
    add_task(&mut store, "k-1", "feat-0001", "t1", "a", Some("w-1"));
    assert_eq!(store.delete_workspace("w-9"), Vec::<String>::new());
    assert_eq!(store.get_workspaces().len(), 1);
    assert_eq!(store.get_tasks(None, true).len(), 1);
}

#[test]
fn search_finds_title_identifier_and_description() {
    let mut store = Store::new();
    add_task(&mut store, "k-1", "feat-0001", "t1", "Fix login bug", None);
    add_task(&mut store, "k-2", "bug-aa11", "t2", "Crash on start", None);
    store
        .create_task_at(
            s("k-3"),
            s("feat-0003"),
            s("t3"),
            s("Old idea"),
            Some(s("rework the login page")),
            TaskType::Feat,
            1,
            None,
            TaskStatus::Backlog,
        )
        .unwrap();
    store
        .create_task_at(
            s("k-4"),
            s("feat-0004"),
            s("t4"),
            s("Profile"),
            Some(s("Login history view")),
            TaskType::Feat,
            1,
            None,
            TaskStatus::Backlog,
        )
        .unwrap();
    store.delete_task_at("k-3", false, s("t5"));

    assert_eq!(ids(&store.search_tasks("login")), vec![s("k-4"), s("k-1")]);
    assert_eq!(ids(&store.search_tasks("LOGIN")), vec![s("k-4"), s("k-1")]);
    assert_eq!(ids(&store.search_tasks("bug")), vec![s("k-2"), s("k-1")]);
    assert_eq!(ids(&store.search_tasks("BUG-AA")), vec![s("k-2")]);
    assert_eq!(ids(&store.search_tasks("history")), vec![s("k-4")]);
    assert!(store.search_tasks("rework").is_empty());
    assert!(store.search_tasks("absent").is_empty());
    assert_eq!(ids(&store.search_tasks("")), vec![s("k-4"), s("k-2"), s("k-1")]);
}

#[test]
fn search_takes_the_query_literally() {
    let mut store = Store::new();
    add_task(&mut store, "k-1", "feat-0001", "t1", "50% done", None);
    add_task(&mut store, "k-2", "feat-0002", "t2", "snake_case", None);
    add_task(&mut store, "k-3", "feat-0003", "t3", "snakeXcase", None);
    assert_eq!(ids(&store.search_tasks("%")), vec![s("k-1")]);
    assert_eq!(ids(&store.search_tasks("e_c")), vec![s("k-2")]);
}

#[test]
fn update_sets_the_given_fields_with_one_stamp() {
    let mut store = store_with_workspace("w-1", "Home");
    let made = add_task(&mut store, "k-1", "feat-0001", "t1", "a", Some("w-1"));
    let found = store.update_task_at(
        "k-1",
        TaskChanges {
            title: Some(s("b")),
            description: Some(s("more")),
            status: Some(TaskStatus::Testing),
            priority: Some(9),
            progress: Some(40),
            is_ai_linked: Some(true),
        },
        s("t2"),
    );
    assert!(found);
    assert_eq!(
        store.get_task("k-1"),
        Some(Task {
            title: s("b"),
            description: Some(s("more")),
            status: TaskStatus::Testing,
            priority: 9,
            progress: 40,
            is_ai_linked: true,
            updated_at: s("t2"),
            ..made
        })
    );
}

#[test]
fn update_of_some_fields_keeps_the_others() {
    let mut store = Store::new();
    let made = store
        .create_task_at(
            s("k-1"),
            s("feat-0001"),
            s("t1"),
            s("a"),
            Some(s("text")),
            TaskType::Feat,
            2,
            None,
            TaskStatus::Planned,
        )
        .unwrap();
    let found =
        store.update_task_at("k-1", TaskChanges { progress: Some(-5), ..no_changes() }, s("t2"));
    assert!(found);
    assert_eq!(store.get_task("k-1"), Some(Task { progress: -5, updated_at: s("t2"), ..made }));
}

#[test]
fn update_without_fields_refreshes_the_stamp() {
    let mut store = Store::new();
    let made = add_task(&mut store, "k-1", "feat-0001", "t1", "a", None);
    assert!(store.update_task_at("k-1", no_changes(), s("t2")));
    assert_eq!(store.get_task("k-1"), Some(Task { updated_at: s("t2"), ..made }));
}

#[test]
fn update_of_a_missing_task_changes_nothing() {
    let mut store = Store::new();
    let made = add_task(&mut store, "k-1", "feat-0001", "t1", "a", None);
    let found =
        store.update_task_at("k-9", TaskChanges { title: Some(s("z")), ..no_changes() }, s("t2"));
    assert!(!found);
    assert!(!store.update_task("k-9", Some(s("z")), None, None, None, None, None));
    assert!(!store.update_task_status("k-9", "DONE"));
    assert_eq!(store.get_tasks(None, true), vec![made]);
}

#[test]
fn update_reaches_a_task_in_the_trash() {
    let mut store = Store::new();
    add_task(&mut store, "k-1", "feat-0001", "t1", "a", None);
    store.delete_task_at("k-1", false, s("t2"));
    let found =
        store.update_task_at("k-1", TaskChanges { title: Some(s("b")), ..no_changes() }, s("t3"));
    assert!(found);
    let t = store.get_task("k-1").unwrap();
    assert_eq!(t.title, "b");
    assert!(t.is_deleted);
    assert_eq!(t.updated_at, "t3");
}

#[test]
fn update_now_reads_the_status_leniently() {
    let mut store = Store::new();
    let made = add_task(&mut store, "k-1", "feat-0001", "t1", "a", None);
    assert!(store.update_task("k-1", Some(s("b")), None, Some(s("done")), None, Some(100), None));
    let t = store.get_task("k-1").unwrap();
    assert_eq!(t.title, "b");
    assert_eq!(t.status, TaskStatus::Done);
    assert_eq!(t.progress, 100);
    assert_eq!(t.description, None);
    assert_ne!(t.updated_at, "t1");
    assert_eq!(t.created_at, made.created_at);
    assert!(store.update_task("k-1", None, None, Some(s("whatever")), None, None, None));
    assert_eq!(store.get_task("k-1").unwrap().status, TaskStatus::Backlog);
}

#[test]
fn any_status_may_follow_any_other() {
    let all = [
        TaskStatus::Backlog,
        TaskStatus::Planned,
        TaskStatus::Ready,
        TaskStatus::InProgress,
        TaskStatus::Testing,
        TaskStatus::Done,
    ];
    let mut store = Store::new();
    let made = add_task(&mut store, "k-1", "feat-0001", "t1", "a", None);
    for from in all {
        for to in all {
            assert!(store.update_task_status_at("k-1", from, s("t2")));
            assert!(store.update_task_status_at("k-1", to, s("t3")));
            assert_eq!(
                store.get_task("k-1"),
                Some(Task { status: to, updated_at: s("t3"), ..made.clone() })
            );
        }
    }
}

#[test]
fn status_update_now_reads_text() {
    let mut store = Store::new();
    add_task(&mut store, "k-1", "feat-0001", "t1", "a", None);
    assert!(store.update_task_status("k-1", "testing"));
    assert_eq!(store.get_task("k-1").unwrap().status, TaskStatus::Testing);
    assert!(store.update_task_status("k-1", "unknown"));
    assert_eq!(store.get_task("k-1").unwrap().status, TaskStatus::Backlog);
}

#[test]
fn stamps_do_not_go_back() {
    let mut store = Store::new();
    add_task(&mut store, "k-1", "feat-0001", "2024-01-01T00:00:00+00:00", "a", None);
    let mut last = store.get_task("k-1").unwrap().updated_at;
    for round in 0..3 {
        store.update_task("k-1", None, None, None, Some(round), None, None);
        let now = store.get_task("k-1").unwrap().updated_at;
        assert!(now >= last);
        last = now;
        store.update_task_status("k-1", "READY");
        let now = store.get_task("k-1").unwrap().updated_at;
        assert!(now >= last);
        last = now;
        store.delete_task("k-1", false);
        let now = store.get_task("k-1").unwrap().updated_at;
        assert!(now >= last);
        last = now;
        store.restore_task("k-1");
        let now = store.get_task("k-1").unwrap().updated_at;
        assert!(now >= last);
        last = now;
    }
    assert_eq!(store.get_task("k-1").unwrap().created_at, "2024-01-01T00:00:00+00:00");
}

#[test]
fn task_counts_follow_creates_deletes_and_restores() {
    let mut store = store_with_workspace("w-1", "Home");
    store.create_workspace_at(s("w-2"), s("Work"), s("#2"), s("t0")).unwrap();
    let count = |store: &Store, name: &str| -> i32 {
        store.get_workspaces().into_iter().find(|w| w.name == name).unwrap().task_count
    };
    assert_eq!(count(&store, "Home"), 0);
    add_task(&mut store, "k-1", "feat-0001", "t1", "a", Some("w-1"));
    add_task(&mut store, "k-2", "feat-0002", "t2", "b", Some("w-1"));
    add_task(&mut store, "k-3", "feat-0003", "t3", "c", Some("w-2"));
    add_task(&mut store, "k-4", "feat-0004", "t4", "d", None);
    assert_eq!(count(&store, "Home"), 2);
    assert_eq!(count(&store, "Work"), 1);
    store.delete_task_at("k-1", false, s("t5"));
    assert_eq!(count(&store, "Home"), 1);
    store.delete_task_at("k-1", false, s("t6"));
    assert_eq!(count(&store, "Home"), 1);
    store.restore_task_at("k-1", s("t7"));
    assert_eq!(count(&store, "Home"), 2);
    store.delete_task_at("k-2", true, s("t8"));
    assert_eq!(count(&store, "Home"), 1);
    store.delete_task_at("k-3", false, s("t9"));
    store.empty_trash();
    assert_eq!(count(&store, "Work"), 0);
    assert_eq!(count(&store, "Home"), 1);
}

#[test]
fn insert_task_takes_a_row_as_it_is() {
    let mut store = store_with_workspace("w-1", "Home");
    let task = Task {
        id: s("k-1"),
        task_id: s("chore-beef"),
        title: s("Sweep"),
        description: None,
        status: TaskStatus::Done,
        priority: 5,
        task_type: TaskType::Chore,
        workspace_id: Some(s("w-1")),
        tags: vec![s("home")],
        progress: 100,
        is_ai_linked: true,
        is_deleted: true,
        created_at: s("t1"),
        updated_at: s("t2"),
    };
    assert_eq!(store.insert_task(task.clone()), Ok(()));
    assert_eq!(store.get_task("k-1"), Some(task.clone()));
    assert_eq!(store.get_trash(), vec![task.clone()]);
    assert_eq!(store.insert_task(task.clone()), Err(StoreError::DuplicateKey));
    let other = Task { id: s("k-2"), ..task.clone() };
    assert_eq!(store.insert_task(other), Err(StoreError::DuplicateTaskId));
    let lost =
        Task { id: s("k-3"), task_id: s("chore-0000"), workspace_id: Some(s("w-9")), ..task };
    assert_eq!(store.insert_task(lost), Err(StoreError::UnknownWorkspace));
}

fn sample_row() -> TaskRow {
    TaskRow {
        id: s("k-1"),
        task_id: s("bug-aa11"),
        title: s("Fix login bug"),
        description: Some(s("details")),
        status: s("IN_PROGRESS"),
        priority: 3,
        task_type: s("bug"),
        workspace_id: Some(s("w-1")),
        tags: s("[\"ui\",\"auth\"]"),
        progress: 25,
        is_ai_linked: 1,
        is_deleted: 0,
        created_at: s("t1"),
        updated_at: s("t2"),
    }
}

#[test]
fn row_to_task_decodes_a_row() {
    assert_eq!(
        row_to_task(sample_row()),
        Task {
            id: s("k-1"),
            task_id: s("bug-aa11"),
            title: s("Fix login bug"),
            description: Some(s("details")),
            status: TaskStatus::InProgress,
            priority: 3,
            task_type: TaskType::Bug,
            workspace_id: Some(s("w-1")),
            tags: vec![s("ui"), s("auth")],
            progress: 25,
            is_ai_linked: true,
            is_deleted: false,
            created_at: s("t1"),
            updated_at: s("t2"),
        }
    );
}

#[test]
fn row_to_task_is_lenient() {
    let row = TaskRow {
        status: s("nope"),
        task_type: s("nope"),
        tags: s("{broken"),
        is_ai_linked: 2,
        is_deleted: 1,
        description: None,
        workspace_id: None,
        ..sample_row()
    };
    let t = row_to_task(row);
    assert_eq!(t.status, TaskStatus::Backlog);
    assert_eq!(t.task_type, TaskType::Feat);
    assert!(t.tags.is_empty());
    assert!(!t.is_ai_linked);
    assert!(t.is_deleted);
    assert_eq!(t.description, None);
    assert_eq!(t.workspace_id, None);
    let t = row_to_task(TaskRow { status: s("done"), task_type: s("CHORE"), ..sample_row() });
    assert_eq!(t.status, TaskStatus::Done);
    assert_eq!(t.task_type, TaskType::Chore);
}

#[test]
fn copies_are_equal() {
    let t = row_to_task(sample_row());
    assert_eq!(t.clone(), t);
    let w = Workspace {
        id: s("w"),
        name: s("n"),
        color: s("c"),
        icon: Some(s("i")),
        task_count: 3,
        created_at: s("t"),
    };
    assert_eq!(w.clone(), w);
}

#[test]
fn flags_are_kept_as_zero_and_one() {
    assert_eq!(flag_column(true), 1);
    assert_eq!(flag_column(false), 0);
    let row = TaskRow {
        is_ai_linked: flag_column(true),
        is_deleted: flag_column(false),
        ..sample_row()
    };
    let t = row_to_task(row);
    assert!(t.is_ai_linked);
    assert!(!t.is_deleted);
}

#[test]
fn copies_of_texts_are_equal() {
    assert_eq!(copy_opt_text(&Some(s("a"))), Some(s("a")));
    assert_eq!(copy_opt_text(&None), None);
    assert_eq!(copy_texts(&vec![s("a"), s(""), s("b")]), vec![s("a"), s(""), s("b")]);
    assert_eq!(copy_texts(&vec![]), Vec::<String>::new());
}
