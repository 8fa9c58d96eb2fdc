//! A verified core for a single-user task tracker: tasks grouped into
//! workspaces, a trash with restore, readable task identifiers and search.

pub mod clock;
pub mod ident;
pub mod laws;
pub mod model;
pub mod order;
pub mod pick;
pub mod status;
pub mod store;
pub mod tags;
pub mod task;
pub mod task_type;
pub mod text;

pub use crate::model::StoreError;
pub use crate::status::TaskStatus;
pub use crate::store::{Store, TaskChanges};
pub use crate::task::{Task, TaskRow, Workspace};
pub use crate::task_type::TaskType;
