//! Namespaced task-queue client core: channel routes, notification draining
//! and batched task staging, with machine-checked contracts.
//!
//! The crate holds the decisions of a task-queue client and none of its
//! input or output: which topic a namespace is announced on, which
//! namespaces a burst of notifications asks to fetch for, and which rows a
//! batch of tasks submits. The caller owns the connection and performs the
//! waits and round trips that the crate asks for.

pub mod channel_name;
pub mod fetch_ready_tasks;
pub mod push_tasks;
pub mod service;
pub mod text;

pub use channel_name::{
    build_channel_route, parse_channel_route, try_build_channel_route, RouteError,
};
pub use fetch_ready_tasks::{
    ready_tasks_from_rows, DrainAction, DrainEvent, FetchedRow, NotificationDrain, ReadyTask,
};
pub use push_tasks::{test_tasks, unzip_task_list, PushBatch, PushTask, TaskStatus};
pub use service::{DbService, InvalidNamespace};
