//! A small task-list library: a keyed task store, priority-ordered listing,
//! an action-loop state machine, and a JSON codec for persistence.

pub mod task;
pub mod store;
pub mod sort;
pub mod strutil;
pub mod actions;
pub mod json;
pub mod laws;

pub use task::Priority;
pub use task::Task;
pub use task::KeyedTask;
pub use task::ColorCode;
