//! Parser and formatter for single lines of the todo.txt task-list format.
//!
//! A line encodes completion state, priority, dates, a free-text subject and
//! embedded metadata tokens (contexts, projects, hashtags, `key:value` tags
//! and a recurrence rule).  The core is the bidirectional transformation
//! between a raw line and a structured [`Task`] record: [`Task::from_str`]
//! decomposes a line in a single left-to-right scan, and [`Task::render`]
//! serializes the record back to its canonical textual form.

pub mod date;
pub mod recurrence;
pub mod roundtrip;
pub mod task;
pub mod text;

pub use date::Date;
pub use recurrence::Recurrence;
pub use task::Task;
