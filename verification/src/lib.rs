//! Resolution of task definitions that extend one another.
//!
//! A configuration document declares tasks by id. A task may extend other
//! tasks, and then inherits their shell, search path and environment
//! variables, each of which it may take over, switch off, merge with its own
//! or replace. [`Config::resolve`] turns a document into a table of
//! [`ResolvedTask`]s in which nothing is left to inherit, or refuses it: with
//! the id that a task extends and that no task has, or as a cycle.
//!
//! The modules, from the leaves to the root:
//!
//! - [`rstr`]: strings that are shared rather than copied;
//! - [`table`]: hash tables keyed by strings;
//! - [`overridable`]: the stance of a task on one axis, and merge or replace;
//! - [`path`] and [`env`]: the two values that are merged, and how;
//! - [`task`]: the document and the resolved records;
//! - [`model`]: what resolution means, over the views of tasks;
//! - [`resolver`]: the resolution itself, verified against the model;
//! - [`laws`]: what holds of every resolution.

pub mod env;
pub mod laws;
pub mod model;
pub mod overridable;
pub mod path;
pub mod resolver;
pub mod rstr;
pub mod table;
pub mod task;

pub use env::{Env, EnvView};
pub use overridable::{Inheritable, Mergeable, Overridable};
pub use path::{Path, PathApplyMethod, PathView};
pub use resolver::{is_outcome, resolve_task, ResolveError};
pub use rstr::Rstr;
pub use table::Table;
pub use task::{
    Config, MultiStr, ResolvedTask, ResolvedTaskView, Task, TaskConfig, TaskView, Watch,
};
