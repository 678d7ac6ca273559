//! The document that is resolved and the records that resolution yields.

use vstd::prelude::*;

use crate::env::{Env, EnvView};
use crate::overridable::{Inheritable, Overridable};
use crate::path::{Path, PathView};
use crate::rstr::{texts, Rstr};
use crate::table::Table;

verus! {

/// Either `"one string"` or `["several", "strings"]`.
#[derive(Debug, Clone, PartialEq, Eq)]
pub enum MultiStr {
    Single(String),
    Multi(Vec<String>),
}

impl View for MultiStr {
    type V = Seq<Seq<char>>;

    /// The strings in order; a single string is a list of one.
    open spec fn view(&self) -> Seq<Seq<char>> {
        match self {
            MultiStr::Single(text) => seq![text@],
            MultiStr::Multi(list) => texts(list@),
        }
    }
}

impl From<MultiStr> for Vec<Rstr> {
    /// Puts every string behind a shared handle.
    fn from(value: MultiStr) -> (out: Self)
        ensures
            texts(out@) == value@,
    {
        match value {
            MultiStr::Single(text) => {
                let mut shared: Vec<Rstr> = Vec::new();
                shared.push(Rstr::new(text));
                assert(texts(shared@) == seq![text@]);
                shared
            },
            MultiStr::Multi(list) => {
                let ghost all = texts(list@);
                let mut shared: Vec<Rstr> = Vec::new();
                for text in it: list
                    invariant
                        all == texts(it.seq()),
                        texts(shared@) == all.take(it.index() as int),
                {
                    let ghost before = shared@;
                    shared.push(Rstr::new(text));
                    assert(texts(shared@) == texts(before).push(text@));
                    assert(all.take(it.index() + 1) == all.take(it.index() as int).push(text@));
                }
                assert(all.take(all.len() as int) == all);
                shared
            },
        }
    }
}

impl vstd::std_specs::convert::FromSpecImpl<MultiStr> for Vec<Rstr> {
    /// The conversion is stated over views, by the `ensures` of `from`.
    open spec fn obeys_from_spec() -> bool {
        false
    }

    open spec fn from_spec(value: MultiStr) -> Vec<Rstr> {
        arbitrary()
    }
}

/// The ids a task extends, in the order in which it lists them.
pub open spec fn extends_of(extends: Option<MultiStr>) -> Seq<Seq<char>> {
    match extends {
        None => Seq::empty(),
        Some(list) => list@,
    }
}

/// Whether a list of strings is missing or has no member.
pub(crate) trait IsEmpty {
    fn is_empty(&self) -> bool;
}

impl IsEmpty for Option<MultiStr> {
    fn is_empty(&self) -> (empty: bool)
        ensures
            empty == (extends_of(*self).len() == 0),
    {
        match self {
            None => true,
            Some(MultiStr::Multi(list)) => list.len() == 0,
            _ => false,
        }
    }
}

/// The settings of a task that no other task can change.
#[derive(Debug, Clone, PartialEq, Eq)]
pub struct TaskConfig {
    /// An optional nice name for the task.
    pub name: Option<String>,
    /// A cron string that says when the task runs.
    pub cron: Option<String>,
    /// The command to run, along with its arguments.
    pub cmd: Option<MultiStr>,
    /// The command that stops the running process.
    pub cmd_stop: Option<MultiStr>,
    /// The time in milliseconds to wait for the process to stop gracefully.
    pub stop_timeout: usize,
    /// Whether the task runs when the scheduler starts.
    pub on_start: bool,
    /// Whether the task is enabled.
    pub enabled: bool,
}

impl TaskConfig {
    /// The settings of a task that sets none: no name, schedule or command, ten
    /// seconds to stop, not run at the start, enabled.
    pub open spec fn unset() -> TaskConfig {
        TaskConfig {
            name: None,
            cron: None,
            cmd: None,
            cmd_stop: None,
            stop_timeout: 10_000,
            on_start: false,
            enabled: true,
        }
    }
}

impl Default for TaskConfig {
    fn default() -> (out: Self)
        ensures
            out == TaskConfig::unset(),
    {
        TaskConfig {
            name: None,
            cron: None,
            cmd: None,
            cmd_stop: None,
            stop_timeout: 10_000,
            on_start: false,
            enabled: true,
        }
    }
}

/// A task as the configuration declares it.
#[derive(Debug, PartialEq, Eq)]
pub struct Task {
    /// The task or tasks to extend.
    pub extends: Option<MultiStr>,
    /// The settings that are not inherited.
    pub config: TaskConfig,
    /// The shell to run the command with.
    pub shell: Overridable<MultiStr>,
    /// A custom `PATH` for the task.
    pub path: Overridable<Inheritable<Path>>,
    /// Custom environment variables for the task.
    pub env: Overridable<Inheritable<Env>>,
}

impl Default for Task {
    /// A task that extends nothing and sets nothing.
    fn default() -> (out: Self)
        ensures
            out.extends is None,
            out.config == TaskConfig::unset(),
            out.shell is Unset,
            out.path is Unset,
            out.env is Unset,
    {
        Task {
            extends: None,
            config: TaskConfig::default(),
            shell: Overridable::Unset,
            path: Overridable::Unset,
            env: Overridable::Unset,
        }
    }
}

/// What a [`Task`] says.
pub struct TaskView {
    pub extends: Seq<Seq<char>>,
    pub config: TaskConfig,
    pub shell: Overridable<Seq<Seq<char>>>,
    pub path: Overridable<Inheritable<PathView>>,
    pub env: Overridable<Inheritable<EnvView>>,
}

/// What a task says of its shell.
pub open spec fn shell_stance(stance: Overridable<MultiStr>) -> Overridable<Seq<Seq<char>>> {
    match stance {
        Overridable::Unset => Overridable::Unset,
        Overridable::Use(flag) => Overridable::Use(flag),
        Overridable::Custom(list) => Overridable::Custom(list@),
    }
}

/// What a task says of its path.
pub open spec fn path_stance(stance: Overridable<Inheritable<Path>>) -> Overridable<
    Inheritable<PathView>,
> {
    match stance {
        Overridable::Unset => Overridable::Unset,
        Overridable::Use(flag) => Overridable::Use(flag),
        Overridable::Custom(own) => Overridable::Custom(
            Inheritable { replace: own.replace, config: own.config@ },
        ),
    }
}

/// What a task says of its environment variables.
pub open spec fn env_stance(stance: Overridable<Inheritable<Env>>) -> Overridable<
    Inheritable<EnvView>,
> {
    match stance {
        Overridable::Unset => Overridable::Unset,
        Overridable::Use(flag) => Overridable::Use(flag),
        Overridable::Custom(own) => Overridable::Custom(
            Inheritable { replace: own.replace, config: own.config@ },
        ),
    }
}

impl View for Task {
    type V = TaskView;

    open spec fn view(&self) -> TaskView {
        TaskView {
            extends: extends_of(self.extends),
            config: self.config,
            shell: shell_stance(self.shell),
            path: path_stance(self.path),
            env: env_stance(self.env),
        }
    }
}

/// A task with nothing left to inherit: the record a task is run from.
#[derive(Debug, Clone, PartialEq, Eq)]
pub struct ResolvedTask {
    /// The settings that are not inherited.
    pub config: TaskConfig,
    /// The shell to run the command with, if any.
    pub shell: Option<Vec<Rstr>>,
    /// The custom `PATH`, if any.
    pub path: Option<Path<Rstr>>,
    /// The custom environment variables, if any.
    pub env: Option<Env<Rstr>>,
}

impl Default for ResolvedTask {
    /// The record of a task that sets nothing and inherits nothing.
    fn default() -> (out: Self)
        ensures
            out.config == TaskConfig::unset(),
            out.shell is None,
            out.path is None,
            out.env is None,
    {
        ResolvedTask { config: TaskConfig::default(), shell: None, path: None, env: None }
    }
}

/// What a [`ResolvedTask`] says.
pub struct ResolvedTaskView {
    pub config: TaskConfig,
    pub shell: Option<Seq<Seq<char>>>,
    pub path: Option<PathView>,
    pub env: Option<EnvView>,
}

/// What a resolved shell holds, if there is one.
pub open spec fn shell_view(shell: Option<Vec<Rstr>>) -> Option<Seq<Seq<char>>> {
    match shell {
        Some(list) => Some(texts(list@)),
        None => None,
    }
}

/// What a resolved path holds, if there is one.
pub open spec fn path_view(path: Option<Path<Rstr>>) -> Option<PathView> {
    match path {
        Some(path) => Some(path@),
        None => None,
    }
}

/// What resolved environment variables hold, if there are any.
pub open spec fn env_view(env: Option<Env<Rstr>>) -> Option<EnvView> {
    match env {
        Some(env) => Some(env@),
        None => None,
    }
}

impl View for ResolvedTask {
    type V = ResolvedTaskView;

    open spec fn view(&self) -> ResolvedTaskView {
        ResolvedTaskView {
            config: self.config,
            shell: shell_view(self.shell),
            path: path_view(self.path),
            env: env_view(self.env),
        }
    }
}

/// The settings of the watcher of the configuration file.
#[derive(Debug, Clone, Copy, PartialEq, Eq)]
pub struct Watch {
    /// Whether the configuration file is watched and reloaded when it changes.
    pub enabled: bool,
    /// Whether to force the fallback watcher that polls.
    pub force_poll: bool,
}

impl Default for Watch {
    fn default() -> (out: Self)
        ensures
            out.enabled,
            !out.force_poll,
    {
        Watch { enabled: true, force_poll: false }
    }
}

/// A configuration document.
#[derive(Debug, PartialEq, Eq)]
pub struct Config {
    /// The task definitions by id.
    pub tasks: Table<String, Task>,
    /// The settings of the watcher.
    pub watch: Watch,
}

impl Default for Config {
    /// A document without tasks, with the watcher's default settings.
    fn default() -> (out: Self)
        ensures
            out.tasks@ == Map::<Seq<char>, TaskView>::empty(),
            out.watch.enabled,
            !out.watch.force_poll,
    {
        Config { tasks: Table::<String, Task>::new(), watch: Watch::default() }
    }
}

} // verus!
