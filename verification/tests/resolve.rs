use task_config::{
    Config, Env, Inheritable, MultiStr, Overridable, Path, PathApplyMethod, ResolveError,
    ResolvedTask, Rstr, Table, Task, TaskConfig, Watch,
};

fn rstr(s: &str) -> Rstr {
    Rstr::new(s.to_owned())
}

fn string_vars(pairs: &[(&str, &str)]) -> Table<String, String> {
    let mut vars = Table::<String, String>::new();
    for (name, value) in pairs {
        vars.insert((*name).to_owned(), (*value).to_owned());
    }
    vars
}

fn shared_vars(pairs: &[(&str, &str)]) -> Table<Rstr, Rstr> {
    let mut vars = Table::<Rstr, Rstr>::new();
    for (name, value) in pairs {
        vars.insert(rstr(name), rstr(value));
    }
    vars
}

fn tasks(entries: Vec<(&str, Task)>) -> Table<String, Task> {
    let mut table = Table::<String, Task>::new();
    for (id, task) in entries {
        table.insert(id.to_owned(), task);
    }
    table
}

fn resolved_table(entries: Vec<(&str, ResolvedTask)>) -> Table<String, ResolvedTask> {
    let mut table = Table::<String, ResolvedTask>::new();
    for (id, task) in entries {
        table.insert(id.to_owned(), task);
    }
    table
}

fn own_path(dirs: &[&str]) -> Overridable<Inheritable<Path>> {
    Overridable::Custom(Inheritable {
        config: Path {
            dirs: dirs.iter().map(|dir| (*dir).to_owned()).collect(),
            ..Default::default()
        },
        ..Default::default()
    })
}

fn own_env(pairs: &[(&str, &str)]) -> Overridable<Inheritable<Env>> {
    Overridable::Custom(Inheritable {
        config: Env {
            vars: string_vars(pairs),
            ..Default::default()
        },
        ..Default::default()
    })
}

fn extends(ids: &[&str]) -> Option<MultiStr> {
    Some(MultiStr::Multi(
        ids.iter().map(|id| (*id).to_owned()).collect(),
    ))
}

/// The document
///
/// ```toml
/// [task.foo]
/// name = 'Foo'
///
/// [task.foo.path]
/// dirs = ['/bin']
///
/// [task.foo.env.vars]
/// FOO_ENV = 'foo env value'
/// BAR_ENV = 'bar env value'
/// ```
fn foo() -> Task {
    Task {
        config: TaskConfig {
            name: Some("Foo".to_owned()),
            ..Default::default()
        },
        path: own_path(&["/bin"]),
        env: own_env(&[("FOO_ENV", "foo env value"), ("BAR_ENV", "bar env value")]),
        ..Default::default()
    }
}

fn foo_resolved() -> ResolvedTask {
    ResolvedTask {
        config: TaskConfig {
            name: Some("Foo".to_owned()),
            ..Default::default()
        },
        path: Some(Path {
            dirs: vec![rstr("/bin")],
            ..Default::default()
        }),
        env: Some(Env {
            vars: shared_vars(&[("FOO_ENV", "foo env value"), ("BAR_ENV", "bar env value")]),
            ..Default::default()
        }),
        ..Default::default()
    }
}

/// `foo` as above, and
///
/// ```toml
/// [task.bar]
/// extends = 'foo'
/// name = 'Bar'
/// cron = '* * * * * *'
/// shell = '/bin/bash'
///
/// [task.bar.env.vars]
/// BAR_ENV = 'overridden bar env'
/// BAZ_ENV = 'additional env'
///
/// [task.baz.path]
/// dirs = ['/usr/bin']
///
/// [task.qoz]
/// extends = ['bar', 'baz']
/// ```
fn complex_document() -> Config {
    Config {
        tasks: tasks(vec![
            ("foo", foo()),
            (
                "bar",
                Task {
                    extends: Some(MultiStr::Single("foo".to_owned())),
                    config: TaskConfig {
                        name: Some("Bar".to_owned()),
                        cron: Some("* * * * * *".to_owned()),
                        ..Default::default()
                    },
                    shell: Overridable::Custom(MultiStr::Single("/bin/bash".to_owned())),
                    env: own_env(&[
                        ("BAR_ENV", "overridden bar env"),
                        ("BAZ_ENV", "additional env"),
                    ]),
                    ..Default::default()
                },
            ),
            (
                "baz",
                Task {
                    path: own_path(&["/usr/bin"]),
                    ..Default::default()
                },
            ),
            (
                "qoz",
                Task {
                    extends: extends(&["bar", "baz"]),
                    ..Default::default()
                },
            ),
        ]),
        watch: Watch::default(),
    }
}

fn complex_resolved() -> Table<String, ResolvedTask> {
    resolved_table(vec![
        ("foo", foo_resolved()),
        (
            "bar",
            ResolvedTask {
                config: TaskConfig {
                    name: Some("Bar".to_owned()),
                    cron: Some("* * * * * *".to_owned()),
                    ..Default::default()
                },
                shell: Some(vec![rstr("/bin/bash")]),
                path: Some(Path {
                    dirs: vec![rstr("/bin")],
                    ..Default::default()
                }),
                env: Some(Env {
                    vars: shared_vars(&[
                        ("FOO_ENV", "foo env value"),
                        ("BAR_ENV", "overridden bar env"),
                        ("BAZ_ENV", "additional env"),
                    ]),
                    ..Default::default()
                }),
                ..Default::default()
            },
        ),
        (
            "baz",
            ResolvedTask {
                path: Some(Path {
                    dirs: vec![rstr("/usr/bin")],
                    ..Default::default()
                }),
                ..Default::default()
            },
        ),
        (
            "qoz",
            ResolvedTask {
                shell: Some(vec![rstr("/bin/bash")]),
                path: Some(Path {
                    dirs: vec![rstr("/usr/bin"), rstr("/bin")],
                    ..Default::default()
                }),
                env: Some(Env {
                    vars: shared_vars(&[
                        ("FOO_ENV", "foo env value"),
                        ("BAR_ENV", "overridden bar env"),
                        ("BAZ_ENV", "additional env"),
                    ]),
                    ..Default::default()
                }),
                ..Default::default()
            },
        ),
    ])
}

#[test]
fn test_resolve_empty() {
    let (_, resolved): (Watch, Table<String, ResolvedTask>) =
        Config::default().try_into().unwrap();

    let tasks = Table::<String, ResolvedTask>::new();

    assert_eq!(resolved, tasks)
}

#[test]
fn test_resolve_simple() {
    let config = Config {
        tasks: tasks(vec![("foo", foo())]),
        watch: Watch::default(),
    };
    let (_, resolved): (Watch, Table<String, ResolvedTask>) = config.try_into().unwrap();

    let tasks = resolved_table(vec![("foo", foo_resolved())]);

    assert_eq!(resolved, tasks)
}

#[test]
fn test_resolve_complex() {
    let (_, resolved): (Watch, Table<String, ResolvedTask>) =
        complex_document().try_into().unwrap();

    let tasks = complex_resolved();

    assert_eq!(resolved, tasks)
}

#[test]
fn resolve_agrees_with_try_into() {
    let (watch, resolved) = complex_document().resolve().unwrap();
    assert_eq!(watch, Watch::default());
    assert_eq!(resolved, complex_resolved());
}

#[test]
fn seed_has_no_shell() {
    let config = Config {
        tasks: tasks(vec![("foo", foo())]),
        watch: Watch::default(),
    };
    let (_, resolved) = config.resolve().unwrap();
    let foo = resolved.get("foo").unwrap();
    assert_eq!(foo.shell, None);
    assert_eq!(foo.path.as_ref().unwrap().dirs, vec![rstr("/bin")]);
    assert_eq!(foo.path.as_ref().unwrap().apply, PathApplyMethod::Before);
    assert_eq!(
        foo.env.as_ref().unwrap().vars,
        shared_vars(&[("FOO_ENV", "foo env value"), ("BAR_ENV", "bar env value")])
    );
    assert!(foo.env.as_ref().unwrap().merge);
}

#[test]
fn seed_scenario() {
    let config = Config {
        tasks: tasks(vec![(
            "foo",
            Task {
                path: own_path(&["/bin"]),
                env: own_env(&[("FOO_ENV", "v1"), ("BAR_ENV", "v2")]),
                ..Default::default()
            },
        )]),
        watch: Watch::default(),
    };
    let (_, resolved) = config.resolve().unwrap();
    let expected = resolved_table(vec![(
        "foo",
        ResolvedTask {
            shell: None,
            path: Some(Path {
                dirs: vec![rstr("/bin")],
                apply: PathApplyMethod::Before,
            }),
            env: Some(Env {
                vars: shared_vars(&[("FOO_ENV", "v1"), ("BAR_ENV", "v2")]),
                merge: true,
            }),
            ..Default::default()
        },
    )]);
    assert_eq!(resolved, expected);
}

#[test]
fn single_inheritance_overrides_one_variable() {
    let config = Config {
        tasks: tasks(vec![
            (
                "foo",
                Task {
                    env: own_env(&[("FOO_ENV", "v1"), ("BAR_ENV", "v2")]),
                    ..Default::default()
                },
            ),
            (
                "bar",
                Task {
                    extends: Some(MultiStr::Single("foo".to_owned())),
                    env: own_env(&[("BAR_ENV", "overridden")]),
                    ..Default::default()
                },
            ),
        ]),
        watch: Watch::default(),
    };
    let (_, resolved) = config.resolve().unwrap();
    let bar = resolved.get("bar").unwrap();
    assert_eq!(
        bar.env.as_ref().unwrap().vars,
        shared_vars(&[("FOO_ENV", "v1"), ("BAR_ENV", "overridden")])
    );
}

#[test]
fn multi_parent_path_puts_last_parent_first() {
    let (_, resolved) = complex_document().resolve().unwrap();
    let qoz = resolved.get("qoz").unwrap();
    assert_eq!(
        qoz.path.as_ref().unwrap().dirs,
        vec![rstr("/usr/bin"), rstr("/bin")]
    );
}

#[test]
fn parent_order_changes_directory_order() {
    let document = |order: &[&str]| Config {
        tasks: tasks(vec![
            (
                "a",
                Task {
                    path: own_path(&["/a"]),
                    ..Default::default()
                },
            ),
            (
                "b",
                Task {
                    path: own_path(&["/b"]),
                    ..Default::default()
                },
            ),
            (
                "child",
                Task {
                    extends: extends(order),
                    ..Default::default()
                },
            ),
        ]),
        watch: Watch::default(),
    };
    let (_, first) = document(&["a", "b"]).resolve().unwrap();
    let (_, second) = document(&["b", "a"]).resolve().unwrap();
    assert_eq!(
        first.get("child").unwrap().path.as_ref().unwrap().dirs,
        vec![rstr("/b"), rstr("/a")]
    );
    assert_eq!(
        second.get("child").unwrap().path.as_ref().unwrap().dirs,
        vec![rstr("/a"), rstr("/b")]
    );
}

#[test]
fn parents_with_the_same_directory_merge_alike() {
    let document = |order: &[&str]| Config {
        tasks: tasks(vec![
            (
                "a",
                Task {
                    path: own_path(&["/bin"]),
                    ..Default::default()
                },
            ),
            (
                "b",
                Task {
                    path: own_path(&["/bin"]),
                    ..Default::default()
                },
            ),
            (
                "child",
                Task {
                    extends: extends(order),
                    ..Default::default()
                },
            ),
        ]),
        watch: Watch::default(),
    };
    let (_, first) = document(&["a", "b"]).resolve().unwrap();
    let (_, second) = document(&["b", "a"]).resolve().unwrap();
    assert_eq!(
        first.get("child").unwrap().path.as_ref().unwrap().dirs,
        vec![rstr("/bin")]
    );
    assert_eq!(first.get("child"), second.get("child"));
}

#[test]
fn later_parent_wins_env_collision_and_child_wins_over_all() {
    let config = Config {
        tasks: tasks(vec![
            (
                "a",
                Task {
                    env: own_env(&[("X", "from a"), ("Y", "from a"), ("Z", "from a")]),
                    ..Default::default()
                },
            ),
            (
                "b",
                Task {
                    env: own_env(&[("X", "from b"), ("Y", "from b")]),
                    ..Default::default()
                },
            ),
            (
                "inherits",
                Task {
                    extends: extends(&["a", "b"]),
                    ..Default::default()
                },
            ),
            (
                "merges",
                Task {
                    extends: extends(&["a", "b"]),
                    env: own_env(&[("X", "from child")]),
                    ..Default::default()
                },
            ),
        ]),
        watch: Watch::default(),
    };
    let (_, resolved) = config.resolve().unwrap();
    assert_eq!(
        resolved.get("inherits").unwrap().env.as_ref().unwrap().vars,
        shared_vars(&[("X", "from b"), ("Y", "from b"), ("Z", "from a")])
    );
    assert_eq!(
        resolved.get("merges").unwrap().env.as_ref().unwrap().vars,
        shared_vars(&[("X", "from child"), ("Y", "from b"), ("Z", "from a")])
    );
}

#[test]
fn two_tasks_extending_each_other_are_a_cycle() {
    let config = Config {
        tasks: tasks(vec![
            (
                "a",
                Task {
                    extends: Some(MultiStr::Single("b".to_owned())),
                    ..Default::default()
                },
            ),
            (
                "b",
                Task {
                    extends: Some(MultiStr::Single("a".to_owned())),
                    ..Default::default()
                },
            ),
        ]),
        watch: Watch::default(),
    };
    assert_eq!(config.resolve(), Err(ResolveError::Cycle));
}

#[test]
fn a_task_extending_itself_is_a_cycle() {
    let config = Config {
        tasks: tasks(vec![
            ("seed", Task::default()),
            (
                "a",
                Task {
                    extends: extends(&["seed", "a"]),
                    ..Default::default()
                },
            ),
        ]),
        watch: Watch::default(),
    };
    assert_eq!(config.resolve(), Err(ResolveError::Cycle));
}

#[test]
fn a_task_that_reaches_a_cycle_is_a_cycle() {
    let config = Config {
        tasks: tasks(vec![
            ("seed", foo()),
            (
                "a",
                Task {
                    extends: Some(MultiStr::Single("b".to_owned())),
                    ..Default::default()
                },
            ),
            (
                "b",
                Task {
                    extends: Some(MultiStr::Single("a".to_owned())),
                    ..Default::default()
                },
            ),
            (
                "c",
                Task {
                    extends: extends(&["seed", "a"]),
                    ..Default::default()
                },
            ),
        ]),
        watch: Watch::default(),
    };
    assert_eq!(config.resolve(), Err(ResolveError::Cycle));
}

#[test]
fn an_unknown_parent_is_named() {
    let config = Config {
        tasks: tasks(vec![
            ("foo", foo()),
            (
                "bar",
                Task {
                    extends: extends(&["foo", "nope"]),
                    ..Default::default()
                },
            ),
        ]),
        watch: Watch::default(),
    };
    assert_eq!(
        config.resolve(),
        Err(ResolveError::UnknownTask("nope".to_owned()))
    );
}

#[test]
fn an_unknown_single_parent_is_named() {
    let config = Config {
        tasks: tasks(vec![(
            "bar",
            Task {
                extends: Some(MultiStr::Single("ghost".to_owned())),
                ..Default::default()
            },
        )]),
        watch: Watch::default(),
    };
    let error = config.resolve().unwrap_err();
    assert_eq!(error, ResolveError::UnknownTask("ghost".to_owned()));
    assert_eq!(error.message(), "Unknown task `ghost`");
}

#[test]
fn an_unknown_parent_is_reported_before_a_cycle() {
    let config = Config {
        tasks: tasks(vec![
            (
                "a",
                Task {
                    extends: Some(MultiStr::Single("b".to_owned())),
                    ..Default::default()
                },
            ),
            (
                "b",
                Task {
                    extends: Some(MultiStr::Single("a".to_owned())),
                    ..Default::default()
                },
            ),
            (
                "c",
                Task {
                    extends: Some(MultiStr::Single("nope".to_owned())),
                    ..Default::default()
                },
            ),
        ]),
        watch: Watch::default(),
    };
    assert_eq!(
        config.resolve(),
        Err(ResolveError::UnknownTask("nope".to_owned()))
    );
}

#[test]
fn cycle_message() {
    assert_eq!(
        ResolveError::Cycle.message(),
        "Extends dependency cycle detected"
    );
}

#[test]
fn resolving_twice_gives_the_same_records() {
    let (first_watch, first) = complex_document().resolve().unwrap();
    let (second_watch, second) = complex_document().resolve().unwrap();
    assert_eq!(first_watch, second_watch);
    assert_eq!(first, second);
}

#[test]
fn a_seed_does_not_depend_on_the_other_tasks() {
    let alone = Config {
        tasks: tasks(vec![("foo", foo())]),
        watch: Watch::default(),
    };
    let (_, alone) = alone.resolve().unwrap();
    let (_, among) = complex_document().resolve().unwrap();
    assert_eq!(alone.get("foo"), among.get("foo"));
    assert_eq!(alone.get("foo"), Some(&foo_resolved()));
}

#[test]
fn an_empty_list_of_parents_counts_as_none() {
    let config = Config {
        tasks: tasks(vec![(
            "foo",
            Task {
                extends: Some(MultiStr::Multi(vec![])),
                shell: Overridable::Custom(MultiStr::Multi(vec![
                    "sh".to_owned(),
                    "-c".to_owned(),
                ])),
                ..Default::default()
            },
        )]),
        watch: Watch::default(),
    };
    let (_, resolved) = config.resolve().unwrap();
    assert_eq!(
        resolved.get("foo").unwrap().shell,
        Some(vec![rstr("sh"), rstr("-c")])
    );
}

#[test]
fn the_watch_settings_pass_through() {
    let config = Config {
        tasks: tasks(vec![("foo", foo())]),
        watch: Watch {
            enabled: false,
            force_poll: true,
        },
    };
    let (watch, _) = config.resolve().unwrap();
    assert_eq!(
        watch,
        Watch {
            enabled: false,
            force_poll: true,
        }
    );
}

#[test]
fn a_long_chain_resolves_whatever_the_order_of_the_table() {
    let mut entries = vec![(
        "t0".to_owned(),
        Task {
            path: own_path(&["/0"]),
            ..Default::default()
        },
    )];
    for i in 1..40 {
        entries.push((
            format!("t{}", i),
            Task {
                extends: Some(MultiStr::Single(format!("t{}", i - 1))),
                path: own_path(&[format!("/{}", i).as_str()]),
                ..Default::default()
            },
        ));
    }
    let mut table = Table::<String, Task>::new();
    for (id, task) in entries {
        table.insert(id, task);
    }
    let (_, resolved) = Config {
        tasks: table,
        watch: Watch::default(),
    }
    .resolve()
    .unwrap();
    let last = resolved.get("t39").unwrap();
    let expected: Vec<Rstr> = (0..40).rev().map(|i| rstr(&format!("/{}", i))).collect();
    assert_eq!(last.path.as_ref().unwrap().dirs, expected);
}

#[test]
fn shell_comes_from_the_last_parent_that_has_one() {
    let with_shell = |shell: &str| Task {
        shell: Overridable::Custom(MultiStr::Single(shell.to_owned())),
        ..Default::default()
    };
    let config = Config {
        tasks: tasks(vec![
            ("a", with_shell("/bin/a")),
            ("b", with_shell("/bin/b")),
            ("none", Task::default()),
            (
                "ab",
                Task {
                    extends: extends(&["a", "b"]),
                    ..Default::default()
                },
            ),
            (
                "b_none",
                Task {
                    extends: extends(&["b", "none"]),
                    shell: Overridable::Use(true),
                    ..Default::default()
                },
            ),
            (
                "off",
                Task {
                    extends: extends(&["a", "b"]),
                    shell: Overridable::Use(false),
                    ..Default::default()
                },
            ),
        ]),
        watch: Watch::default(),
    };
    let (_, resolved) = config.resolve().unwrap();
    assert_eq!(resolved.get("ab").unwrap().shell, Some(vec![rstr("/bin/b")]));
    assert_eq!(
        resolved.get("b_none").unwrap().shell,
        Some(vec![rstr("/bin/b")])
    );
    assert_eq!(resolved.get("off").unwrap().shell, None);
}

#[test]
fn replace_drops_what_the_parents_hand_down() {
    let config = Config {
        tasks: tasks(vec![
            ("foo", foo()),
            (
                "bar",
                Task {
                    extends: Some(MultiStr::Single("foo".to_owned())),
                    path: Overridable::Custom(Inheritable {
                        replace: true,
                        config: Path {
                            dirs: vec!["/opt".to_owned()],
                            apply: PathApplyMethod::Overwrite,
                        },
                    }),
                    env: Overridable::Custom(Inheritable {
                        replace: true,
                        config: Env {
                            vars: string_vars(&[("ONLY", "this")]),
                            merge: false,
                        },
                    }),
                    ..Default::default()
                },
            ),
            (
                "merged",
                Task {
                    extends: Some(MultiStr::Single("foo".to_owned())),
                    path: Overridable::Custom(Inheritable {
                        replace: false,
                        config: Path {
                            dirs: vec!["/opt".to_owned()],
                            apply: PathApplyMethod::After,
                        },
                    }),
                    ..Default::default()
                },
            ),
        ]),
        watch: Watch::default(),
    };
    let (_, resolved) = config.resolve().unwrap();
    let bar = resolved.get("bar").unwrap();
    assert_eq!(
        bar.path,
        Some(Path {
            dirs: vec![rstr("/opt")],
            apply: PathApplyMethod::Overwrite,
        })
    );
    assert_eq!(
        bar.env,
        Some(Env {
            vars: shared_vars(&[("ONLY", "this")]),
            merge: false,
        })
    );
    let merged = resolved.get("merged").unwrap();
    assert_eq!(
        merged.path,
        Some(Path {
            dirs: vec![rstr("/opt"), rstr("/bin")],
            apply: PathApplyMethod::After,
        })
    );
}
