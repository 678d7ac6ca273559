use task_config::{
    resolve_task, Config, MultiStr, Overridable, ResolvedTask, Rstr, Table, Task, TaskConfig,
    Watch,
};

fn rstr(s: &str) -> Rstr {
    Rstr::new(s.to_owned())
}

fn named(name: &str) -> Task {
    Task {
        config: TaskConfig {
            name: Some(name.to_owned()),
            ..Default::default()
        },
        ..Default::default()
    }
}

fn named_resolved(name: &str) -> ResolvedTask {
    ResolvedTask {
        config: TaskConfig {
            name: Some(name.to_owned()),
            ..Default::default()
        },
        ..Default::default()
    }
}

#[test]
fn a_new_table_of_tasks_is_empty() {
    let table = Table::<String, Task>::new();
    assert_eq!(table.len(), 0);
    assert_eq!(table.get("foo"), None);
    assert_eq!(table.into_entries(), vec![]);
    assert_eq!(Table::<String, Task>::default().len(), 0);
}

#[test]
fn an_inserted_task_is_found_again() {
    let mut table = Table::<String, Task>::new();
    assert_eq!(table.insert("foo".to_owned(), named("Foo")), None);
    assert_eq!(table.insert("bar".to_owned(), named("Bar")), None);
    assert_eq!(table.len(), 2);
    assert_eq!(table.get("foo"), Some(&named("Foo")));
    assert_eq!(table.get("bar"), Some(&named("Bar")));
    assert_eq!(table.get("baz"), None);
}

#[test]
fn inserting_under_a_taken_id_hands_back_the_old_task() {
    let mut table = Table::<String, Task>::new();
    table.insert("foo".to_owned(), named("Foo"));
    assert_eq!(
        table.insert("foo".to_owned(), named("Other")),
        Some(named("Foo"))
    );
    assert_eq!(table.len(), 1);
    assert_eq!(table.get("foo"), Some(&named("Other")));
}

#[test]
fn the_entries_of_a_table_of_tasks_are_all_listed_once() {
    let mut table = Table::<String, Task>::new();
    table.insert("foo".to_owned(), named("Foo"));
    table.insert("bar".to_owned(), named("Bar"));
    table.insert("baz".to_owned(), named("Baz"));
    let mut entries = table.into_entries();
    entries.sort_by(|a, b| a.0.cmp(&b.0));
    assert_eq!(
        entries,
        vec![
            ("bar".to_owned(), named("Bar")),
            ("baz".to_owned(), named("Baz")),
            ("foo".to_owned(), named("Foo")),
        ]
    );
}

#[test]
fn the_values_of_a_table_of_tasks_are_all_listed() {
    let mut table = Table::<String, Task>::new();
    assert_eq!(table.values().len(), 0);
    table.insert("foo".to_owned(), named("Foo"));
    table.insert("bar".to_owned(), named("Bar"));
    table.insert("twin".to_owned(), named("Bar"));
    let mut names: Vec<String> = table
        .values()
        .into_iter()
        .map(|task| task.config.name.clone().unwrap())
        .collect();
    names.sort();
    assert_eq!(names, vec!["Bar".to_owned(), "Bar".to_owned(), "Foo".to_owned()]);
    assert_eq!(table.len(), 3);
}

#[test]
fn the_seeds_leave_the_table_and_the_others_stay() {
    let mut table = Table::<String, Task>::new();
    table.insert("none".to_owned(), named("None"));
    table.insert(
        "empty".to_owned(),
        Task {
            extends: Some(MultiStr::Multi(vec![])),
            ..named("Empty")
        },
    );
    table.insert(
        "blank".to_owned(),
        Task {
            extends: Some(MultiStr::Single(String::new())),
            ..named("Blank")
        },
    );
    table.insert(
        "child".to_owned(),
        Task {
            extends: Some(MultiStr::Multi(vec!["none".to_owned()])),
            ..named("Child")
        },
    );
    let mut seeds = table.extract_seeds();
    seeds.sort_by(|a, b| a.0.cmp(&b.0));
    assert_eq!(
        seeds,
        vec![
            (
                "empty".to_owned(),
                Task {
                    extends: Some(MultiStr::Multi(vec![])),
                    ..named("Empty")
                }
            ),
            ("none".to_owned(), named("None")),
        ]
    );
    assert_eq!(table.len(), 2);
    assert_eq!(table.get("none"), None);
    assert_eq!(table.get("empty"), None);
    assert!(table.get("blank").is_some());
    assert!(table.get("child").is_some());
    assert_eq!(table.extract_seeds(), vec![]);
    assert_eq!(table.len(), 2);
}

#[test]
fn tables_are_equal_whatever_the_order_of_insertion() {
    let mut first = Table::<String, Task>::new();
    first.insert("foo".to_owned(), named("Foo"));
    first.insert("bar".to_owned(), named("Bar"));
    let mut second = Table::<String, Task>::new();
    second.insert("bar".to_owned(), named("Bar"));
    second.insert("foo".to_owned(), named("Foo"));
    assert_eq!(first, second);
    second.insert("baz".to_owned(), named("Baz"));
    assert_ne!(first, second);
}

#[test]
fn a_table_of_resolved_tasks_holds_what_was_inserted() {
    let mut table = Table::<String, ResolvedTask>::new();
    assert_eq!(table.get("foo"), None);
    assert_eq!(table.insert("foo".to_owned(), named_resolved("Foo")), None);
    assert_eq!(
        table.insert("foo".to_owned(), named_resolved("Again")),
        Some(named_resolved("Foo"))
    );
    table.insert("bar".to_owned(), named_resolved("Bar"));
    assert_eq!(table.get("foo"), Some(&named_resolved("Again")));
    assert_eq!(table.get("nope"), None);
    let mut entries = table.into_entries();
    entries.sort_by(|a, b| a.0.cmp(&b.0));
    assert_eq!(
        entries,
        vec![
            ("bar".to_owned(), named_resolved("Bar")),
            ("foo".to_owned(), named_resolved("Again")),
        ]
    );
}

#[test]
fn a_table_of_owned_strings_holds_what_was_inserted() {
    let mut table = Table::<String, String>::new();
    assert_eq!(table.insert("A".to_owned(), "1".to_owned()), None);
    assert_eq!(
        table.insert("A".to_owned(), "2".to_owned()),
        Some("1".to_owned())
    );
    table.insert("B".to_owned(), "3".to_owned());
    let mut entries = table.into_entries();
    entries.sort();
    assert_eq!(
        entries,
        vec![
            ("A".to_owned(), "2".to_owned()),
            ("B".to_owned(), "3".to_owned()),
        ]
    );
}

#[test]
fn owned_strings_go_behind_shared_handles() {
    let mut table = Table::<String, String>::new();
    table.insert("A".to_owned(), "1".to_owned());
    table.insert("B".to_owned(), "2".to_owned());
    let mut entries: Vec<(String, String)> = table
        .into_shared()
        .into_entries()
        .into_iter()
        .map(|(name, value)| (name.as_str().to_owned(), value.as_str().to_owned()))
        .collect();
    entries.sort();
    assert_eq!(
        entries,
        vec![
            ("A".to_owned(), "1".to_owned()),
            ("B".to_owned(), "2".to_owned()),
        ]
    );
}

#[test]
fn a_table_of_shared_strings_holds_what_was_inserted() {
    let mut table = Table::<Rstr, Rstr>::new();
    assert_eq!(table.insert(rstr("A"), rstr("1")), None);
    assert_eq!(table.insert(rstr("A"), rstr("2")), Some(rstr("1")));
    table.insert(rstr("B"), rstr("3"));
    let mut entries: Vec<(String, String)> = table
        .into_entries()
        .into_iter()
        .map(|(name, value)| (name.as_str().to_owned(), value.as_str().to_owned()))
        .collect();
    entries.sort();
    assert_eq!(
        entries,
        vec![
            ("A".to_owned(), "2".to_owned()),
            ("B".to_owned(), "3".to_owned()),
        ]
    );
}

#[test]
fn extending_a_table_overwrites_and_adds() {
    let mut table = Table::<Rstr, Rstr>::new();
    table.insert(rstr("A"), rstr("1"));
    table.insert(rstr("B"), rstr("2"));
    let mut other = Table::<Rstr, Rstr>::new();
    other.insert(rstr("B"), rstr("3"));
    other.insert(rstr("C"), rstr("4"));
    table.extend(other);
    let mut expected = Table::<Rstr, Rstr>::new();
    expected.insert(rstr("A"), rstr("1"));
    expected.insert(rstr("B"), rstr("3"));
    expected.insert(rstr("C"), rstr("4"));
    assert_eq!(table, expected);
}

#[test]
fn a_cloned_table_is_equal_and_independent() {
    let mut table = Table::<Rstr, Rstr>::new();
    table.insert(rstr("A"), rstr("1"));
    let copy = table.clone();
    assert_eq!(copy, table);
    table.insert(rstr("B"), rstr("2"));
    assert_ne!(copy, table);
    assert_eq!(copy.into_entries().len(), 1);
}

#[test]
fn a_task_is_handed_back_while_a_parent_is_missing() {
    let mut resolved = Table::<String, ResolvedTask>::new();
    resolved.insert("a".to_owned(), named_resolved("A"));
    let task = Task {
        extends: Some(MultiStr::Multi(vec!["a".to_owned(), "b".to_owned()])),
        shell: Overridable::Use(true),
        ..named("Child")
    };
    let back = resolve_task(task, &resolved).unwrap_err();
    assert_eq!(
        back,
        Task {
            extends: Some(MultiStr::Multi(vec!["a".to_owned(), "b".to_owned()])),
            shell: Overridable::Use(true),
            ..named("Child")
        }
    );
    let single = Task {
        extends: Some(MultiStr::Single("b".to_owned())),
        ..named("Child")
    };
    assert!(resolve_task(single, &resolved).is_err());
}

#[test]
fn a_task_is_resolved_once_its_parents_are() {
    let mut resolved = Table::<String, ResolvedTask>::new();
    resolved.insert(
        "a".to_owned(),
        ResolvedTask {
            shell: Some(vec![rstr("/bin/a")]),
            ..named_resolved("A")
        },
    );
    resolved.insert("b".to_owned(), named_resolved("B"));
    let task = Task {
        extends: Some(MultiStr::Multi(vec!["a".to_owned(), "b".to_owned()])),
        ..named("Child")
    };
    assert_eq!(
        resolve_task(task, &resolved),
        Ok(ResolvedTask {
            shell: Some(vec![rstr("/bin/a")]),
            ..named_resolved("Child")
        })
    );
    assert_eq!(
        resolve_task(named("Alone"), &resolved),
        Ok(named_resolved("Alone"))
    );
}

#[test]
fn a_task_without_parents_converts_as_it_resolves() {
    let task = Task {
        shell: Overridable::Custom(MultiStr::Single("/bin/sh".to_owned())),
        path: Overridable::Use(true),
        env: Overridable::Use(false),
        ..named("Alone")
    };
    assert_eq!(
        ResolvedTask::from(task),
        ResolvedTask {
            shell: Some(vec![rstr("/bin/sh")]),
            ..named_resolved("Alone")
        }
    );
}

#[test]
fn only_the_tasks_without_parents_are_seeds() {
    let mut tasks = Table::<String, Task>::new();
    tasks.insert("none".to_owned(), named("None"));
    tasks.insert(
        "empty".to_owned(),
        Task {
            extends: Some(MultiStr::Multi(vec![])),
            ..named("Empty")
        },
    );
    tasks.insert(
        "blank".to_owned(),
        Task {
            extends: Some(MultiStr::Single(String::new())),
            ..named("Blank")
        },
    );
    let out = Config {
        tasks,
        watch: Watch::default(),
    }
    .resolve();
    assert_eq!(
        out,
        Err(task_config::ResolveError::UnknownTask(String::new()))
    );
}
