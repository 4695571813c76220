use std::collections::HashMap;

use timetracker::entries::{EntryType, TimeEntry};
use timetracker::error::Error;
use timetracker::projects::Project;
use timetracker::tasks::{Doc, Job, Reply, Request, Shape, Step, Task};

fn project(slug: &str) -> Project {
    Project { name: slug.to_uppercase(), slug: slug.to_string(), description: String::new() }
}

fn entry(timestamp: i64, kind: EntryType) -> TimeEntry {
    TimeEntry { timestamp, entry_type: kind, description: None }
}

/// Carries out `job` against an in-memory store; `fail_on` names a request
/// kind ("create", "replace", "delete") that the store refuses with a 500.
fn drive(job: Job, store: &mut HashMap<String, Doc>, fail_on: &str) -> Result<(), Error> {
    let (mut task, mut req) = Task::start(job);
    loop {
        let reply = match req {
            Request::Get(k, shape) => match (store.get(&k), shape) {
                (None, Shape::ProjectList) => Reply::Fetched(Doc::Projects(vec![])),
                (None, Shape::EntryList) => Reply::Fetched(Doc::Entries(vec![])),
                (Some(d @ Doc::Projects(_)), Shape::ProjectList) => Reply::Fetched(d.clone()),
                (Some(d @ Doc::Entries(_)), Shape::EntryList) => Reply::Fetched(d.clone()),
                _ => Reply::Failed(Error::DeserializationError),
            },
            Request::Create(k, d) if fail_on != "create" => {
                store.insert(k, d);
                Reply::Done
            }
            Request::Replace(k, d) if fail_on != "replace" => {
                store.insert(k, d);
                Reply::Done
            }
            Request::Delete(k) if fail_on != "delete" => {
                store.remove(&k);
                Reply::Done
            }
            _ => Reply::Failed(Error::ApiError(500)),
        };
        match task.advance(reply) {
            Step::Send(t, r) => {
                task = t;
                req = r;
            }
            Step::Finish(out) => return out,
        }
    }
}

fn slugs(store: &HashMap<String, Doc>) -> Vec<String> {
    match store.get("projects") {
        Some(Doc::Projects(v)) => v.iter().map(|p| p.slug.clone()).collect(),
        _ => vec![],
    }
}

fn stamps(store: &HashMap<String, Doc>, key: &str) -> Vec<i64> {
    match store.get(key) {
        Some(Doc::Entries(v)) => v.iter().map(|e| e.timestamp).collect(),
        _ => vec![],
    }
}

fn seeded() -> HashMap<String, Doc> {
    let mut store = HashMap::new();
    store.insert("projects".to_string(), Doc::Projects(vec![project("a"), project("b")]));
    store.insert(
        "projects/a".to_string(),
        Doc::Entries(vec![entry(10, EntryType::Start), entry(20, EntryType::End)]),
    );
    store
}

#[test]
fn add_project_to_empty_store() {
    let mut store = HashMap::new();
    assert_eq!(drive(Job::AddProject(project("x")), &mut store, "replace"), Ok(()));
    assert_eq!(slugs(&store), vec!["x"]);
}

#[test]
fn add_duplicate_project_leaves_list_unchanged() {
    let mut store = seeded();
    let r = drive(Job::AddProject(project("b")), &mut store, "");
    assert_eq!(r, Err(Error::DuplicateSlug));
    assert_eq!(slugs(&store), vec!["a", "b"]);
}

#[test]
fn rename_moves_time_entries() {
    let mut store = seeded();
    let r = drive(Job::UpdateProject("a".to_string(), project("c")), &mut store, "");
    assert_eq!(r, Ok(()));
    assert_eq!(slugs(&store), vec!["c", "b"]);
    assert_eq!(stamps(&store, "projects/c"), vec![10, 20]);
    assert!(!store.contains_key("projects/a"));
}

#[test]
fn rename_without_entries_only_rewrites_list() {
    let mut store = seeded();
    let r = drive(Job::UpdateProject("b".to_string(), project("d")), &mut store, "create");
    assert_eq!(r, Ok(()));
    assert_eq!(slugs(&store), vec!["a", "d"]);
    assert!(!store.contains_key("projects/d"));
}

#[test]
fn rename_onto_existing_slug_is_rejected() {
    let mut store = seeded();
    let r = drive(Job::UpdateProject("a".to_string(), project("b")), &mut store, "");
    assert_eq!(r, Err(Error::DuplicateSlug));
    assert_eq!(slugs(&store), vec!["a", "b"]);
}

#[test]
fn rename_failing_midway_keeps_list() {
    let mut store = seeded();
    let r = drive(Job::UpdateProject("a".to_string(), project("c")), &mut store, "delete");
    assert_eq!(r, Err(Error::ApiError(500)));
    assert_eq!(slugs(&store), vec!["a", "b"]);
}

#[test]
fn update_missing_project_is_not_found() {
    let mut store = seeded();
    let r = drive(Job::UpdateProject("z".to_string(), project("y")), &mut store, "");
    assert_eq!(r, Err(Error::NotFound));
}

#[test]
fn delete_project_clears_entries() {
    let mut store = seeded();
    assert_eq!(drive(Job::DeleteProject("a".to_string()), &mut store, ""), Ok(()));
    assert_eq!(slugs(&store), vec!["b"]);
    assert!(stamps(&store, "projects/a").is_empty());
}

#[test]
fn delete_missing_project_is_not_found() {
    let mut store = seeded();
    assert_eq!(drive(Job::DeleteProject("q".to_string()), &mut store, ""), Err(Error::NotFound));
    assert_eq!(slugs(&store), vec!["a", "b"]);
}

#[test]
fn time_entries_are_added_edited_and_removed() {
    let mut store = seeded();
    let r = drive(
        Job::AddTimeEntry("b".to_string(), entry(5, EntryType::Start)),
        &mut store,
        "replace",
    );
    assert_eq!(r, Ok(()));
    let r = drive(Job::AddTimeEntry("b".to_string(), entry(9, EntryType::End)), &mut store, "create");
    assert_eq!(r, Ok(()));
    assert_eq!(stamps(&store, "projects/b"), vec![5, 9]);
    let r = drive(
        Job::EditTimeEntry("b".to_string(), 9, Some("wrote tests".to_string())),
        &mut store,
        "",
    );
    assert_eq!(r, Ok(()));
    match store.get("projects/b") {
        Some(Doc::Entries(v)) => assert_eq!(v[1].description.as_deref(), Some("wrote tests")),
        _ => panic!("entries missing"),
    }
    assert_eq!(drive(Job::DeleteTimeEntry("b".to_string(), 5), &mut store, ""), Ok(()));
    assert_eq!(stamps(&store, "projects/b"), vec![9]);
    assert_eq!(
        drive(Job::DeleteTimeEntry("b".to_string(), 5), &mut store, ""),
        Err(Error::NotFound)
    );
}

#[test]
fn wrong_kind_of_list_is_malformed() {
    let mut store = HashMap::new();
    store.insert("projects".to_string(), Doc::Entries(vec![]));
    assert_eq!(
        drive(Job::AddProject(project("x")), &mut store, ""),
        Err(Error::DeserializationError)
    );
}
