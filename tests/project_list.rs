use timetracker::error::Error;
use timetracker::projects::{
    add_to_list, find_project, is_valid_slug, position_of, remove_from_list, replace_in_list,
    Project,
};

fn project(slug: &str) -> Project {
    Project {
        name: format!("Name {}", slug),
        slug: slug.to_string(),
        description: format!("Project {}", slug),
    }
}

fn slugs(v: &[Project]) -> Vec<String> {
    v.iter().map(|p| p.slug.clone()).collect()
}

#[test]
fn add_first_project_asks_for_create() {
    let (v, first) = add_to_list(vec![], project("a")).unwrap();
    assert!(first);
    assert_eq!(slugs(&v), vec!["a"]);
}

#[test]
fn add_later_project_asks_for_replace() {
    let (v, first) = add_to_list(vec![project("a")], project("b")).unwrap();
    assert!(!first);
    assert_eq!(slugs(&v), vec!["a", "b"]);
}

#[test]
fn add_duplicate_slug_is_rejected() {
    let r = add_to_list(vec![project("a"), project("b")], project("b"));
    assert_eq!(r.unwrap_err(), Error::DuplicateSlug);
}

#[test]
fn find_project_by_slug() {
    let list = vec![project("a"), project("b")];
    assert_eq!(find_project(&list, &"b".to_string()).unwrap().name, "Name b");
    assert_eq!(find_project(&list, &"c".to_string()).unwrap_err(), Error::NotFound);
    assert_eq!(position_of(&list, &"a".to_string()), Some(0));
}

#[test]
fn replace_keeps_position() {
    let (v, i) = replace_in_list(vec![project("a"), project("b")], &"a".to_string(), project("c")).unwrap();
    assert_eq!(i, 0);
    assert_eq!(slugs(&v), vec!["c", "b"]);
}

#[test]
fn replace_with_same_slug_is_allowed() {
    let mut p = project("a");
    p.name = "Other".to_string();
    let (v, _) = replace_in_list(vec![project("a")], &"a".to_string(), p).unwrap();
    assert_eq!(v[0].name, "Other");
}

#[test]
fn replace_onto_other_slug_is_rejected() {
    let r = replace_in_list(vec![project("a"), project("b")], &"a".to_string(), project("b"));
    assert_eq!(r.unwrap_err(), Error::DuplicateSlug);
}

#[test]
fn replace_missing_is_not_found() {
    let r = replace_in_list(vec![project("a")], &"z".to_string(), project("b"));
    assert_eq!(r.unwrap_err(), Error::NotFound);
}

#[test]
fn remove_project_filters_list() {
    let v = remove_from_list(vec![project("a"), project("b"), project("c")], &"b".to_string()).unwrap();
    assert_eq!(slugs(&v), vec!["a", "c"]);
}

#[test]
fn remove_missing_project_is_not_found() {
    let r = remove_from_list(vec![project("a")], &"b".to_string());
    assert_eq!(r.unwrap_err(), Error::NotFound);
}

#[test]
fn slug_format() {
    assert!(is_valid_slug("type-roof_2"));
    assert!(is_valid_slug("café"));
    assert!(!is_valid_slug("type roof"));
    assert!(!is_valid_slug("a/b"));
}
