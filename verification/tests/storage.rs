use dev_header::storage::{NotFoundError, Storage};
use dev_header::template::Template;

fn named(name: &str, default: bool) -> Template {
    Template {
        name: name.to_string(),
        default,
        length: 40,
        border: None,
        fields: Vec::new(),
        space_before: 0,
        space_after: 0,
    }
}

fn names(store: &Storage) -> Vec<String> {
    store.list().iter().map(|t| t.name.clone()).collect()
}

#[test]
fn storage_keeps_templates_in_the_order_added() {
    let mut store = Storage::from_templates(vec![named("a", true)]);
    store.add(named("b", false));
    store.add(named("c", false));
    assert_eq!(names(&store), vec!["a", "b", "c"]);
}

#[test]
fn get_finds_the_first_template_of_that_name() {
    let mut twice = named("a", false);
    twice.length = 9;
    let store = Storage::from_templates(vec![named("b", false), named("a", false), twice]);
    let found = store.get("a").unwrap();
    assert_eq!(found.length, 40);
    assert_eq!(store.get("b").unwrap().name, "b");
    assert!(store.get("z").is_none());
    assert!(store.get("").is_none());
}

#[test]
fn get_mut_changes_the_template_in_place() {
    let mut store = Storage::from_templates(vec![named("a", false), named("b", false)]);
    store.get_mut("b").unwrap().length = 12;
    assert_eq!(store.list()[1].length, 12);
    assert_eq!(store.list()[0], named("a", false));
    assert!(store.get_mut("z").is_none());
    assert_eq!(store.list().len(), 2);
}

#[test]
fn get_default_finds_the_first_default() {
    let store = Storage::from_templates(vec![named("a", false), named("b", true), named("c", true)]);
    assert_eq!(store.get_default().unwrap().name, "b");
    let none = Storage::from_templates(vec![named("a", false)]);
    assert!(none.get_default().is_none());
    let empty = Storage::from_templates(Vec::new());
    assert!(empty.get_default().is_none());
}

#[test]
fn delete_removes_the_named_template() {
    let mut store = Storage::from_templates(vec![named("a", true), named("b", false), named("c", false)]);
    assert_eq!(store.delete("b"), Ok(()));
    assert_eq!(names(&store), vec!["a", "c"]);
    assert!(store.list()[0].default);
    assert!(!store.list()[1].default);
}

#[test]
fn delete_of_the_default_makes_the_first_the_default() {
    let mut store = Storage::from_templates(vec![named("a", false), named("b", true), named("c", false)]);
    assert_eq!(store.delete("b"), Ok(()));
    assert_eq!(names(&store), vec!["a", "c"]);
    assert!(store.list()[0].default);
    assert!(!store.list()[1].default);
}

#[test]
fn delete_of_the_only_template_leaves_none() {
    let mut store = Storage::from_templates(vec![named("a", true)]);
    assert_eq!(store.delete("a"), Ok(()));
    assert!(store.list().is_empty());
}

#[test]
fn delete_of_an_unknown_name_changes_nothing() {
    let mut store = Storage::from_templates(vec![named("a", true), named("b", false)]);
    assert_eq!(store.delete("z"), Err(NotFoundError));
    assert_eq!(store.list(), &vec![named("a", true), named("b", false)]);
}

#[test]
fn delete_all_leaves_none() {
    let mut store = Storage::from_templates(vec![named("a", true), named("b", false)]);
    store.delete_all();
    assert!(store.list().is_empty());
    store.delete_all();
    assert!(store.list().is_empty());
}

#[test]
fn not_found_says_so() {
    assert_eq!(NotFoundError.message(), "not found");
}
