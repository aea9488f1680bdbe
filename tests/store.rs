use schwimark::mark::{SchWiMark, StoreError, TagRow};
use schwimark::store::Store;

fn s(x: &str) -> String {
    x.to_string()
}

fn sorted(mut v: Vec<String>) -> Vec<String> {
    v.sort();
    v
}

#[test]
fn add_then_get_returns_fields_and_distinct_tags() {
    let mut store = Store::new();
    let (mark, tag) = store
        .add_mark(s("n"), s("d"), s("u"), s("a"), vec![s("y"), s("x"), s("y")])
        .unwrap();
    assert_eq!(mark.id, 1);
    assert_eq!(tag.markid, 1);
    assert_eq!(tag.tags, vec![s("y"), s("x"), s("y")]);
    let (got, tags) = store.get_mark(1).unwrap();
    assert_eq!(got.id, 1);
    assert_eq!(got.name, "n");
    assert_eq!(got.description, "d");
    assert_eq!(got.url, "u");
    assert_eq!(got.application, "a");
    assert_eq!(tags.markid, 1);
    assert_eq!(sorted(tags.tags), vec![s("x"), s("y")]);
}

#[test]
fn duplicate_name_fails_and_leaves_store_unchanged() {
    let mut store = Store::new();
    store.add_mark(s("repo"), s(""), s("u"), s(""), vec![s("t")]).unwrap();
    let r = store.add_mark(s("repo"), s("other"), s("v"), s(""), vec![s("k")]);
    assert_eq!(r.err(), Some(StoreError::DuplicateName));
    let all = store.list_marks_full();
    assert_eq!(all.len(), 1);
    assert_eq!(all[0].0.url, "u");
    assert_eq!(store.get_tags(1), vec![s("t")]);
    assert!(store.get_tags(2).is_empty());
    let (_, _, next) = store.rows();
    assert_eq!(next, 2);
}

#[test]
fn delete_mark_cascades_to_tags() {
    let mut store = Store::new();
    store.add_mark(s("a"), s(""), s("u"), s(""), vec![s("t1"), s("t2")]).unwrap();
    store.add_mark(s("b"), s(""), s("v"), s(""), vec![s("t1")]).unwrap();
    store.delete_mark(1);
    assert!(store.get_tags(1).is_empty());
    assert_eq!(store.get_mark(1).err(), Some(StoreError::NotFound));
    assert_eq!(store.get_tags(2), vec![s("t1")]);
    let (_, rows, _) = store.rows();
    assert_eq!(rows.len(), 1);
}

#[test]
fn delete_missing_mark_is_no_op() {
    let mut store = Store::new();
    store.add_mark(s("a"), s(""), s("u"), s(""), vec![]).unwrap();
    store.delete_mark(42);
    assert_eq!(store.list_marks_full().len(), 1);
}

#[test]
fn ids_are_not_reused_after_delete() {
    let mut store = Store::new();
    store.add_mark(s("a"), s(""), s("u"), s(""), vec![]).unwrap();
    store.delete_mark(1);
    let (m, _) = store.add_mark(s("b"), s(""), s("u"), s(""), vec![]).unwrap();
    assert_eq!(m.id, 2);
}

#[test]
fn clear_twice_leaves_store_empty() {
    let mut store = Store::new();
    store.add_mark(s("a"), s(""), s("u"), s(""), vec![s("t")]).unwrap();
    store.add_mark(s("b"), s(""), s("v"), s(""), vec![]).unwrap();
    store.clear_database();
    store.clear_database();
    assert!(store.list_marks_full().is_empty());
    assert!(store.list_marks_short().is_empty());
    let (marks, rows, next) = store.rows();
    assert!(marks.is_empty());
    assert!(rows.is_empty());
    assert_eq!(next, 3);
}

#[test]
fn tag_removal_loop_empties_tag_set() {
    let mut store = Store::new();
    store.add_mark(s("m"), s(""), s("u"), s(""), vec![s("a"), s("b"), s("c")]).unwrap();
    store.add_mark(s("o"), s(""), s("u"), s(""), vec![s("a")]).unwrap();
    let mut rounds = 0;
    loop {
        let tags = store.get_tags(1);
        if tags.is_empty() {
            break;
        }
        let picked = tags[0].clone();
        store.delete_tag(1, picked.clone());
        let after = store.get_tags(1);
        assert_eq!(after.len() + 1, tags.len());
        assert!(!after.contains(&picked));
        rounds += 1;
    }
    assert_eq!(rounds, 3);
    assert_eq!(store.get_tags(2), vec![s("a")]);
}

#[test]
fn delete_tag_removes_every_matching_row() {
    let mut store = Store::new();
    store.add_mark(s("m"), s(""), s("u"), s(""), vec![s("a"), s("a"), s("b")]).unwrap();
    store.delete_tag(1, s("a"));
    assert_eq!(store.get_tags(1), vec![s("b")]);
}

#[test]
fn scenario_add_list_update() {
    let mut store = Store::new();
    let (m, _) = store
        .add_mark(s("repo"), s("my git host"), s("https://example.com"), s(""), vec![s("dev"), s("web")])
        .unwrap();
    assert_eq!(m.id, 1);
    let short = store.list_marks_short();
    assert_eq!(short.len(), 1);
    assert_eq!(short[0].id, 1);
    assert_eq!(short[0].name, "repo");
    assert_eq!(sorted(short[0].tags.clone()), vec![s("dev"), s("web")]);
    let lines = schwimark::picker::get_marks_short(&store);
    assert_eq!(lines.len(), 1);
    assert!(lines[0] == "1\trepo\tdev\tweb" || lines[0] == "1\trepo\tweb\tdev");
    store.update_url(1, s("https://example.org"));
    assert_eq!(store.get_mark(1).unwrap().0.url, "https://example.org");
}

#[test]
fn update_name_to_taken_name_fails() {
    let mut store = Store::new();
    store.add_mark(s("a"), s(""), s("u"), s(""), vec![]).unwrap();
    store.add_mark(s("b"), s(""), s("u"), s(""), vec![]).unwrap();
    assert_eq!(store.update_name(2, s("a")), Err(StoreError::DuplicateName));
    assert_eq!(store.get_mark(2).unwrap().0.name, "b");
    assert_eq!(store.update_name(2, s("b")), Ok(()));
    assert_eq!(store.update_name(2, s("c")), Ok(()));
    assert_eq!(store.get_mark(2).unwrap().0.name, "c");
}

#[test]
fn update_other_fields() {
    let mut store = Store::new();
    store.add_mark(s("a"), s("d"), s("u"), s(""), vec![]).unwrap();
    store.update_description(1, s("new"));
    store.update_application(1, s("firefox"));
    let m = store.get_mark(1).unwrap().0;
    assert_eq!(m.description, "new");
    assert_eq!(m.application, "firefox");
    assert_eq!(m.url, "u");
}

#[test]
fn add_tags_needs_an_existing_mark() {
    let mut store = Store::new();
    assert_eq!(store.add_tags(1, vec![s("t")]), Err(StoreError::NotFound));
    store.add_mark(s("a"), s(""), s("u"), s(""), vec![s("t")]).unwrap();
    assert_eq!(store.add_tags(1, vec![s("t"), s("v")]), Ok(()));
    assert_eq!(sorted(store.get_tags(1)), vec![s("t"), s("v")]);
    let (_, rows, _) = store.rows();
    assert_eq!(rows.len(), 3);
}

#[test]
fn get_missing_mark_is_not_found() {
    let store = Store::new();
    assert_eq!(store.get_mark(7).err(), Some(StoreError::NotFound));
}

#[test]
fn from_rows_skips_orphan_tags() {
    let marks = vec![
        SchWiMark::new(2, s("a"), s(""), s("u"), s("")),
        SchWiMark::new(5, s("b"), s(""), s("v"), s("")),
    ];
    let rows = vec![
        TagRow { markid: 2, tag: s("x") },
        TagRow { markid: 3, tag: s("lost") },
        TagRow { markid: 5, tag: s("y") },
    ];
    let store = Store::from_rows(marks, rows, 6).unwrap();
    assert_eq!(store.get_tags(2), vec![s("x")]);
    assert_eq!(store.get_tags(5), vec![s("y")]);
    assert!(store.get_tags(3).is_empty());
    let (_, rows, next) = store.rows();
    assert_eq!(rows.len(), 2);
    assert_eq!(next, 6);
}

#[test]
fn from_rows_refuses_broken_marks() {
    let dup = vec![
        SchWiMark::new(1, s("a"), s(""), s("u"), s("")),
        SchWiMark::new(2, s("a"), s(""), s("v"), s("")),
    ];
    assert_eq!(Store::from_rows(dup, vec![], 3).err(), Some(StoreError::StorageError));
    let unordered = vec![
        SchWiMark::new(2, s("a"), s(""), s("u"), s("")),
        SchWiMark::new(1, s("b"), s(""), s("v"), s("")),
    ];
    assert_eq!(Store::from_rows(unordered, vec![], 3).err(), Some(StoreError::StorageError));
    let too_big = vec![SchWiMark::new(3, s("a"), s(""), s("u"), s(""))];
    assert_eq!(Store::from_rows(too_big, vec![], 3).err(), Some(StoreError::StorageError));
}
