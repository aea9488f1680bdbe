use schwimark::mark::{SchWiMark, StoreError};
use schwimark::opener::{after_attempt, open_mark, open_plan, OpenStep};
use schwimark::store::Store;

fn s(x: &str) -> String {
    x.to_string()
}

#[test]
fn failing_application_falls_back_to_default_once() {
    let mark = SchWiMark::new(1, s("m"), s(""), s("https://example.com"), s("nonexistent-binary"));
    let step = open_plan(&mark);
    assert!(matches!(&step, OpenStep::WithApplication { application, target }
        if application == "nonexistent-binary" && target == "https://example.com"));
    let step = after_attempt(step, Err(s("not found")));
    assert!(matches!(&step, OpenStep::WithDefault { target, earlier: Some(e) }
        if target == "https://example.com" && e == "not found"));
    let failed = after_attempt(step, Err(s("no handler")));
    match failed {
        OpenStep::Failed { causes } => assert_eq!(causes, vec![s("not found"), s("no handler")]),
        _ => panic!("expected a failure"),
    }
}

#[test]
fn fallback_success_opens() {
    let mark = SchWiMark::new(1, s("m"), s(""), s("/tmp/x"), s("nonexistent-binary"));
    let step = after_attempt(open_plan(&mark), Err(s("e")));
    let done = after_attempt(step, Ok(()));
    assert!(matches!(done, OpenStep::Opened));
    assert!(matches!(after_attempt(done, Err(s("late"))), OpenStep::Opened));
}

#[test]
fn application_success_opens_directly() {
    let mark = SchWiMark::new(1, s("m"), s(""), s("/tmp/x"), s("feh"));
    assert!(matches!(after_attempt(open_plan(&mark), Ok(())), OpenStep::Opened));
}

#[test]
fn no_application_uses_default_only() {
    let mark = SchWiMark::new(1, s("m"), s(""), s("https://example.com"), s(""));
    let step = open_plan(&mark);
    assert!(matches!(&step, OpenStep::WithDefault { earlier: None, .. }));
    match after_attempt(step, Err(s("boom"))) {
        OpenStep::Failed { causes } => assert_eq!(causes, vec![s("boom")]),
        _ => panic!("expected a failure"),
    }
}

#[test]
fn open_mark_looks_up_the_store() {
    let mut store = Store::new();
    store.add_mark(s("m"), s(""), s("https://example.com"), s("firefox"), vec![]).unwrap();
    assert!(matches!(open_mark(&store, 1), Ok(OpenStep::WithApplication { .. })));
    assert!(matches!(open_mark(&store, 2), Err(StoreError::NotFound)));
}
