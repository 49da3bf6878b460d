use krillin_rs::storage::task_store::{SubtitleTask, TaskStore};

fn task(id: &str, status: &str, progress: u8) -> SubtitleTask {
    SubtitleTask {
        task_id: id.to_string(),
        link: "https://example.com/v".to_string(),
        origin_language: "en".to_string(),
        target_language: "ru".to_string(),
        status: status.to_string(),
        progress,
    }
}

#[test]
fn new_store_holds_nothing() {
    let s = TaskStore::new();
    assert!(s.get("a").is_none());
    assert!(!s.task_exists("a"));
    assert!(!TaskStore::default().task_exists("a"));
}

#[test]
fn stored_task_is_read_back() {
    let mut s = TaskStore::new();
    s.insert(task("a", "running", 10));
    s.insert(task("b", "queued", 0));
    let a = s.get("a").unwrap();
    assert_eq!(a.status, "running");
    assert_eq!(a.progress, 10);
    assert!(s.task_exists("b"));
    assert!(!s.task_exists("c"));
    // A second insert under the same id replaces the task.
    s.insert(task("a", "done", 100));
    assert_eq!(s.get("a").unwrap().status, "done");
    assert_eq!(s.get("b").unwrap().status, "queued");
}

#[test]
fn update_changes_only_the_named_task() {
    let mut s = TaskStore::new();
    s.insert(task("a", "running", 10));
    s.insert(task("b", "queued", 0));
    s.update("a", |mut t| {
        t.progress = 55;
        t
    });
    assert_eq!(s.get("a").unwrap().progress, 55);
    assert_eq!(s.get("b").unwrap().progress, 0);
    s.update("missing", |mut t| {
        t.progress = 1;
        t
    });
    assert!(!s.task_exists("missing"));
}
