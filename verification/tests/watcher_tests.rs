use pylight::watcher::{classify_debounced_events, DebouncedChange};
use pylight::{FileEvent, WatcherConfig};

#[test]
fn test_watcher_config_default() {
    let config = WatcherConfig::default();
    assert_eq!(config.debounce_ms, 100);
    assert_eq!(config.timeout_ms, 60000);
    assert_eq!(config.batch_threshold, 10);
}

fn change(path: &str, exists: bool, watched: bool) -> DebouncedChange {
    DebouncedChange { path: path.to_string(), is_any: true, exists, watched }
}

#[test]
fn few_changes_become_one_event_each_after_removals() {
    let events = vec![
        change("/a.py", true, true),
        change("/gone.py", false, true),
        change("/a.py", true, true),
        change("/notes.txt", true, false),
        change("/b.py", true, true),
    ];
    let out = classify_debounced_events(&events, 10);
    assert_eq!(out.len(), 3);
    assert!(matches!(&out[0], FileEvent::FileRemoved(p) if p == "/gone.py"));
    assert!(matches!(&out[1], FileEvent::FileChanged(p) if p == "/a.py"));
    assert!(matches!(&out[2], FileEvent::FileChanged(p) if p == "/b.py"));
}

#[test]
fn many_changes_become_one_bulk_event() {
    let events: Vec<DebouncedChange> = (0..3).map(|i| change(&format!("/f{}.py", i), true, true)).collect();
    let out = classify_debounced_events(&events, 3);
    assert_eq!(out.len(), 1);
    match &out[0] {
        FileEvent::BulkChange(paths) => assert_eq!(paths, &vec!["/f0.py", "/f1.py", "/f2.py"]),
        other => panic!("unexpected event {:?}", other),
    }
}

#[test]
fn continuous_changes_are_not_reported() {
    let events = vec![DebouncedChange { path: "/a.py".to_string(), is_any: false, exists: true, watched: true }];
    assert_eq!(classify_debounced_events(&events, 10).len(), 0);
}

#[test]
fn each_removed_path_is_reported_once() {
    let events = vec![
        change("/x.py", false, true),
        change("/y.py", false, true),
        change("/x.py", false, true),
        change("/y.py", false, false),
    ];
    let out = classify_debounced_events(&events, 10);
    assert_eq!(out.len(), 2);
    assert!(matches!(&out[0], FileEvent::FileRemoved(p) if p == "/x.py"));
    assert!(matches!(&out[1], FileEvent::FileRemoved(p) if p == "/y.py"));
}

#[test]
fn the_default_threshold_splits_ten_from_nine() {
    let threshold = WatcherConfig::default().batch_threshold;
    let ten: Vec<DebouncedChange> = (0..10).map(|i| change(&format!("/w/f{}.py", i), true, true)).collect();
    let out = classify_debounced_events(&ten, threshold);
    assert_eq!(out.len(), 1);
    assert!(matches!(&out[0], FileEvent::BulkChange(paths) if paths.len() == 10));
    let nine: Vec<DebouncedChange> = (0..9).map(|i| change(&format!("/w/f{}.py", i), true, true)).collect();
    let out = classify_debounced_events(&nine, threshold);
    assert_eq!(out.len(), 9);
    assert!(out.iter().all(|e| matches!(e, FileEvent::FileChanged(_))));
}
