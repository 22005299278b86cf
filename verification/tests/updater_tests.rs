use pylight::updater::{UpdateAction, UpdaterState};
use pylight::{FileEvent, IndexUpdater, Symbol, SymbolIndex, SymbolKind};

fn sym(name: &str, file: &str) -> Symbol {
    Symbol::new(name.to_string(), SymbolKind::Function, file.to_string(), 1, 0)
}

#[test]
fn test_updater_creation() {
    let temp_dir = tempfile::TempDir::new().unwrap();
    let index = SymbolIndex::new();
    let updater = IndexUpdater::new(index, temp_dir.path().to_string_lossy().into_owned());
    assert_eq!(updater.state(), UpdaterState::Idle);
}

#[test]
fn test_should_watch_python_files() {
    let temp_dir = tempfile::TempDir::new().unwrap();
    let index = SymbolIndex::new();
    let updater = IndexUpdater::new(index, temp_dir.path().to_string_lossy().into_owned());
    assert!(updater.should_watch("test.py"));
    assert!(updater.should_watch("path/to/file.py"));
    assert!(!updater.should_watch("test.txt"));
    assert!(!updater.should_watch("test.js"));
    assert!(!updater.should_watch("test"));
}

#[test]
fn hidden_and_odd_names_are_not_python_files() {
    let updater = IndexUpdater::new(SymbolIndex::new(), "/w".to_string());
    assert!(!updater.should_watch(".py"));
    assert!(!updater.should_watch("dir.py/.."));
    assert!(updater.should_watch("dir/x.py/."));
    assert!(updater.should_watch("a.b.py"));
}

#[test]
fn a_changed_file_is_parsed_then_recorded() {
    let mut updater = IndexUpdater::new(SymbolIndex::new(), "/w".to_string());
    match updater.handle_event_internal(FileEvent::FileChanged("/w/a.py".to_string())) {
        UpdateAction::ParseFile(p) => assert_eq!(p, "/w/a.py"),
        other => panic!("unexpected action {:?}", other),
    }
    assert_eq!(updater.state(), UpdaterState::Updating);
    updater.finish_file_update("/w/a.py".to_string(), Some(vec![sym("f", "/w/a.py")]));
    assert_eq!(updater.state(), UpdaterState::Idle);
    assert_eq!(updater.index().get_file_symbols("/w/a.py").unwrap().len(), 1);
}

#[test]
fn a_removed_file_leaves_at_once() {
    let mut index = SymbolIndex::new();
    index.add_file("/w/a.py".to_string(), vec![sym("f", "/w/a.py")]).unwrap();
    let mut updater = IndexUpdater::new(index, "/w".to_string());
    assert!(matches!(updater.handle_event_internal(FileEvent::FileRemoved("/w/a.py".to_string())), UpdateAction::Done));
    assert_eq!(updater.state(), UpdaterState::Idle);
    assert!(updater.index().get_file_symbols("/w/a.py").is_none());
    assert_eq!(updater.index().get_all_symbols().len(), 0);
}

#[test]
fn events_during_a_reindex_are_queued_and_handed_back_in_order() {
    let mut index = SymbolIndex::new();
    index.add_file("/w/a.py".to_string(), vec![sym("f", "/w/a.py")]).unwrap();
    let mut updater = IndexUpdater::new(index, "/w".to_string());
    let action = updater.handle_event_internal(FileEvent::BulkChange(vec!["/w/a.py".to_string(), "/w/b.py".to_string()]));
    match action {
        UpdateAction::FullReindex(root) => assert_eq!(root, "/w"),
        other => panic!("unexpected action {:?}", other),
    }
    assert_eq!(updater.state(), UpdaterState::ReIndexing);
    assert!(matches!(updater.handle_event_internal(FileEvent::FileRemoved("/w/a.py".to_string())), UpdateAction::Queued));
    assert!(matches!(updater.handle_event_internal(FileEvent::FileChanged("/w/c.py".to_string())), UpdateAction::Queued));
    // Queued events are not applied early.
    assert!(updater.index().get_file_symbols("/w/a.py").is_some());
    let mut fresh = SymbolIndex::new();
    fresh.add_file("/w/b.py".to_string(), vec![sym("g", "/w/b.py")]).unwrap();
    let pending = updater.finish_full_reindex(Some(fresh));
    assert_eq!(updater.state(), UpdaterState::Idle);
    assert_eq!(pending.len(), 2);
    assert!(matches!(&pending[0], FileEvent::FileRemoved(p) if p == "/w/a.py"));
    assert!(matches!(&pending[1], FileEvent::FileChanged(p) if p == "/w/c.py"));
    assert!(updater.index().get_file_symbols("/w/b.py").is_some());
    assert!(updater.index().get_file_symbols("/w/a.py").is_none());
}

#[test]
fn every_bulk_change_is_a_full_reindex() {
    let mut index = SymbolIndex::new();
    for name in ["/w/a.py", "/w/b.py", "/w/c.py"] {
        index.add_file(name.to_string(), vec![sym("f", name)]).unwrap();
    }
    let mut updater = IndexUpdater::new(index, "/w".to_string());
    // One changed file out of three still re-indexes the whole workspace.
    match updater.handle_event_internal(FileEvent::BulkChange(vec!["/w/a.py".to_string()])) {
        UpdateAction::FullReindex(root) => assert_eq!(root, "/w"),
        other => panic!("unexpected action {:?}", other),
    }
    assert_eq!(updater.state(), UpdaterState::ReIndexing);
    let mut fresh = SymbolIndex::new();
    fresh.add_file("/w/a.py".to_string(), vec![sym("new", "/w/a.py")]).unwrap();
    let pending = updater.finish_full_reindex(Some(fresh));
    assert!(pending.is_empty());
    assert_eq!(updater.state(), UpdaterState::Idle);
    assert_eq!(updater.index().get_file_symbols("/w/a.py").unwrap()[0].name, "new");
    assert!(updater.index().get_file_symbols("/w/b.py").is_none());
}
