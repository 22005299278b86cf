use pylight::{Symbol, SymbolIndex, SymbolKind};

fn sym(name: &str, file: &str, line: usize) -> Symbol {
    Symbol::new(name.to_string(), SymbolKind::Function, file.to_string(), line, 0)
}

#[test]
fn test_index_creation() {
    let index = SymbolIndex::new();
    assert_eq!(index.get_all_symbols().len(), 0);
}

#[test]
fn add_then_lookup_gives_the_symbols_back() {
    let mut index = SymbolIndex::new();
    index.add_file("/a.py".to_string(), vec![sym("f", "/a.py", 1), sym("g", "/a.py", 2)]).unwrap();
    index.add_file("/b.py".to_string(), vec![sym("h", "/b.py", 3)]).unwrap();
    let a = index.get_file_symbols("/a.py").unwrap();
    assert_eq!(a.len(), 2);
    assert_eq!(a[0].name, "f");
    assert_eq!(a[1].name, "g");
    let all: Vec<String> = index.get_all_symbols().into_iter().map(|s| s.name).collect();
    assert_eq!(all, vec!["f", "g", "h"]);
    assert_eq!(index.get_file_count(), 2);
    assert!(index.get_file_symbols("/c.py").is_none());
}

#[test]
fn re_adding_a_file_replaces_its_symbols() {
    let mut index = SymbolIndex::new();
    index.add_file("/a.py".to_string(), vec![sym("f", "/a.py", 1)]).unwrap();
    index.add_file("/b.py".to_string(), vec![sym("h", "/b.py", 3)]).unwrap();
    index.add_file("/a.py".to_string(), vec![sym("f2", "/a.py", 5)]).unwrap();
    let all: Vec<String> = index.get_all_symbols().into_iter().map(|s| s.name).collect();
    assert_eq!(all, vec!["h", "f2"]);
    assert_eq!(index.get_file_count(), 2);
}

#[test]
fn remove_undoes_add() {
    let mut index = SymbolIndex::new();
    index.add_file("/b.py".to_string(), vec![sym("h", "/b.py", 3)]).unwrap();
    index.add_file("/a.py".to_string(), vec![sym("f", "/a.py", 1)]).unwrap();
    index.remove_file("/a.py").unwrap();
    assert!(index.get_file_symbols("/a.py").is_none());
    let all: Vec<String> = index.get_all_symbols().into_iter().map(|s| s.name).collect();
    assert_eq!(all, vec!["h"]);
    assert_eq!(index.get_file_count(), 1);
}

#[test]
fn clear_empties_the_index() {
    let mut index = SymbolIndex::new();
    index.add_file("/a.py".to_string(), vec![sym("f", "/a.py", 1)]).unwrap();
    index.clear();
    assert_eq!(index.get_all_symbols().len(), 0);
    assert_eq!(index.get_file_count(), 0);
}

#[test]
fn batch_update_reports_counts() {
    let mut index = SymbolIndex::new();
    let (files, symbols) = index
        .update_files_batch(vec![
            ("/a.py".to_string(), vec![sym("f", "/a.py", 1), sym("g", "/a.py", 2)]),
            ("/b.py".to_string(), vec![sym("h", "/b.py", 3)]),
        ])
        .unwrap();
    assert_eq!((files, symbols), (2, 3));
    assert_eq!(index.get_all_symbols().len(), 3);
}

#[test]
fn symbol_builders_set_their_field() {
    let s = Symbol::new("m".to_string(), SymbolKind::Method, "/a.py".to_string(), 4, 8);
    assert_eq!(s.container_name, None);
    assert_eq!(s.module, "");
    let s = s.with_container("C".to_string()).with_module("pkg.mod".to_string());
    assert_eq!(s.container_name.as_deref(), Some("C"));
    assert_eq!(s.module, "pkg.mod");
    assert_eq!((s.line, s.column), (4, 8));
}
