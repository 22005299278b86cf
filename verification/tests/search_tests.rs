use std::sync::Arc;

use pylight::{SearchEngine, Symbol, SymbolKind};

fn create_test_symbols() -> Vec<Arc<Symbol>> {
    vec![
        Arc::new(Symbol::new("test_function".to_string(), SymbolKind::Function, "test.py".to_string(), 1, 0)),
        Arc::new(Symbol::new("TestClass".to_string(), SymbolKind::Class, "test.py".to_string(), 10, 0)),
        Arc::new(Symbol::new("another_test_func".to_string(), SymbolKind::Function, "test.py".to_string(), 20, 0)),
        Arc::new(Symbol::new("helper_function".to_string(), SymbolKind::Function, "helper.py".to_string(), 5, 0)),
        Arc::new(Symbol::new("HelperClass".to_string(), SymbolKind::Class, "helper.py".to_string(), 15, 0)),
        Arc::new(
            Symbol::new("test_method".to_string(), SymbolKind::Method, "test.py".to_string(), 12, 4)
                .with_container("TestClass".to_string()),
        ),
    ]
}

#[test]
fn test_search_engine_creation() {
    let engine = SearchEngine::new();
    let results = engine.search("test", &[]);
    assert_eq!(results.len(), 0);
}

#[test]
fn test_search_basic() {
    let engine = SearchEngine::new();
    let symbols = vec![
        Arc::new(Symbol::new("test_function".to_string(), SymbolKind::Function, "test.py".to_string(), 1, 0)),
        Arc::new(Symbol::new("another_function".to_string(), SymbolKind::Function, "test.py".to_string(), 2, 0)),
    ];
    let results = engine.search("test", &symbols);
    assert_eq!(results.len(), 1);
    assert_eq!(results[0].symbol.name, "test_function");
}

#[test]
fn test_exact_match() {
    let engine = SearchEngine::new();
    let symbols = create_test_symbols();
    let results = engine.search("test_function", &symbols);
    assert_eq!(results.len(), 1);
    assert_eq!(results[0].symbol.name, "test_function");
}

#[test]
fn test_fuzzy_match() {
    let engine = SearchEngine::new();
    let symbols = create_test_symbols();
    let results = engine.search("test", &symbols);
    assert!(results.len() >= 3);
    let matched_names: Vec<&str> = results.iter().map(|r| r.symbol.name.as_str()).collect();
    assert!(matched_names.contains(&"test_function"));
    assert!(matched_names.contains(&"TestClass"));
    assert!(matched_names.contains(&"test_method"));
}

#[test]
fn test_case_insensitive_search() {
    let engine = SearchEngine::new();
    let symbols = create_test_symbols();
    let results = engine.search("testclass", &symbols);
    assert!(results.iter().any(|r| r.symbol.name == "TestClass"));
}

#[test]
fn test_partial_match() {
    let engine = SearchEngine::new();
    let symbols = create_test_symbols();
    let results = engine.search("help", &symbols);
    assert!(results.iter().any(|r| r.symbol.name == "helper_function"));
    assert!(results.iter().any(|r| r.symbol.name == "HelperClass"));
}

#[test]
fn test_empty_query() {
    let engine = SearchEngine::new();
    let symbols = create_test_symbols();
    let results = engine.search("", &symbols);
    assert_eq!(results.len(), 0);
}

#[test]
fn test_no_matches() {
    let engine = SearchEngine::new();
    let symbols = create_test_symbols();
    let results = engine.search("xyz123", &symbols);
    assert_eq!(results.len(), 0);
}

#[test]
fn test_search_result_ordering() {
    let engine = SearchEngine::new();
    let symbols = create_test_symbols();
    let results = engine.search("test", &symbols);
    for i in 1..results.len() {
        assert!(results[i - 1].score >= results[i].score, "Results not properly sorted by score");
    }
}

#[test]
fn equal_scores_keep_their_order() {
    let engine = SearchEngine::new();
    let symbols = vec![
        Arc::new(Symbol::new("abc".to_string(), SymbolKind::Function, "one.py".to_string(), 1, 0)),
        Arc::new(Symbol::new("abc".to_string(), SymbolKind::Function, "two.py".to_string(), 2, 0)),
        Arc::new(Symbol::new("abc".to_string(), SymbolKind::Function, "three.py".to_string(), 3, 0)),
    ];
    let results = engine.search("abc", &symbols);
    let files: Vec<&str> = results.iter().map(|r| r.symbol.file_path.as_str()).collect();
    assert_eq!(files, vec!["one.py", "two.py", "three.py"]);
}

#[test]
fn better_matches_come_first() {
    let engine = SearchEngine::new();
    let symbols = vec![
        Arc::new(Symbol::new("x_t_e_s_t".to_string(), SymbolKind::Function, "a.py".to_string(), 1, 0)),
        Arc::new(Symbol::new("test".to_string(), SymbolKind::Function, "a.py".to_string(), 2, 0)),
    ];
    let results = engine.search("test", &symbols);
    assert_eq!(results.len(), 2);
    assert_eq!(results[0].symbol.name, "test");
    assert!(results[0].score > results[1].score);
}
