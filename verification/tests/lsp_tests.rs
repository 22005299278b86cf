use std::sync::Arc;

use pylight::lsp::handlers::{handle_workspace_symbol, LspSymbolKind};
use pylight::lsp::server::{route_request, workspace_symbol_reply, Reply, RequestRoute};
use pylight::{SearchEngine, Symbol, SymbolIndex, SymbolKind};

#[test]
fn test_lsp_handler() {
    let mut index = SymbolIndex::new();
    let search_engine = SearchEngine::new();
    let symbols = vec![
        Symbol::new("test_function".to_string(), SymbolKind::Function, "/test/file.py".to_string(), 10, 0),
        Symbol::new("TestClass".to_string(), SymbolKind::Class, "/test/file.py".to_string(), 20, 0),
    ];
    index.add_file("/test/file.py".to_string(), symbols).unwrap();
    let results = handle_workspace_symbol("test", &index, &search_engine).unwrap();
    assert_eq!(results.len(), 2);
    assert!(results.iter().any(|s| s.name == "test_function"));
    assert!(results.iter().any(|s| s.name == "TestClass"));
}

#[test]
fn test_empty_query_returns_empty() {
    let index = SymbolIndex::new();
    let search_engine = SearchEngine::new();
    let results = handle_workspace_symbol("", &index, &search_engine).unwrap();
    assert_eq!(results.len(), 0);
}

#[test]
fn records_carry_kind_location_and_container() {
    let mut index = SymbolIndex::new();
    let symbols = vec![
        Symbol::new("run".to_string(), SymbolKind::Method, "/src/app.py".to_string(), 7, 4)
            .with_container("App".to_string()),
        Symbol::new("App".to_string(), SymbolKind::NestedClass, "/src/app.py".to_string(), 0, 0),
    ];
    index.add_file("/src/app.py".to_string(), symbols).unwrap();
    let results = handle_workspace_symbol("run", &index, &SearchEngine::new()).unwrap();
    assert_eq!(results.len(), 1);
    let r = &results[0];
    assert_eq!(r.kind, LspSymbolKind::Method);
    assert_eq!(r.uri, "file:///src/app.py");
    assert_eq!((r.line, r.character), (6, 4));
    assert_eq!(r.container_name.as_deref(), Some("App"));
    let results = handle_workspace_symbol("App", &index, &SearchEngine::new()).unwrap();
    let app = results.iter().find(|r| r.name == "App").unwrap();
    assert_eq!(app.kind, LspSymbolKind::Class);
    assert_eq!(app.line, 0);
}

#[test]
fn relative_paths_have_no_url_and_are_left_out() {
    let mut index = SymbolIndex::new();
    index
        .add_file(
            "rel/file.py".to_string(),
            vec![Symbol::new("helper".to_string(), SymbolKind::Function, "rel/file.py".to_string(), 1, 0)],
        )
        .unwrap();
    let results = handle_workspace_symbol("helper", &index, &SearchEngine::new()).unwrap();
    assert_eq!(results.len(), 0);
}

#[test]
fn at_most_a_hundred_records() {
    let mut index = SymbolIndex::new();
    let symbols: Vec<Symbol> = (0..150)
        .map(|i| Symbol::new(format!("func_{}", i), SymbolKind::Function, "/m.py".to_string(), i + 1, 0))
        .collect();
    index.add_file("/m.py".to_string(), symbols).unwrap();
    let results = handle_workspace_symbol("func", &index, &SearchEngine::new()).unwrap();
    assert_eq!(results.len(), 100);
}

#[test]
fn only_workspace_symbol_requests_are_served() {
    assert_eq!(route_request("workspace/symbol"), RequestRoute::WorkspaceSymbol);
    assert_eq!(route_request("workspace/symbols"), RequestRoute::Unsupported);
    assert_eq!(route_request("textDocument/hover"), RequestRoute::Unsupported);
    assert_eq!(route_request(""), RequestRoute::Unsupported);
}

#[test]
fn workspace_symbol_replies() {
    let mut index = SymbolIndex::new();
    index
        .add_file(
            "/w/a.py".to_string(),
            vec![Symbol::new("alpha".to_string(), SymbolKind::Function, "/w/a.py".to_string(), 3, 0)],
        )
        .unwrap();
    let engine = SearchEngine::new();
    match workspace_symbol_reply(Ok("alp".to_string()), &index, &engine) {
        Reply::Symbols(v) => {
            assert_eq!(v.len(), 1);
            assert_eq!(v[0].name, "alpha");
            assert_eq!(v[0].line, 2);
        }
        other => panic!("unexpected reply {:?}", other),
    }
    match workspace_symbol_reply(Err("missing field `query`".to_string()), &index, &engine) {
        Reply::InvalidParams(m) => assert_eq!(m, "Invalid params: missing field `query`"),
        other => panic!("unexpected reply {:?}", other),
    }
}

#[test]
fn the_answer_follows_a_separate_search() {
    let mut index = SymbolIndex::new();
    let names = ["handle", "handler", "Handler", "do_handle", "h_a_n_d"];
    let symbols: Vec<Symbol> = names
        .iter()
        .enumerate()
        .map(|(i, n)| Symbol::new(n.to_string(), SymbolKind::Function, "/w/m.py".to_string(), i + 1, 0))
        .collect();
    index.add_file("/w/m.py".to_string(), symbols).unwrap();
    let engine = SearchEngine::new();
    let answer = handle_workspace_symbol("hand", &index, &engine).unwrap();
    let all: Vec<Arc<Symbol>> = index.get_all_symbols().into_iter().map(Arc::new).collect();
    let searched = engine.search("hand", &all);
    let expected: Vec<(String, u32)> = searched.iter().map(|r| (r.symbol.name.clone(), (r.symbol.line - 1) as u32)).collect();
    let got: Vec<(String, u32)> = answer.iter().map(|r| (r.name.clone(), r.line)).collect();
    assert_eq!(got, expected);
}
