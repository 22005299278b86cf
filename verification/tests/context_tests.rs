use pylight::lsp::context::{
    decimal_text, to_lsp_symbol_information, workspace_symbol_records, ContextSymbol, ParentContext, PathRegistry,
    SymbolContext, SymbolType,
};
use pylight::lsp::handlers::{LspSymbolInformation, LspSymbolKind};

fn create_test_path_registry() -> PathRegistry {
    let mut registry = PathRegistry::new();
    registry.register_path("/test/path/file1.py".to_string());
    registry.register_path("/test/path/file2.py".to_string());
    registry
}

fn create_test_symbol(
    name: &str,
    kind: SymbolType,
    line: usize,
    file_index: usize,
    parent: Option<&str>,
    module: &str,
) -> ContextSymbol {
    ContextSymbol {
        name: name.to_string(),
        context: SymbolContext {
            symbol_type: kind,
            line_number: line,
            file_path_index: file_index,
            parent_context: parent
                .map(|p| {
                    vec![ParentContext { name: p.to_string(), line_number: 0, symbol_type: SymbolType::Function }]
                })
                .unwrap_or_default(),
            fully_qualified_module: module.to_string(),
            module: module.to_string(),
        },
    }
}

#[test]
fn test_to_lsp_symbol_information_conversion() {
    let registry = create_test_path_registry();
    let symbol = create_test_symbol("my_function", SymbolType::Function, 10, 0, None, "file1");
    let score = 100;

    let lsp_info_opt = to_lsp_symbol_information(&symbol, &registry, score, true);

    assert!(lsp_info_opt.is_some());
    let lsp_info = lsp_info_opt.unwrap();
    assert_eq!(lsp_info.name, "my_function (100)");
    assert_eq!(lsp_info.kind, LspSymbolKind::Function);
    assert_eq!(lsp_info.uri, "file:///test/path/file1.py");
    assert_eq!((lsp_info.line, lsp_info.character), (9, 0));
    assert_eq!(lsp_info.container_name, Some("file1".to_string()));
}

#[test]
fn test_to_lsp_symbol_information_class_conversion() {
    let registry = create_test_path_registry();
    let symbol = create_test_symbol("MyClass", SymbolType::Class, 25, 1, None, "file2");
    let score = 50;

    let lsp_info_opt = to_lsp_symbol_information(&symbol, &registry, score, true);

    assert!(lsp_info_opt.is_some());
    let lsp_info = lsp_info_opt.unwrap();
    assert_eq!(lsp_info.name, "MyClass (50)");
    assert_eq!(lsp_info.kind, LspSymbolKind::Class);
    assert_eq!(lsp_info.uri, "file:///test/path/file2.py");
    assert_eq!(lsp_info.line, 24);
    assert_eq!(lsp_info.container_name, Some("file2".to_string()));
}

#[test]
fn test_to_lsp_symbol_information_method_conversion() {
    let registry = create_test_path_registry();
    let symbol = create_test_symbol("my_method", SymbolType::Method, 30, 1, Some("MyClass"), "file2");
    let score = 75;

    let lsp_info_opt = to_lsp_symbol_information(&symbol, &registry, score, true);

    assert!(lsp_info_opt.is_some());
    let lsp_info = lsp_info_opt.unwrap();
    assert_eq!(lsp_info.name, "my_method (75)");
    assert_eq!(lsp_info.kind, LspSymbolKind::Function);
    assert_eq!(lsp_info.uri, "file:///test/path/file2.py");
    assert_eq!(lsp_info.line, 29);
    assert_eq!(lsp_info.container_name, Some("MyClass".to_string()));
}

#[test]
fn test_handle_workspace_symbol_request_empty_query() {
    let registry = create_test_path_registry();
    let results = vec![(create_test_symbol("func_a", SymbolType::Function, 5, 0, None, "file1"), 10)];
    let records = workspace_symbol_records("", &results, &registry, true);
    assert!(records.is_empty());
}

#[test]
fn names_without_score_and_nested_kinds() {
    let registry = create_test_path_registry();
    let inner = create_test_symbol("Inner", SymbolType::NestedClass, 1, 0, None, "pkg.mod");
    let r = to_lsp_symbol_information(&inner, &registry, 7, false).unwrap();
    assert_eq!(r.name, "Inner");
    assert_eq!(r.kind, LspSymbolKind::Class);
    assert_eq!(r.line, 0);
    assert_eq!(r.container_name.as_deref(), Some("pkg.mod"));
    let nested = create_test_symbol("helper", SymbolType::NestedFunction, 0, 1, None, "m");
    let r = to_lsp_symbol_information(&nested, &registry, -3, true).unwrap();
    assert_eq!(r.name, "helper (-3)");
    assert_eq!(r.kind, LspSymbolKind::Variable);
    assert_eq!(r.line, 0);
}

#[test]
fn container_joins_parents_with_dots() {
    let registry = create_test_path_registry();
    let mut symbol = create_test_symbol("deep", SymbolType::Method, 3, 0, Some("Outer"), "m");
    symbol.context.parent_context.push(ParentContext {
        name: "Inner".to_string(),
        line_number: 2,
        symbol_type: SymbolType::NestedClass,
    });
    let r = to_lsp_symbol_information(&symbol, &registry, 0, false).unwrap();
    assert_eq!(r.container_name.as_deref(), Some("Outer.Inner"));
}

#[test]
fn relative_registered_paths_give_no_record() {
    let mut registry = PathRegistry::new();
    let i = registry.register_path("relative/file.py".to_string());
    assert_eq!(i, 0);
    assert_eq!(registry.len(), 1);
    assert_eq!(registry.get_path(0), "relative/file.py");
    let symbol = create_test_symbol("f", SymbolType::Function, 1, 0, None, "m");
    assert!(to_lsp_symbol_information(&symbol, &registry, 1, true).is_none());
}

#[test]
fn workspace_records_keep_order_skip_failures_and_stop_at_a_hundred() {
    let mut registry = create_test_path_registry();
    registry.register_path("not/absolute.py".to_string());
    let mut results = Vec::new();
    results.push((create_test_symbol("skipped", SymbolType::Function, 1, 2, None, "m"), 99));
    for i in 0..120usize {
        results.push((create_test_symbol(&format!("f{}", i), SymbolType::Function, i + 1, i % 2, None, "m"), 50));
    }
    let records: Vec<LspSymbolInformation> = workspace_symbol_records("f", &results, &registry, false);
    assert_eq!(records.len(), 100);
    assert_eq!(records[0].name, "f0");
    assert_eq!(records[99].name, "f99");
    assert_eq!(records[1].uri, "file:///test/path/file2.py");
}

#[test]
fn decimal_texts() {
    assert_eq!(decimal_text(0), "0");
    assert_eq!(decimal_text(1234), "1234");
    assert_eq!(decimal_text(-56), "-56");
    assert_eq!(decimal_text(i64::MIN), i64::MIN.to_string());
    assert_eq!(decimal_text(i64::MAX), i64::MAX.to_string());
}
