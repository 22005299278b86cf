use pylight::parser::PythonParser;
use pylight::{SymbolIndex, SymbolKind};

const SIMPLE_PY: &str = r#""""Simple test fixture."""

def simple_function():
    return 42


def function_with_args(a, b, c=None):
    return a + b


class SimpleClass:
    def __init__(self):
        self.value = 0

    def method(self):
        return self.value

    def method_with_args(self, x, y):
        return x + y


@decorator
def decorated_function():
    pass


@property
def property_function():
    return None


class AnotherClass(SimpleClass):
    def method(self):
        return super().method()
"#;

const NESTED_PY: &str = r#"def outer_function():
    def inner_function():
        def deeply_nested():
            pass
        return deeply_nested
    return inner_function


class OuterClass:
    class InnerClass:
        def inner_method(self):
            pass
"#;

const DECORATORS_PY: &str = r#"import functools


@decorator
def decorated_function():
    pass


class Example:
    @property
    def property_method(self):
        return 1

    @staticmethod
    def static_method():
        return 2

    @classmethod
    def class_method(cls):
        return 3


@first
@second(arg=1)
def multi_decorated():
    pass
"#;

#[test]
fn test_extract_simple_symbols() {
    let content = SIMPLE_PY;
    let path = "tests/fixtures/simple.py";

    let mut parser = PythonParser::new().expect("Failed to create parser");
    let symbols = parser.parse_file(path, content).expect("Failed to parse file");

    let symbol_names: Vec<&str> = symbols.iter().map(|s| s.name.as_str()).collect();

    assert!(symbol_names.contains(&"simple_function"));
    assert!(symbol_names.contains(&"function_with_args"));
    assert!(symbol_names.contains(&"decorated_function"));
    assert!(symbol_names.contains(&"property_function"));

    assert!(symbol_names.contains(&"SimpleClass"));
    assert!(symbol_names.contains(&"AnotherClass"));

    assert!(symbol_names.contains(&"__init__"));
    assert!(symbol_names.contains(&"method"));
    assert!(symbol_names.contains(&"method_with_args"));

    let simple_func = symbols.iter().find(|s| s.name == "simple_function").unwrap();
    assert_eq!(simple_func.kind, SymbolKind::Function);

    let simple_class = symbols.iter().find(|s| s.name == "SimpleClass").unwrap();
    assert_eq!(simple_class.kind, SymbolKind::Class);

    let method = symbols.iter().find(|s| s.name == "method" && s.container_name.is_some()).unwrap();
    assert_eq!(method.kind, SymbolKind::Method);
    assert_eq!(method.container_name.as_deref(), Some("SimpleClass"));
}

#[test]
fn test_extract_nested_symbols() {
    let content = NESTED_PY;
    let path = "tests/fixtures/nested.py";

    let mut parser = PythonParser::new().expect("Failed to create parser");
    let symbols = parser.parse_file(path, content).expect("Failed to parse file");

    let inner_func = symbols.iter().find(|s| s.name == "inner_function").unwrap();
    assert_eq!(inner_func.kind, SymbolKind::NestedFunction);
    assert_eq!(inner_func.container_name.as_deref(), Some("outer_function"));

    let deeply_nested = symbols.iter().find(|s| s.name == "deeply_nested").unwrap();
    assert_eq!(deeply_nested.kind, SymbolKind::NestedFunction);
    assert_eq!(deeply_nested.container_name.as_deref(), Some("outer_function.inner_function"));

    let inner_class = symbols.iter().find(|s| s.name == "InnerClass").unwrap();
    assert_eq!(inner_class.kind, SymbolKind::NestedClass);
    assert_eq!(inner_class.container_name.as_deref(), Some("OuterClass"));

    let inner_method = symbols.iter().find(|s| s.name == "inner_method").unwrap();
    assert_eq!(inner_method.kind, SymbolKind::Method);
    assert_eq!(inner_method.container_name.as_deref(), Some("OuterClass.InnerClass"));
}

#[test]
fn test_symbol_line_numbers() {
    let content = SIMPLE_PY;
    let path = "tests/fixtures/simple.py";

    let mut parser = PythonParser::new().expect("Failed to create parser");
    let symbols = parser.parse_file(path, content).expect("Failed to parse file");

    let simple_func = symbols.iter().find(|s| s.name == "simple_function").unwrap();
    assert_eq!(simple_func.line, 3);

    let simple_class = symbols.iter().find(|s| s.name == "SimpleClass").unwrap();
    assert_eq!(simple_class.line, 11);
}

#[test]
fn test_decorated_symbols() {
    let content = DECORATORS_PY;
    let path = "tests/fixtures/decorators.py";

    let mut parser = PythonParser::new().expect("Failed to create parser");
    let symbols = parser.parse_file(path, content).expect("Failed to parse file");

    let decorated_names = vec!["decorated_function", "property_method", "static_method", "class_method", "multi_decorated"];

    for name in decorated_names {
        assert!(symbols.iter().any(|s| s.name == name), "Missing decorated function: {name}");
    }
}

#[test]
fn strings_comments_and_brackets_do_not_define_symbols() {
    let content = "class C:\n    \"\"\"Docs.\ndef not_a_function():\n\"\"\"\n    x = foo(\n1,\n)  # def nope(): pass\n    def real(self):\n        s = 'def fake(): pass'\n        return s\n";
    let mut parser = PythonParser::new().unwrap();
    let symbols = parser.parse_file("/w/c.py", content).unwrap();
    let names: Vec<&str> = symbols.iter().map(|s| s.name.as_str()).collect();
    assert_eq!(names, vec!["C", "real"]);
    assert_eq!(symbols[1].kind, SymbolKind::Method);
    assert_eq!(symbols[1].container_name.as_deref(), Some("C"));
    assert_eq!((symbols[1].line, symbols[1].column), (8, 4));
    assert_eq!(symbols[1].file_path, "/w/c.py");
}

#[test]
fn async_definitions_and_dedent() {
    let content = "async def fetch():\n    pass\n\nclass K:\n    async  def run(self):\n        pass\ndef after():\n    pass\n";
    let mut parser = PythonParser::new().unwrap();
    let symbols = parser.parse_file("k.py", content).unwrap();
    let found: Vec<(&str, SymbolKind, Option<&str>)> =
        symbols.iter().map(|s| (s.name.as_str(), s.kind, s.container_name.as_deref())).collect();
    assert_eq!(
        found,
        vec![
            ("fetch", SymbolKind::Function, None),
            ("K", SymbolKind::Class, None),
            ("run", SymbolKind::Method, Some("K")),
            ("after", SymbolKind::Function, None),
        ]
    );
}

#[test]
fn definitions_inside_blocks_and_classes_in_functions() {
    let content = "if True:\n    def guarded():\n        class Local:\n            pass\n";
    let mut parser = PythonParser::new().unwrap();
    let symbols = parser.parse_file("g.py", content).unwrap();
    assert_eq!(symbols.len(), 2);
    assert_eq!(symbols[0].kind, SymbolKind::Function);
    assert_eq!(symbols[1].kind, SymbolKind::NestedClass);
    assert_eq!(symbols[1].container_name.as_deref(), Some("guarded"));
}

#[test]
fn symbols_come_in_line_order_from_their_file() {
    let source = "class A:\n    def f(self):\n        pass\n\n    class B:\n        def g(self): pass\n\ndef h():\n    def i():\n        pass\n";
    let mut parser = PythonParser::new().unwrap();
    let symbols = parser.parse_file("/w/m.py", source).unwrap();
    let names: Vec<&str> = symbols.iter().map(|s| s.name.as_str()).collect();
    assert_eq!(names, vec!["A", "f", "B", "g", "h", "i"]);
    let lines: Vec<usize> = symbols.iter().map(|s| s.line).collect();
    assert_eq!(lines, vec![1, 2, 5, 6, 8, 9]);
    assert!(symbols.iter().all(|s| s.file_path == "/w/m.py"));
    assert!(symbols.iter().all(|s| s.container_name.is_some()
        == matches!(s.kind, SymbolKind::Method | SymbolKind::NestedFunction | SymbolKind::NestedClass)));
    assert_eq!(symbols[3].container_name.as_deref(), Some("A.B"));
}

#[test]
fn removing_a_file_undoes_indexing_it() {
    let mut parser = PythonParser::new().unwrap();
    let mut index = SymbolIndex::new();
    index.add_file("/w/keep.py".to_string(), parser.parse_file("/w/keep.py", "def keep():\n    pass\n").unwrap()).unwrap();
    let parsed = parser.parse_file("/w/m.py", "def a():\n    pass\nclass C:\n    pass\n").unwrap();
    index.add_file("/w/m.py".to_string(), parsed).unwrap();
    assert_eq!(index.get_all_symbols().len(), 3);
    index.remove_file("/w/m.py").unwrap();
    let left = index.get_all_symbols();
    assert_eq!(left.len(), 1);
    assert_eq!(left[0].name, "keep");
    assert_eq!(index.get_file_count(), 1);
    assert!(index.get_file_symbols("/w/m.py").is_none());
}
