//! Symbol definitions and types.

use vstd::prelude::*;

verus! {

/// The kind of a Python definition.
#[derive(Debug, Clone, Copy, PartialEq, Eq, Hash)]
pub enum SymbolKind {
    Function,
    Class,
    Method,
    NestedFunction,
    NestedClass,
}

/// A definition found in a Python source file.
#[derive(Debug, PartialEq, Eq, Hash)]
pub struct Symbol {
    pub name: String,
    pub kind: SymbolKind,
    pub file_path: String,
    pub line: usize,
    pub column: usize,
    pub container_name: Option<String>,
    pub module: String,
}

/// The mathematical value of a `Symbol`: its strings taken as character sequences.
pub struct SymbolView {
    pub name: Seq<char>,
    pub kind: SymbolKind,
    pub file_path: Seq<char>,
    pub line: usize,
    pub column: usize,
    pub container_name: Option<Seq<char>>,
    pub module: Seq<char>,
}

impl View for Symbol {
    type V = SymbolView;

    open spec fn view(&self) -> SymbolView {
        SymbolView {
            name: self.name@,
            kind: self.kind,
            file_path: self.file_path@,
            line: self.line,
            column: self.column,
            container_name: match self.container_name {
                Some(c) => Some(c@),
                None => None,
            },
            module: self.module@,
        }
    }
}

impl Clone for Symbol {
    fn clone(&self) -> (res: Self)
        ensures
            res == *self,
    {
        let container_name = match &self.container_name {
            Some(c) => Some(c.clone()),
            None => None,
        };
        Symbol {
            name: self.name.clone(),
            kind: self.kind,
            file_path: self.file_path.clone(),
            line: self.line,
            column: self.column,
            container_name,
            module: self.module.clone(),
        }
    }
}

impl Symbol {
    /// A symbol with no container and an empty module path.
    pub fn new(name: String, kind: SymbolKind, file_path: String, line: usize, column: usize) -> (s: Self)
        ensures
            s.name == name,
            s.kind == kind,
            s.file_path == file_path,
            s.line == line,
            s.column == column,
            s.container_name.is_none(),
            s.module@ == Seq::<char>::empty(),
    {
        Symbol {
            name,
            kind,
            file_path,
            line,
            column,
            container_name: None,
            module: String::new(),
        }
    }

    /// The same symbol, with `container` as its container name.
    pub fn with_container(self, container: String) -> (s: Self)
        ensures
            s == (Symbol { container_name: Some(container), ..self }),
    {
        let mut s = self;
        s.container_name = Some(container);
        s
    }

    /// The same symbol, with `module` as its module path.
    pub fn with_module(self, module: String) -> (s: Self)
        ensures
            s == (Symbol { module: module, ..self }),
    {
        let mut s = self;
        s.module = module;
        s
    }
}

} // verus!
