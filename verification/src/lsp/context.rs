//! Language-server records for symbols that carry their context: their
//! kind, line, file (by index into a registry of paths), enclosing
//! definitions and module.

use vstd::prelude::*;

use crate::lsp::handlers::{file_url, zero_based_line, LspSymbolInformation, LspSymbolInformationView, LspSymbolKind};
use crate::paths::{is_absolute, opt_view, texts};

verus! {

/// The kind of a symbol with context.
#[derive(Debug, Clone, Copy, PartialEq, Eq, Structural)]
pub enum SymbolType {
    Function,
    Class,
    Method,
    NestedFunction,
    NestedClass,
}

/// A definition that encloses a symbol.
#[derive(Debug)]
pub struct ParentContext {
    pub name: String,
    pub line_number: usize,
    pub symbol_type: SymbolType,
}

/// Where a symbol stands.
#[derive(Debug)]
pub struct SymbolContext {
    pub symbol_type: SymbolType,
    /// One-based line number.
    pub line_number: usize,
    /// Index of the symbol's file in the path registry.
    pub file_path_index: usize,
    /// The enclosing definitions, outermost first.
    pub parent_context: Vec<ParentContext>,
    pub fully_qualified_module: String,
    pub module: String,
}

/// A symbol with its context.
#[derive(Debug)]
pub struct ContextSymbol {
    pub name: String,
    pub context: SymbolContext,
}

/// The file paths that symbols refer to by index.
pub struct PathRegistry {
    paths: Vec<String>,
}

impl View for PathRegistry {
    type V = Seq<Seq<char>>;

    closed spec fn view(&self) -> Seq<Seq<char>> {
        texts(self.paths@)
    }
}

impl PathRegistry {
    /// An empty registry.
    pub fn new() -> (r: Self)
        ensures
            r@ == Seq::<Seq<char>>::empty(),
    {
        let r = PathRegistry { paths: Vec::new() };
        assert(r@ =~= Seq::<Seq<char>>::empty());
        r
    }

    /// Registers `path` at the next index, and returns that index.
    pub fn register_path(&mut self, path: String) -> (i: usize)
        ensures
            i == old(self)@.len(),
            final(self)@ == old(self)@.push(path@),
    {
        let i = self.paths.len();
        let ghost before = self.paths@;
        self.paths.push(path);
        assert(texts(self.paths@) =~= texts(before).push(self.paths@[i as int]@));
        i
    }

    /// The number of registered paths.
    pub fn len(&self) -> (n: usize)
        ensures
            n == self@.len(),
    {
        self.paths.len()
    }

    /// The path registered at `index`.
    pub fn get_path(&self, index: usize) -> (p: &String)
        requires
            index < self@.len(),
        ensures
            p@ == self@[index as int],
    {
        &self.paths[index]
    }
}

/// Whether a text parses as a language-server URI (`lsp_types::Uri::from_str`).
pub uninterp spec fn lsp_uri_parses(text: Seq<char>) -> bool;

/// The longest text, in UTF-8 bytes, that `lsp_types::Uri::from_str` takes:
/// its parser panics on a longer one.
pub open spec fn max_uri_bytes() -> nat {
    2147483647
}

/// `text.parse::<lsp_types::Uri>().is_ok()`, named `lsp_uri_parses`, on a
/// text of at most `max_uri_bytes` bytes (the parser panics beyond).
#[verifier::external_body]
fn uri_parses(text: &str) -> (r: bool)
    requires
        vstd::utf8::encode_utf8(text@).len() <= max_uri_bytes(),
    ensures
        r == lsp_uri_parses(text@),
{
    text.parse::<lsp_types::Uri>().is_ok()
}

/// The decimal digits of `m`.
pub open spec fn digits(m: nat) -> Seq<char>
    decreases m,
{
    if m < 10 {
        seq![digit_char(m)]
    } else {
        digits(m / 10).push(digit_char(m % 10))
    }
}

pub open spec fn digit_char(d: nat) -> char {
    if d == 0 { '0' } else if d == 1 { '1' } else if d == 2 { '2' } else if d == 3 { '3' } else if d == 4 { '4' }
    else if d == 5 { '5' } else if d == 6 { '6' } else if d == 7 { '7' } else if d == 8 { '8' } else { '9' }
}

/// The decimal text of `n`, as `Display` writes an integer: a minus sign
/// for a negative number, then the digits without leading zeros.
pub open spec fn decimal(n: int) -> Seq<char> {
    if n < 0 { seq!['-'] + digits((-n) as nat) } else { digits(n as nat) }
}

fn digit_exec(d: u64) -> (c: char)
    requires
        d < 10,
    ensures
        c == digit_char(d as nat),
{
    if d == 0 { '0' } else if d == 1 { '1' } else if d == 2 { '2' } else if d == 3 { '3' } else if d == 4 { '4' }
    else if d == 5 { '5' } else if d == 6 { '6' } else if d == 7 { '7' } else if d == 8 { '8' } else { '9' }
}

/// The decimal digits of `m`.
fn digits_exec(m: u64) -> (r: Vec<char>)
    ensures
        r@ == digits(m as nat),
    decreases m,
{
    if m < 10 {
        let mut r: Vec<char> = Vec::new();
        r.push(digit_exec(m));
        assert(r@ =~= digits(m as nat));
        r
    } else {
        let mut r = digits_exec(m / 10);
        r.push(digit_exec(m % 10));
        r
    }
}

/// The decimal text of `n` (see `decimal`).
pub fn decimal_text(n: i64) -> (s: String)
    ensures
        s@ == decimal(n as int),
{
    let magnitude: u64 = if n < 0 { (-(n as i128)) as u64 } else { n as u64 };
    let d = digits_exec(magnitude);
    let mut s = String::new();
    if n < 0 {
        crate::paths::push_char(&mut s, '-');
    }
    let t = crate::paths::string_of(&d);
    s.append(t.as_str());
    assert(s@ =~= decimal(n as int));
    s
}

/// The language-server kind of a symbol type: classes as classes, functions
/// and methods as functions, anything else as a variable.
pub open spec fn type_kind(t: SymbolType) -> LspSymbolKind {
    match t {
        SymbolType::Class | SymbolType::NestedClass => LspSymbolKind::Class,
        SymbolType::Function | SymbolType::Method => LspSymbolKind::Function,
        _ => LspSymbolKind::Variable,
    }
}

/// The names joined with dots.
pub open spec fn dotted(names: Seq<Seq<char>>) -> Seq<char>
    decreases names.len(),
{
    if names.len() == 0 {
        Seq::empty()
    } else if names.len() == 1 {
        names[0]
    } else {
        dotted(names.drop_last()) + seq!['.'] + names.last()
    }
}

/// The container of a symbol: its enclosing definitions joined with dots,
/// or, when it has none, its fully qualified module.
pub open spec fn container_of(c: SymbolContext) -> Seq<char> {
    if c.parent_context@.len() > 0 {
        dotted(c.parent_context@.map_values(|p: ParentContext| p.name@))
    } else {
        c.fully_qualified_module@
    }
}

/// The name shown for a symbol: with its score in brackets when asked for.
pub open spec fn shown_name(name: Seq<char>, score: i64, with_score: bool) -> Seq<char> {
    if with_score { name + seq![' ', '('] + decimal(score as int) + seq![')'] } else { name }
}

/// The record of a symbol whose file is at `path`, if the path is absolute
/// (has a `file:` URL) and its URL parses as a language-server URI (a URL
/// longer than the URI parser takes gives no record).
pub open spec fn context_record(s: ContextSymbol, path: Seq<char>, score: i64, with_score: bool) -> Option<LspSymbolInformationView> {
    let u = crate::lsp::handlers::file_url_text(path).unwrap();
    if !is_absolute(path) || vstd::utf8::encode_utf8(u).len() > max_uri_bytes() || !lsp_uri_parses(u) {
        None
    } else {
        Some(LspSymbolInformationView {
            name: shown_name(s.name@, score, with_score),
            kind: type_kind(s.context.symbol_type),
            uri: u,
            line: zero_based_line(s.context.line_number),
            character: 0,
            container_name: Some(container_of(s.context)),
        })
    }
}

/// The container of a symbol (see `container_of`).
fn container_exec(c: &SymbolContext) -> (r: String)
    ensures
        r@ == container_of(*c),
{
    if c.parent_context.len() == 0 {
        return c.fully_qualified_module.clone();
    }
    let ghost names = c.parent_context@.map_values(|p: ParentContext| p.name@);
    let mut r = String::new();
    let mut i: usize = 0;
    while i < c.parent_context.len()
        invariant
            i <= c.parent_context@.len(),
            names == c.parent_context@.map_values(|p: ParentContext| p.name@),
            r@ == dotted(names.take(i as int)),
        decreases c.parent_context@.len() - i,
    {
        assert(names.take(i + 1).drop_last() =~= names.take(i as int));
        assert(names[i as int] == c.parent_context@[i as int].name@);
        if i > 0 {
            crate::paths::push_char(&mut r, '.');
        }
        r.append(c.parent_context[i].name.as_str());
        proof {
            if i > 0 {
                assert(r@ =~= dotted(names.take(i as int)) + seq!['.'] + names[i as int]);
            } else {
                assert(r@ =~= names[0]);
            }
        }
        i += 1;
    }
    assert(names.take(c.parent_context@.len() as int) =~= names);
    r
}

/// The record of a symbol (see `context_record`); the file is the one the
/// registry holds at the symbol's index. `with_score` adds the score to the
/// name, as debug builds do.
pub fn to_lsp_symbol_information(symbol: &ContextSymbol, path_registry: &PathRegistry, score: i64, with_score: bool) -> (r: Option<
    LspSymbolInformation,
>)
    requires
        symbol.context.file_path_index < path_registry@.len(),
    ensures
        match context_record(*symbol, path_registry@[symbol.context.file_path_index as int], score, with_score) {
            Some(v) => r matches Some(x) && x@ == v,
            None => r is None,
        },
{
    let file_path = path_registry.get_path(symbol.context.file_path_index);
    let uri = match file_url(file_path.as_str()) {
        Some(u) => u,
        None => return None,
    };
    let bytes: &[u8] = uri.as_str().as_bytes();
    if bytes.len() > 2147483647usize {
        return None;
    }
    if !uri_parses(uri.as_str()) {
        return None;
    }
    let kind = match symbol.context.symbol_type {
        SymbolType::Class | SymbolType::NestedClass => LspSymbolKind::Class,
        SymbolType::Function | SymbolType::Method => LspSymbolKind::Function,
        _ => LspSymbolKind::Variable,
    };
    let l = symbol.context.line_number as u32;
    let line = if l == 0 { 0 } else { l - 1 };
    let container = container_exec(&symbol.context);
    let name = if with_score {
        let mut n = symbol.name.clone();
        n.append(" (");
        let d = decimal_text(score);
        n.append(d.as_str());
        n.append(")");
        proof {
            reveal_strlit(" (");
            reveal_strlit(")");
        }
        assert(n@ =~= shown_name(symbol.name@, score, with_score));
        n
    } else {
        symbol.name.clone()
    };
    Some(LspSymbolInformation { name, kind, uri, line, character: 0, container_name: Some(container) })
}

/// The largest number of records that a workspace-symbol answer holds.
pub const MAX_RECORDS: usize = 100;

/// The records of ranked search results, in order: those whose files have a
/// usable URI, at most `MAX_RECORDS` of them.
pub open spec fn ranked_records(results: Seq<(ContextSymbol, i64)>, paths: Seq<Seq<char>>, with_score: bool) -> Seq<LspSymbolInformationView>
    decreases results.len(),
{
    if results.len() == 0 {
        Seq::empty()
    } else {
        let rest = ranked_records(results.drop_last(), paths, with_score);
        let (s, score) = results.last();
        match context_record(s, paths[s.context.file_path_index as int], score, with_score) {
            Some(v) => if rest.len() < MAX_RECORDS { rest.push(v) } else { rest },
            None => rest,
        }
    }
}

/// The answer to a workspace-symbol request whose search gave `results`
/// (best first): nothing for an empty query, else their records (see
/// `ranked_records`). Every result must name a registered file.
pub fn workspace_symbol_records(query: &str, results: &Vec<(ContextSymbol, i64)>, path_registry: &PathRegistry, with_score: bool) -> (r: Vec<
    LspSymbolInformation,
>)
    requires
        forall|i: int| 0 <= i < results@.len() ==> (#[trigger] results@[i]).0.context.file_path_index < path_registry@.len(),
    ensures
        query@.len() == 0 ==> r@.len() == 0,
        query@.len() > 0 ==> r@.map_values(|x: LspSymbolInformation| x@) == ranked_records(results@, path_registry@, with_score),
{
    let mut v: Vec<LspSymbolInformation> = Vec::new();
    if query.is_empty() {
        return v;
    }
    let mut i: usize = 0;
    while i < results.len()
        invariant
            i <= results@.len(),
            forall|j: int| 0 <= j < results@.len() ==> (#[trigger] results@[j]).0.context.file_path_index < path_registry@.len(),
            v@.map_values(|x: LspSymbolInformation| x@) == ranked_records(results@.take(i as int), path_registry@, with_score),
            v@.len() <= MAX_RECORDS,
        decreases results@.len() - i,
    {
        assert(results@.take(i + 1).drop_last() =~= results@.take(i as int));
        assert(results@.take(i + 1).last() == results@[i as int]);
        let ghost before = v@;
        if v.len() < MAX_RECORDS {
            match to_lsp_symbol_information(&results[i].0, path_registry, results[i].1, with_score) {
                Some(rec) => {
                    v.push(rec);
                    assert(v@.map_values(|x: LspSymbolInformation| x@) =~= before.map_values(
                        |x: LspSymbolInformation| x@,
                    ).push(rec@));
                },
                None => {},
            }
        }
        i += 1;
    }
    assert(results@.take(results@.len() as int) =~= results@);
    v
}

/// A workspace-symbol answer over ranked results holds at most
/// `MAX_RECORDS` records, and no more records than there are results.
pub proof fn law_ranked_records_bounded(results: Seq<(ContextSymbol, i64)>, paths: Seq<Seq<char>>, with_score: bool)
    ensures
        ranked_records(results, paths, with_score).len() <= MAX_RECORDS,
        ranked_records(results, paths, with_score).len() <= results.len(),
    decreases results.len(),
{
    if results.len() > 0 {
        law_ranked_records_bounded(results.drop_last(), paths, with_score);
    }
}

/// The kind a record gives a symbol type, as a table: classes and nested
/// classes are classes, functions and methods are functions, nested
/// functions are variables.
pub open spec fn kind_table(t: SymbolType, k: LspSymbolKind) -> bool {
    &&& (t == SymbolType::Class || t == SymbolType::NestedClass) ==> k == LspSymbolKind::Class
    &&& (t == SymbolType::Function || t == SymbolType::Method) ==> k == LspSymbolKind::Function
    &&& t == SymbolType::NestedFunction ==> k == LspSymbolKind::Variable
}

/// The facts a record states of the ranked result `res` whose file is at `path`.
pub open spec fn record_of_result(rec: LspSymbolInformationView, res: (ContextSymbol, i64), path: Seq<char>, with_score: bool) -> bool {
    let (sym, score) = res;
    &&& is_absolute(path)
    &&& rec.uri == crate::lsp::handlers::file_url_text(path).unwrap()
    &&& kind_table(sym.context.symbol_type, rec.kind)
    &&& (sym.context.line_number as u32 == 0 ==> rec.line == 0)
    &&& (sym.context.line_number as u32 > 0 ==> rec.line + 1 == sym.context.line_number as u32)
    &&& rec.character == 0
    &&& rec.name == (if with_score { sym.name@ + seq![' ', '('] + decimal(score as int) + seq![')'] } else { sym.name@ })
}

/// Each record of an answer over ranked results is that of one of the
/// results, whose file path is absolute: at its file's URL, with the kind
/// of `kind_table`, the line counted from zero (line 0 stays 0), character
/// 0, and the name followed, when asked, by the score in brackets.
pub proof fn law_ranked_record_fields(results: Seq<(ContextSymbol, i64)>, paths: Seq<Seq<char>>, with_score: bool)
    ensures
        forall|i: int| #![trigger ranked_records(results, paths, with_score)[i]]
            0 <= i < ranked_records(results, paths, with_score).len() ==> exists|j: int|
                0 <= j < results.len() && record_of_result(
                    ranked_records(results, paths, with_score)[i],
                    #[trigger] results[j],
                    paths[results[j].0.context.file_path_index as int],
                    with_score,
                ),
    decreases results.len(),
{
    if results.len() > 0 {
        let rest_in = results.drop_last();
        law_ranked_record_fields(rest_in, paths, with_score);
        let rest = ranked_records(rest_in, paths, with_score);
        let out = ranked_records(results, paths, with_score);
        let last = results.last();
        assert forall|i: int| #![trigger out[i]] 0 <= i < out.len() implies exists|j: int|
            0 <= j < results.len() && record_of_result(
                out[i],
                #[trigger] results[j],
                paths[results[j].0.context.file_path_index as int],
                with_score,
            ) by {
            if i < rest.len() {
                assert(out[i] == rest[i]);
                let j = choose|j: int|
                    0 <= j < rest_in.len() && record_of_result(
                        rest[i],
                        #[trigger] rest_in[j],
                        paths[rest_in[j].0.context.file_path_index as int],
                        with_score,
                    );
                assert(results[j] == rest_in[j]);
            } else {
                let j = results.len() - 1;
                assert(results[j] == last);
                assert(out[i] == context_record(last.0, paths[last.0.context.file_path_index as int], last.1, with_score).unwrap());
            }
        }
    }
}

} // verus!
