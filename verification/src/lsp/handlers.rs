//! The workspace-symbol request.

use std::sync::Arc;

use vstd::prelude::*;

use crate::error::Error;
use crate::index::SymbolIndex;
use crate::paths::is_absolute;
use crate::search::{law_search_exact, law_stable_sort_unique, scored, skim_score, stable_sorted_desc, SearchEngine, SearchResult};
use crate::symbols::{Symbol, SymbolKind};

verus! {

/// The kinds of language-server symbols that the library reports.
#[derive(Debug, Clone, Copy, PartialEq, Eq, Structural)]
pub enum LspSymbolKind {
    Function,
    Method,
    Class,
    Variable,
}

/// A language-server symbol record (`SymbolInformation`): a name, a kind, a
/// location (a URI and a position that starts and ends the range), and an
/// optional container name. Tags and the deprecated flag are never set.
#[derive(Debug)]
pub struct LspSymbolInformation {
    pub name: String,
    pub kind: LspSymbolKind,
    pub uri: String,
    /// Zero-based line of the start and of the end of the range.
    pub line: u32,
    /// Character of the start and of the end of the range.
    pub character: u32,
    pub container_name: Option<String>,
}

/// The mathematical value of an `LspSymbolInformation`.
pub struct LspSymbolInformationView {
    pub name: Seq<char>,
    pub kind: LspSymbolKind,
    pub uri: Seq<char>,
    pub line: u32,
    pub character: u32,
    pub container_name: Option<Seq<char>>,
}

impl View for LspSymbolInformation {
    type V = LspSymbolInformationView;

    open spec fn view(&self) -> LspSymbolInformationView {
        LspSymbolInformationView {
            name: self.name@,
            kind: self.kind,
            uri: self.uri@,
            line: self.line,
            character: self.character,
            container_name: crate::paths::opt_view(self.container_name),
        }
    }
}

/// The text of the `file:` URL of a path (`url::Url::from_file_path`, as a string).
pub uninterp spec fn file_url_text(path: Seq<char>) -> Option<Seq<char>>;

/// `url::Url::from_file_path(path)`, as text. On Unix the source returns an
/// error exactly when the path is not absolute; the text is named `file_url_text`.
#[verifier::external_body]
pub(crate) fn file_url(path: &str) -> (r: Option<String>)
    ensures
        crate::paths::opt_view(r) == file_url_text(path@),
        r.is_some() == is_absolute(path@),
{
    url::Url::from_file_path(path).ok().map(|u| u.as_str().to_string())
}

/// The largest number of search results that a workspace-symbol request considers.
pub const MAX_WORKSPACE_RESULTS: usize = 100;

/// The language-server kind of a symbol kind.
pub open spec fn lsp_kind(k: SymbolKind) -> LspSymbolKind {
    match k {
        SymbolKind::Function | SymbolKind::NestedFunction => LspSymbolKind::Function,
        SymbolKind::Method => LspSymbolKind::Method,
        SymbolKind::Class | SymbolKind::NestedClass => LspSymbolKind::Class,
    }
}

/// A one-based line number, cut to 32 bits, as a zero-based line (0 stays 0).
pub open spec fn zero_based_line(line: usize) -> u32 {
    let l = line as u32;
    if l == 0 { 0 } else { (l - 1) as u32 }
}

/// The record of a symbol at the URL `uri`.
pub open spec fn symbol_record(s: Symbol, uri: Seq<char>) -> LspSymbolInformationView {
    LspSymbolInformationView {
        name: s.name@,
        kind: lsp_kind(s.kind),
        uri,
        line: zero_based_line(s.line),
        character: s.column as u32,
        container_name: crate::paths::opt_view(s.container_name),
    }
}

/// The records of the search results whose file paths are absolute (those
/// that have a `file:` URL), in order, each at its file's URL.
pub open spec fn records_of(results: Seq<SearchResult>) -> Seq<LspSymbolInformationView>
    decreases results.len(),
{
    if results.len() == 0 {
        Seq::empty()
    } else {
        let rest = records_of(results.drop_last());
        let s = *results.last().symbol;
        if is_absolute(s.file_path@) { rest.push(symbol_record(s, file_url_text(s.file_path@).unwrap())) } else { rest }
    }
}

/// `arcs` points to the symbols of `all`, in order.
pub open spec fn points_to(arcs: Seq<Arc<Symbol>>, all: Seq<Symbol>) -> bool {
    arcs.len() == all.len() && forall|i: int| 0 <= i < arcs.len() ==> *(#[trigger] arcs[i]) == all[i]
}

/// The answer to a workspace-symbol request for `query` over the symbols
/// `all`: nothing for an empty query; otherwise the records, for the first
/// `MAX_WORKSPACE_RESULTS` results of the search (best scores first), of
/// those whose file paths are absolute.
pub open spec fn workspace_symbols(all: Seq<Symbol>, query: Seq<char>, r: Seq<LspSymbolInformationView>) -> bool {
    if query.len() == 0 {
        r == Seq::<LspSymbolInformationView>::empty()
    } else {
        exists|arcs: Seq<Arc<Symbol>>, out: Seq<SearchResult>| {
            &&& points_to(arcs, all)
            &&& stable_sorted_desc(out, scored(arcs, query))
            &&& r == records_of(
                if out.len() <= MAX_WORKSPACE_RESULTS { out } else { out.take(MAX_WORKSPACE_RESULTS as int) },
            )
        }
    }
}

/// The record of a symbol at the URL `uri`.
fn to_record(s: &Symbol, uri: String) -> (r: LspSymbolInformation)
    ensures
        r@ == symbol_record(*s, uri@),
{
    let l = s.line as u32;
    let line = if l == 0 { 0 } else { l - 1 };
    let container_name = match &s.container_name {
        Some(c) => Some(c.clone()),
        None => None,
    };
    let kind = match s.kind {
        SymbolKind::Function | SymbolKind::NestedFunction => LspSymbolKind::Function,
        SymbolKind::Method => LspSymbolKind::Method,
        SymbolKind::Class | SymbolKind::NestedClass => LspSymbolKind::Class,
    };
    LspSymbolInformation { name: s.name.clone(), kind, uri, line, character: s.column as u32, container_name }
}

/// Answers a workspace-symbol request: see `workspace_symbols`. The answer is never an error.
pub fn handle_workspace_symbol(query: &str, index: &SymbolIndex, search_engine: &SearchEngine) -> (r: Result<
    Vec<LspSymbolInformation>,
    Error,
>)
    ensures
        r matches Ok(v) && workspace_symbols(index@.all, query@, v@.map_values(|x: LspSymbolInformation| x@)),
{
    if query.is_empty() {
        let v: Vec<LspSymbolInformation> = Vec::new();
        assert(v@.map_values(|x: LspSymbolInformation| x@) =~= Seq::<LspSymbolInformationView>::empty());
        return Ok(v);
    }
    let all = index.get_all_symbols();
    let mut arcs: Vec<Arc<Symbol>> = Vec::new();
    let mut rest = all;
    let ghost all_seq = rest@;
    // Take the symbols from the front in order: reverse them first.
    let mut stack: Vec<Symbol> = Vec::new();
    while rest.len() > 0
        invariant
            stack@.len() + rest@.len() == all_seq.len(),
            rest@ == all_seq.take(rest@.len() as int),
            forall|i: int| 0 <= i < stack@.len() ==> #[trigger] stack@[i] == all_seq[all_seq.len() - 1 - i],
        decreases rest@.len(),
    {
        let x = rest.pop().unwrap();
        stack.push(x);
    }
    while stack.len() > 0
        invariant
            arcs@.len() + stack@.len() == all_seq.len(),
            forall|i: int| 0 <= i < stack@.len() ==> #[trigger] stack@[i] == all_seq[all_seq.len() - 1 - i],
            points_to(arcs@, all_seq.take(arcs@.len() as int)),
        decreases stack@.len(),
    {
        let x = stack.pop().unwrap();
        let k = arcs.len();
        arcs.push(Arc::new(x));
        assert(points_to(arcs@, all_seq.take(k + 1)));
    }
    assert(all_seq.take(arcs@.len() as int) =~= all_seq);
    let results = search_engine.search(query, arcs.as_slice());
    let ghost out = results@;
    let ghost head = if out.len() <= MAX_WORKSPACE_RESULTS { out } else { out.take(MAX_WORKSPACE_RESULTS as int) };
    let n = if results.len() <= MAX_WORKSPACE_RESULTS { results.len() } else { MAX_WORKSPACE_RESULTS };
    let mut v: Vec<LspSymbolInformation> = Vec::new();
    let mut i: usize = 0;
    while i < n
        invariant
            i <= n,
            n <= results@.len(),
            out == results@,
            head == out.take(n as int),
            v@.map_values(|x: LspSymbolInformation| x@) == records_of(head.take(i as int)),
        decreases n - i,
    {
        let sym: &Symbol = &results[i].symbol;
        let ghost before = v@;
        assert(head.take(i + 1).drop_last() =~= head.take(i as int));
        assert(head.take(i + 1).last() == results@[i as int]);
        match file_url(sym.file_path.as_str()) {
            Some(u) => {
                let rec = to_record(sym, u);
                v.push(rec);
                assert(v@.map_values(|x: LspSymbolInformation| x@) =~= before.map_values(
                    |x: LspSymbolInformation| x@,
                ).push(rec@));
            },
            None => {},
        }
        i += 1;
    }
    assert(head.take(n as int) =~= head);
    assert(head == if out.len() <= MAX_WORKSPACE_RESULTS { out } else { out.take(MAX_WORKSPACE_RESULTS as int) });
    Ok(v)
}

proof fn lemma_records_from(results: Seq<SearchResult>)
    ensures
        records_of(results).len() <= results.len(),
        forall|i: int| 0 <= i < records_of(results).len() ==> exists|j: int, u: Seq<char>| {
            &&& 0 <= j < results.len()
            &&& is_absolute((*results[j].symbol).file_path@) && u == file_url_text((*results[j].symbol).file_path@).unwrap()
            &&& #[trigger] records_of(results)[i] == symbol_record(*results[j].symbol, u)
        },
    decreases results.len(),
{
    if results.len() > 0 {
        let rest = results.drop_last();
        lemma_records_from(rest);
        assert forall|i: int| 0 <= i < records_of(results).len() implies exists|j: int, u: Seq<char>| {
            &&& 0 <= j < results.len()
            &&& is_absolute((*results[j].symbol).file_path@) && u == file_url_text((*results[j].symbol).file_path@).unwrap()
            &&& #[trigger] records_of(results)[i] == symbol_record(*results[j].symbol, u)
        } by {
            if i < records_of(rest).len() {
                let (j, u) = choose|j: int, u: Seq<char>| {
                    &&& 0 <= j < rest.len()
                    &&& is_absolute((*rest[j].symbol).file_path@) && u == file_url_text((*rest[j].symbol).file_path@).unwrap()
                    &&& #[trigger] records_of(rest)[i] == symbol_record(*rest[j].symbol, u)
                };
                assert(records_of(results)[i] == records_of(rest)[i]);
                assert(results[j] == rest[j]);
            } else {
                let j = results.len() - 1;
                let u = file_url_text((*results[j].symbol).file_path@).unwrap();
                assert(records_of(results)[i] == symbol_record(*results[j].symbol, u));
            }
        }
    }
}

/// A workspace-symbol answer is bounded and made of matches: nothing for an
/// empty query, at most `MAX_WORKSPACE_RESULTS` records, and each record is
/// the record, at its file's URL, of an indexed symbol with an absolute
/// path whose name the query matches.
pub proof fn law_answer_bounded_matches(all: Seq<Symbol>, query: Seq<char>, r: Seq<LspSymbolInformationView>)
    requires
        workspace_symbols(all, query, r),
    ensures
        query.len() == 0 ==> r.len() == 0,
        r.len() <= MAX_WORKSPACE_RESULTS,
        forall|i: int| 0 <= i < r.len() ==> exists|k: int, u: Seq<char>| {
            &&& 0 <= k < all.len()
            &&& skim_score(all[k].name@, query) is Some
            &&& is_absolute(all[k].file_path@) && u == file_url_text(all[k].file_path@).unwrap()
            &&& #[trigger] r[i] == symbol_record(all[k], u)
        },
{
    if query.len() > 0 {
        let (arcs, out) = choose|arcs: Seq<Arc<Symbol>>, out: Seq<SearchResult>| {
            &&& points_to(arcs, all)
            &&& stable_sorted_desc(out, scored(arcs, query))
            &&& r == records_of(
                if out.len() <= MAX_WORKSPACE_RESULTS { out } else { out.take(MAX_WORKSPACE_RESULTS as int) },
            )
        };
        let head = if out.len() <= MAX_WORKSPACE_RESULTS { out } else { out.take(MAX_WORKSPACE_RESULTS as int) };
        lemma_records_from(head);
        law_search_exact(out, arcs, query);
        assert forall|i: int| 0 <= i < r.len() implies exists|k: int, u: Seq<char>| {
            &&& 0 <= k < all.len()
            &&& skim_score(all[k].name@, query) is Some
            &&& is_absolute(all[k].file_path@) && u == file_url_text(all[k].file_path@).unwrap()
            &&& #[trigger] r[i] == symbol_record(all[k], u)
        } by {
            let (j, u) = choose|j: int, u: Seq<char>| {
                &&& 0 <= j < head.len()
                &&& is_absolute((*head[j].symbol).file_path@) && u == file_url_text((*head[j].symbol).file_path@).unwrap()
                &&& #[trigger] records_of(head)[i] == symbol_record(*head[j].symbol, u)
            };
            assert(head[j] == out[j]);
            assert(skim_score((out[j]).symbol.name@, query) == Some(out[j].score));
            let k = choose|k: int| 0 <= k < arcs.len() && arcs[k] == out[j].symbol;
            assert(*arcs[k] == all[k]);
        }
    }
}

/// The answer to a workspace-symbol request is the search done apart: for a
/// non-empty query, it is the records of the first `MAX_WORKSPACE_RESULTS`
/// results that searching the indexed symbols gives, of those whose files
/// have a URL, in order.
pub proof fn law_answer_is_search_records(
    all: Seq<Symbol>,
    query: Seq<char>,
    r: Seq<LspSymbolInformationView>,
    symbols: Seq<Arc<Symbol>>,
    res: Seq<SearchResult>,
)
    requires
        workspace_symbols(all, query, r),
        query.len() > 0,
        points_to(symbols, all),
        stable_sorted_desc(res, scored(symbols, query)),
    ensures
        r == records_of(if res.len() <= MAX_WORKSPACE_RESULTS { res } else { res.take(MAX_WORKSPACE_RESULTS as int) }),
{
    let (arcs, out) = choose|arcs: Seq<Arc<Symbol>>, out: Seq<SearchResult>| {
        &&& points_to(arcs, all)
        &&& stable_sorted_desc(out, scored(arcs, query))
        &&& r == records_of(
            if out.len() <= MAX_WORKSPACE_RESULTS { out } else { out.take(MAX_WORKSPACE_RESULTS as int) },
        )
    };
    assert forall|i: int| 0 <= i < arcs.len() implies arcs[i] == symbols[i] by {
        assert(*arcs[i] == all[i]);
        assert(*symbols[i] == all[i]);
    }
    assert(arcs =~= symbols);
    law_stable_sort_unique(out, res, scored(symbols, query));
}

/// Each record of an answer carries its symbol's data: the name, the kind
/// (functions and nested functions as functions, methods as methods,
/// classes and nested classes as classes), the URL of the file, the line
/// counted from zero (line 0 stays 0), the column as the character, and the
/// container name.
pub proof fn law_answer_record_fields(all: Seq<Symbol>, query: Seq<char>, r: Seq<LspSymbolInformationView>)
    requires
        workspace_symbols(all, query, r),
    ensures
        forall|i: int| #![trigger r[i]] 0 <= i < r.len() ==> exists|k: int| {
            &&& 0 <= k < all.len()
            &&& is_absolute(#[trigger] all[k].file_path@)
            &&& skim_score(all[k].name@, query) is Some
            &&& r[i].name == all[k].name@
            &&& (all[k].kind == SymbolKind::Function || all[k].kind == SymbolKind::NestedFunction)
                ==> r[i].kind == LspSymbolKind::Function
            &&& all[k].kind == SymbolKind::Method ==> r[i].kind == LspSymbolKind::Method
            &&& (all[k].kind == SymbolKind::Class || all[k].kind == SymbolKind::NestedClass)
                ==> r[i].kind == LspSymbolKind::Class
            &&& r[i].uri == file_url_text(all[k].file_path@).unwrap()
            &&& (all[k].line as u32 == 0 ==> r[i].line == 0)
            &&& (all[k].line as u32 > 0 ==> r[i].line + 1 == all[k].line as u32)
            &&& r[i].character == all[k].column as u32
            &&& r[i].container_name == crate::paths::opt_view(all[k].container_name)
        },
{
    law_answer_bounded_matches(all, query, r);
    assert forall|i: int| #![trigger r[i]] 0 <= i < r.len() implies exists|k: int| {
        &&& 0 <= k < all.len()
        &&& is_absolute(#[trigger] all[k].file_path@)
        &&& skim_score(all[k].name@, query) is Some
        &&& r[i].name == all[k].name@
        &&& (all[k].kind == SymbolKind::Function || all[k].kind == SymbolKind::NestedFunction)
            ==> r[i].kind == LspSymbolKind::Function
        &&& all[k].kind == SymbolKind::Method ==> r[i].kind == LspSymbolKind::Method
        &&& (all[k].kind == SymbolKind::Class || all[k].kind == SymbolKind::NestedClass)
            ==> r[i].kind == LspSymbolKind::Class
        &&& r[i].uri == file_url_text(all[k].file_path@).unwrap()
        &&& (all[k].line as u32 == 0 ==> r[i].line == 0)
        &&& (all[k].line as u32 > 0 ==> r[i].line + 1 == all[k].line as u32)
        &&& r[i].character == all[k].column as u32
        &&& r[i].container_name == crate::paths::opt_view(all[k].container_name)
    } by {
        let (k, u) = choose|k: int, u: Seq<char>| {
            &&& 0 <= k < all.len()
            &&& skim_score(all[k].name@, query) is Some
            &&& is_absolute(all[k].file_path@) && u == file_url_text(all[k].file_path@).unwrap()
            &&& #[trigger] r[i] == symbol_record(all[k], u)
        };
        assert(r[i] == symbol_record(all[k], u));
    }
}

} // verus!
