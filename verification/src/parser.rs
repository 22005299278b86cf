//! Extraction of the functions, classes and methods that a Python source
//! file defines.
//!
//! The source is read line by line. A scanner follows strings, comments,
//! brackets and backslash continuations, so that only the lines that begin a
//! statement count. Such a line that begins with `def`, `async def` or
//! `class` defines a symbol; the indentation of the statements decides which
//! definitions are still open, and so what contains each new one.

use vstd::prelude::*;

use crate::error::Error;
use crate::paths::{chars_of, split_chars, split_on, string_of};
use crate::index::{add_step, law_remove_undoes_add, remove_step, SymbolIndexView};
use crate::symbols::{Symbol, SymbolKind, SymbolView};

verus! {

/// What the scanner knows at the end of a line.
#[derive(Clone, Copy)]
pub struct ScanState {
    /// Inside a triple-quoted string: 0 outside, 1 for `'''`, 2 for `"""`.
    pub triple: u8,
    /// Depth of open brackets.
    pub depth: usize,
    /// The line ends with a backslash that continues it.
    pub cont: bool,
}

/// The state before the first line.
pub open spec fn clean_state() -> ScanState {
    ScanState { triple: 0, depth: 0, cont: false }
}

pub open spec fn quote_of(kind: u8) -> char {
    if kind == 1 { '\'' } else { '"' }
}

pub open spec fn is_open_bracket(c: char) -> bool {
    c == '(' || c == '[' || c == '{'
}

pub open spec fn is_close_bracket(c: char) -> bool {
    c == ')' || c == ']' || c == '}'
}

/// The state at the end of `line`, scanning from position `i` in the given
/// state: `triple` and `single` say which kind of string is open (0 none,
/// 1 single quotes, 2 double quotes), `last_bs` that the last character
/// seen outside strings was a backslash.
pub open spec fn scan_from(line: Seq<char>, i: int, triple: u8, single: u8, depth: usize, last_bs: bool) -> ScanState
    decreases line.len() + 3 - i,
{
    if i >= line.len() || i < 0 {
        ScanState { triple, depth, cont: triple == 0 && single == 0 && last_bs }
    } else {
        let c = line[i];
        if triple != 0 {
            let q = quote_of(triple);
            if c == '\\' {
                scan_from(line, i + 2, triple, 0, depth, false)
            } else if c == q && i + 2 < line.len() && line[i + 1] == q && line[i + 2] == q {
                scan_from(line, i + 3, 0, 0, depth, false)
            } else {
                scan_from(line, i + 1, triple, 0, depth, false)
            }
        } else if single != 0 {
            let q = quote_of(single);
            if c == '\\' {
                scan_from(line, i + 2, 0, single, depth, false)
            } else if c == q {
                scan_from(line, i + 1, 0, 0, depth, false)
            } else {
                scan_from(line, i + 1, 0, single, depth, false)
            }
        } else if c == '#' {
            ScanState { triple: 0, depth, cont: false }
        } else if c == '\'' || c == '"' {
            let k: u8 = if c == '\'' { 1 } else { 2 };
            if i + 2 < line.len() && line[i + 1] == c && line[i + 2] == c {
                scan_from(line, i + 3, k, 0, depth, false)
            } else {
                scan_from(line, i + 1, 0, k, depth, false)
            }
        } else if is_open_bracket(c) {
            scan_from(line, i + 1, 0, 0, if depth < usize::MAX { (depth + 1) as usize } else { depth }, false)
        } else if is_close_bracket(c) {
            scan_from(line, i + 1, 0, 0, if depth > 0 { (depth - 1) as usize } else { 0 }, false)
        } else {
            scan_from(line, i + 1, 0, 0, depth, c == '\\')
        }
    }
}

/// The state at the end of `line`, entered in state `s`.
pub open spec fn scan_line(line: Seq<char>, s: ScanState) -> ScanState {
    scan_from(line, 0, s.triple, 0, s.depth, false)
}

/// A line entered in state `s` begins a statement.
pub open spec fn starts_statement(s: ScanState) -> bool {
    s.triple == 0 && s.depth == 0 && !s.cont
}

pub open spec fn is_blank_char(c: char) -> bool {
    c == ' ' || c == '\t'
}

/// The number of blanks (spaces and tabs) of `t` from position `i` on.
pub open spec fn blanks_from(t: Seq<char>, i: int) -> nat
    decreases t.len() - i,
{
    if 0 <= i < t.len() && is_blank_char(t[i]) { 1 + blanks_from(t, i + 1) } else { 0 }
}

pub open spec fn is_ident_char(c: char) -> bool {
    ('a' <= c && c <= 'z') || ('A' <= c && c <= 'Z') || ('0' <= c && c <= '9') || c == '_' || (c as u32) >= 0x80
}

pub open spec fn is_digit(c: char) -> bool {
    '0' <= c && c <= '9'
}

/// The length of the run of identifier characters of `t` from position `i` on.
pub open spec fn ident_from(t: Seq<char>, i: int) -> nat
    decreases t.len() - i,
{
    if 0 <= i < t.len() && is_ident_char(t[i]) { 1 + ident_from(t, i + 1) } else { 0 }
}

/// The keyword `kw` stands in `t` at position `i`.
pub open spec fn keyword_at(t: Seq<char>, i: int, kw: Seq<char>) -> bool {
    0 <= i && i + kw.len() <= t.len() && t.subrange(i, i + kw.len() as int) == kw
}

/// After a keyword ending at `i`: blanks, then the name being defined.
pub open spec fn name_after(t: Seq<char>, i: int, is_class: bool) -> Option<(bool, Seq<char>)> {
    let w = blanks_from(t, i);
    let s = i + w;
    let n = ident_from(t, s);
    if w > 0 && n > 0 && !is_digit(t[s]) { Some((is_class, t.subrange(s, s + n))) } else { None }
}

/// The definition that a statement line begins, if any: whether it is a
/// class, and the name it defines.
pub open spec fn header(t: Seq<char>) -> Option<(bool, Seq<char>)> {
    let i = blanks_from(t, 0) as int;
    if keyword_at(t, i, "def"@) {
        name_after(t, i + 3, false)
    } else if keyword_at(t, i, "class"@) {
        name_after(t, i + 5, true)
    } else if keyword_at(t, i, "async"@) {
        let w = blanks_from(t, i + 5);
        if w > 0 && keyword_at(t, i + 5 + w, "def"@) { name_after(t, i + 5 + w + 3, false) } else { None }
    } else {
        None
    }
}

/// A line with nothing but blanks, or a comment after them.
pub open spec fn is_blank_line(t: Seq<char>) -> bool {
    let i = blanks_from(t, 0) as int;
    i >= t.len() || t[i] == '#'
}

/// A definition still open: its indentation, its name, and whether it is a class.
pub struct Frame {
    pub indent: nat,
    pub name: Seq<char>,
    pub is_class: bool,
}

/// The open definitions left when a statement at indentation `d` begins:
/// those of smaller indentation.
pub open spec fn pop_to(stack: Seq<Frame>, d: nat) -> Seq<Frame>
    decreases stack.len(),
{
    if stack.len() > 0 && stack.last().indent >= d { pop_to(stack.drop_last(), d) } else { stack }
}

/// The names joined with dots.
pub open spec fn join_dotted(names: Seq<Seq<char>>) -> Seq<char>
    decreases names.len(),
{
    if names.len() == 0 {
        Seq::empty()
    } else if names.len() == 1 {
        names[0]
    } else {
        join_dotted(names.drop_last()) + seq!['.'] + names.last()
    }
}

/// The kind of a definition inside the open definitions `chain`.
pub open spec fn kind_in(chain: Seq<Frame>, is_class: bool) -> SymbolKind {
    if chain.len() == 0 {
        if is_class { SymbolKind::Class } else { SymbolKind::Function }
    } else if is_class {
        SymbolKind::NestedClass
    } else if chain.last().is_class {
        SymbolKind::Method
    } else {
        SymbolKind::NestedFunction
    }
}

/// The symbol of a definition of `path` at line `line` (one-based), column
/// `column`, inside the open definitions `chain`.
pub open spec fn symbol_at(path: Seq<char>, line: nat, column: nat, is_class: bool, name: Seq<char>, chain: Seq<Frame>) -> SymbolView {
    SymbolView {
        name,
        kind: kind_in(chain, is_class),
        file_path: path,
        line: line as usize,
        column: column as usize,
        container_name: if chain.len() == 0 {
            None
        } else {
            Some(join_dotted(chain.map_values(|f: Frame| f.name)))
        },
        module: Seq::empty(),
    }
}

/// A physical line without the carriage returns that may end it.
pub open spec fn line_text(l: Seq<char>) -> Seq<char>
    decreases l.len(),
{
    if l.len() > 0 && l.last() == '\r' { line_text(l.drop_last()) } else { l }
}

/// The parse after the first `k` lines: the open definitions, the symbols
/// found, and the scanner state.
pub open spec fn parse_lines(path: Seq<char>, lines: Seq<Seq<char>>, k: nat) -> (Seq<Frame>, Seq<SymbolView>, ScanState)
    decreases k,
{
    if k == 0 || k > lines.len() {
        (Seq::empty(), Seq::empty(), clean_state())
    } else {
        let (stack, syms, s) = parse_lines(path, lines, (k - 1) as nat);
        let t = line_text(lines[k - 1]);
        let next = scan_line(t, s);
        if starts_statement(s) && !is_blank_line(t) {
            let d = blanks_from(t, 0);
            let chain = pop_to(stack, d);
            match header(t) {
                Some((is_class, name)) => (
                    chain.push(Frame { indent: d, name, is_class }),
                    syms.push(symbol_at(path, k, d, is_class, name, chain)),
                    next,
                ),
                None => (chain, syms, next),
            }
        } else {
            (stack, syms, next)
        }
    }
}

/// The symbols that the Python source `content` of the file at `path` defines, in order.
pub open spec fn python_symbols(path: Seq<char>, content: Seq<char>) -> Seq<SymbolView> {
    let lines = split_on(content, '\n');
    parse_lines(path, lines, lines.len()).1
}

} // verus!

verus! {

/// The scanner state at the end of `line`, entered in state `s`.
fn scan_exec(line: &Vec<char>, s: ScanState) -> (r: ScanState)
    ensures
        r == scan_line(line@, s),
{
    let n = line.len();
    let mut i: usize = 0;
    let mut triple: u8 = s.triple;
    let mut single: u8 = 0;
    let mut depth: usize = s.depth;
    let mut last_bs = false;
    while i < n
        invariant
            n == line@.len(),
            scan_from(line@, i as int, triple, single, depth, last_bs) == scan_line(line@, s),
        decreases n - i,
    {
        let c = line[i];
        reveal_with_fuel(scan_from, 2);
        if triple != 0 {
            let q: char = if triple == 1 { '\'' } else { '"' };
            if c == '\\' {
                i = if n - i >= 2 { i + 2 } else { n };
                single = 0;
                last_bs = false;
            } else if c == q && n - i > 2 && line[i + 1] == q && line[i + 2] == q {
                i = i + 3;
                triple = 0;
                single = 0;
                last_bs = false;
            } else {
                i = i + 1;
                single = 0;
                last_bs = false;
            }
        } else if single != 0 {
            let q: char = if single == 1 { '\'' } else { '"' };
            if c == '\\' {
                i = if n - i >= 2 { i + 2 } else { n };
                last_bs = false;
            } else if c == q {
                i = i + 1;
                single = 0;
                last_bs = false;
            } else {
                i = i + 1;
                last_bs = false;
            }
        } else if c == '#' {
            return ScanState { triple: 0, depth, cont: false };
        } else if c == '\'' || c == '"' {
            let k: u8 = if c == '\'' { 1 } else { 2 };
            if n - i > 2 && line[i + 1] == c && line[i + 2] == c {
                i = i + 3;
                triple = k;
            } else {
                i = i + 1;
                single = k;
            }
            last_bs = false;
        } else if c == '(' || c == '[' || c == '{' {
            if depth < usize::MAX {
                depth = depth + 1;
            }
            i = i + 1;
            last_bs = false;
        } else if c == ')' || c == ']' || c == '}' {
            if depth > 0 {
                depth = depth - 1;
            }
            i = i + 1;
            last_bs = false;
        } else {
            last_bs = c == '\\';
            i = i + 1;
        }
    }
    ScanState { triple, depth, cont: triple == 0 && single == 0 && last_bs }
}

/// The number of blanks of `t` from position `i` on.
fn blanks_exec(t: &Vec<char>, i: usize) -> (n: usize)
    requires
        i <= t@.len(),
    ensures
        n == blanks_from(t@, i as int),
        i + n <= t@.len(),
{
    let mut j = i;
    while j < t.len() && (t[j] == ' ' || t[j] == '\t')
        invariant
            i <= j <= t@.len(),
            blanks_from(t@, i as int) == (j - i) + blanks_from(t@, j as int),
        decreases t@.len() - j,
    {
        j += 1;
    }
    j - i
}

fn is_ident_char_exec(c: char) -> (r: bool)
    ensures
        r == is_ident_char(c),
{
    ('a' <= c && c <= 'z') || ('A' <= c && c <= 'Z') || ('0' <= c && c <= '9') || c == '_' || (c as u32) >= 0x80
}

/// The length of the run of identifier characters of `t` from position `i` on.
fn ident_exec(t: &Vec<char>, i: usize) -> (n: usize)
    requires
        i <= t@.len(),
    ensures
        n == ident_from(t@, i as int),
        i + n <= t@.len(),
{
    let mut j = i;
    while j < t.len() && is_ident_char_exec(t[j])
        invariant
            i <= j <= t@.len(),
            ident_from(t@, i as int) == (j - i) + ident_from(t@, j as int),
        decreases t@.len() - j,
    {
        j += 1;
    }
    j - i
}

/// Whether the keyword `kw` stands in `t` at position `i`.
fn keyword_at_exec(t: &Vec<char>, i: usize, kw: &Vec<char>) -> (r: bool)
    ensures
        r == keyword_at(t@, i as int, kw@),
{
    let tl = t.len();
    if i > tl || kw.len() > tl - i {
        return false;
    }
    let mut j: usize = 0;
    while j < kw.len()
        invariant
            tl == t@.len(),
            i + kw@.len() <= t@.len(),
            j <= kw@.len(),
            forall|m: int| 0 <= m < j ==> t@[i + m] == kw@[m],
        decreases kw@.len() - j,
    {
        if t[i + j] != kw[j] {
            assert(t@.subrange(i as int, i + kw@.len())[j as int] != kw@[j as int]);
            return false;
        }
        j += 1;
    }
    assert(t@.subrange(i as int, i + kw@.len()) =~= kw@);
    true
}

/// The name after a keyword ending at `i`, as `name_after` gives it.
fn name_after_exec(t: &Vec<char>, i: usize, is_class: bool) -> (r: Option<Vec<char>>)
    requires
        i <= t@.len(),
    ensures
        match name_after(t@, i as int, is_class) {
            Some((c, name)) => r matches Some(v) && v@ == name && c == is_class,
            None => r is None,
        },
{
    let tl = t.len();
    let w = blanks_exec(t, i);
    let s = i + w;
    let n = ident_exec(t, s);
    if w > 0 && n > 0 && !('0' <= t[s] && t[s] <= '9') {
        let mut v: Vec<char> = Vec::new();
        let mut j = s;
        while j < s + n
            invariant
                tl == t@.len(),
                s + n <= t@.len(),
                s <= j <= s + n,
                v@ == t@.subrange(s as int, j as int),
            decreases s + n - j,
        {
            v.push(t[j]);
            assert(t@.subrange(s as int, j + 1) =~= t@.subrange(s as int, j as int).push(t@[j as int]));
            j += 1;
        }
        Some(v)
    } else {
        None
    }
}

/// The definition that a statement line begins, as `header` gives it.
fn header_exec(t: &Vec<char>) -> (r: Option<(bool, Vec<char>)>)
    ensures
        match header(t@) {
            Some((c, name)) => r matches Some((rc, v)) && rc == c && v@ == name,
            None => r is None,
        },
{
    proof {
        reveal_strlit("def");
        reveal_strlit("class");
        reveal_strlit("async");
    }
    let def_kw = chars_of("def");
    let class_kw = chars_of("class");
    let async_kw = chars_of("async");
    let tl = t.len();
    let i = blanks_exec(t, 0);
    if keyword_at_exec(t, i, &def_kw) {
        match name_after_exec(t, i + 3, false) {
            Some(v) => Some((false, v)),
            None => None,
        }
    } else if keyword_at_exec(t, i, &class_kw) {
        match name_after_exec(t, i + 5, true) {
            Some(v) => Some((true, v)),
            None => None,
        }
    } else if keyword_at_exec(t, i, &async_kw) {
        let w = blanks_exec(t, i + 5);
        if w > 0 && keyword_at_exec(t, i + 5 + w, &def_kw) {
            match name_after_exec(t, i + 5 + w + 3, false) {
                Some(v) => Some((false, v)),
                None => None,
            }
        } else {
            None
        }
    } else {
        None
    }
}

/// An open definition, as the parser keeps it.
struct ExecFrame {
    indent: usize,
    name: String,
    is_class: bool,
}

spec fn frame_view(f: ExecFrame) -> Frame {
    Frame { indent: f.indent as nat, name: f.name@, is_class: f.is_class }
}

spec fn frames_view(s: Seq<ExecFrame>) -> Seq<Frame> {
    s.map_values(|f: ExecFrame| frame_view(f))
}

/// The names of the frames joined with dots.
fn join_names(stack: &Vec<ExecFrame>) -> (r: String)
    ensures
        r@ == join_dotted(frames_view(stack@).map_values(|f: Frame| f.name)),
{
    let ghost names = frames_view(stack@).map_values(|f: Frame| f.name);
    let mut r = String::new();
    let mut i: usize = 0;
    while i < stack.len()
        invariant
            i <= stack@.len(),
            names == frames_view(stack@).map_values(|f: Frame| f.name),
            r@ == join_dotted(names.take(i as int)),
        decreases stack@.len() - i,
    {
        assert(names.take(i + 1).drop_last() =~= names.take(i as int));
        assert(names[i as int] == stack@[i as int].name@);
        if i > 0 {
            crate::paths::push_char(&mut r, '.');
        }
        r.append(stack[i].name.as_str());
        proof {
            if i > 0 {
                assert(r@ =~= join_dotted(names.take(i as int)) + seq!['.'] + names[i as int]);
            } else {
                assert(r@ =~= names[0]);
            }
        }
        i += 1;
    }
    assert(names.take(stack@.len() as int) =~= names);
    r
}

/// A line without the carriage returns that may end it.
fn line_text_exec(l: &Vec<char>) -> (r: Vec<char>)
    ensures
        r@ == line_text(l@),
{
    let n = l.len();
    let mut m = n;
    assert(l@.take(m as int) =~= l@);
    while m > 0 && l[m - 1] == '\r'
        invariant
            m <= l@.len(),
            line_text(l@) == line_text(l@.take(m as int)),
        decreases m,
    {
        assert(l@.take(m as int).drop_last() =~= l@.take(m - 1));
        m -= 1;
    }
    let mut r: Vec<char> = Vec::new();
    let mut j: usize = 0;
    while j < m
        invariant
            m <= l@.len(),
            j <= m,
            r@ == l@.take(j as int),
        decreases m - j,
    {
        r.push(l[j]);
        assert(l@.take(j + 1) =~= l@.take(j as int).push(l@[j as int]));
        j += 1;
    }
    assert(l@.take(m as int) =~= line_text(l@));
    r
}

/// A parser of Python source files.
pub struct PythonParser {}

impl PythonParser {
    /// A parser.
    pub fn new() -> (r: Result<Self, Error>)
        ensures
            r.is_ok(),
    {
        Ok(PythonParser {})
    }

    /// The symbols that the Python source `content` of the file at `path`
    /// defines, in the order of their lines: see `python_symbols`.
    pub fn parse_file(&mut self, path: &str, content: &str) -> (r: Result<Vec<Symbol>, Error>)
        ensures
            r matches Ok(v) && v@.map_values(|s: Symbol| s@) == python_symbols(path@, content@),
    {
        let chars = chars_of(content);
        let lines = split_chars(&chars, '\n');
        let ghost ls = split_on(content@, '\n');
        let mut stack: Vec<ExecFrame> = Vec::new();
        let mut syms: Vec<Symbol> = Vec::new();
        let mut s = ScanState { triple: 0, depth: 0, cont: false };
        let mut k: usize = 0;
        while k < lines.len()
            invariant
                k <= lines@.len(),
                lines@.len() == ls.len(),
                forall|j: int| 0 <= j < lines@.len() ==> (#[trigger] lines@[j])@ == ls[j],
                (frames_view(stack@), syms@.map_values(|x: Symbol| x@), s) == parse_lines(path@, ls, k as nat),
            decreases lines@.len() - k,
        {
            let t = line_text_exec(&lines[k]);
            let next = scan_exec(&t, s);
            let ghost prev = parse_lines(path@, ls, k as nat);
            let ghost old_stack = stack@;
            let ghost old_syms = syms@;
            assert(t@ == line_text(ls[k as int]));
            let d = blanks_exec(&t, 0);
            let statement = s.triple == 0 && s.depth == 0 && !s.cont && d < t.len() && t[d] != '#';
            if statement {
                while stack.len() > 0 && stack[stack.len() - 1].indent >= d
                    invariant
                        pop_to(frames_view(stack@), d as nat) == pop_to(frames_view(old_stack), d as nat),
                    decreases stack@.len(),
                {
                    let ghost before = stack@;
                    stack.pop();
                    assert(frames_view(stack@) =~= frames_view(before).drop_last());
                }
                assert(pop_to(frames_view(stack@), d as nat) == frames_view(stack@));
                match header_exec(&t) {
                    Some((is_class, name)) => {
                        let container_name = if stack.len() == 0 { None } else { Some(join_names(&stack)) };
                        let kind = if stack.len() == 0 {
                            if is_class { SymbolKind::Class } else { SymbolKind::Function }
                        } else if is_class {
                            SymbolKind::NestedClass
                        } else if stack[stack.len() - 1].is_class {
                            SymbolKind::Method
                        } else {
                            SymbolKind::NestedFunction
                        };
                        let name_s = string_of(&name);
                        let sym = Symbol {
                            name: name_s.clone(),
                            kind,
                            file_path: path.to_owned(),
                            line: k + 1,
                            column: d,
                            container_name,
                            module: String::new(),
                        };
                        let ghost chain = frames_view(stack@);
                        assert(sym@ == symbol_at(path@, (k + 1) as nat, d as nat, is_class, name@, chain));
                        syms.push(sym);
                        stack.push(ExecFrame { indent: d, name: name_s, is_class });
                        assert(frames_view(stack@) =~= chain.push(Frame { indent: d as nat, name: name@, is_class }));
                        assert(syms@.map_values(|x: Symbol| x@) =~= old_syms.map_values(|x: Symbol| x@).push(sym@));
                    },
                    None => {},
                }
            }
            s = next;
            k += 1;
        }
        Ok(syms)
    }
}

} // verus!

verus! {

proof fn lemma_split_len(p: Seq<char>, sep: char)
    ensures
        split_on(p, sep).len() <= p.len() + 1,
    decreases p.len(),
{
    if p.len() > 0 {
        lemma_split_len(p.drop_last(), sep);
        crate::paths::lemma_split_nonempty(p.drop_last(), sep);
    }
}

proof fn lemma_parse_lines_order(path: Seq<char>, lines: Seq<Seq<char>>, k: nat)
    requires
        lines.len() <= usize::MAX,
    ensures
        forall|i: int| 0 <= i < parse_lines(path, lines, k).1.len() ==> {
            &&& (#[trigger] parse_lines(path, lines, k).1[i]).file_path == path
            &&& 1 <= parse_lines(path, lines, k).1[i].line <= k
            &&& parse_lines(path, lines, k).1[i].line <= lines.len()
        },
        forall|i: int, j: int| 0 <= i < j < parse_lines(path, lines, k).1.len() ==>
            (#[trigger] parse_lines(path, lines, k).1[i]).line < (#[trigger] parse_lines(path, lines, k).1[j]).line,
    decreases k,
{
    if k > 0 && k <= lines.len() {
        lemma_parse_lines_order(path, lines, (k - 1) as nat);
    }
}

/// The symbols of a file come in the order of their lines: each comes from
/// the file, stands on one of its lines (numbered from one), and stands on a
/// later line than the symbols before it.
pub proof fn law_symbols_in_line_order(path: Seq<char>, content: Seq<char>)
    requires
        content.len() < usize::MAX,
    ensures
        forall|i: int| 0 <= i < python_symbols(path, content).len() ==> {
            &&& (#[trigger] python_symbols(path, content)[i]).file_path == path
            &&& 1 <= python_symbols(path, content)[i].line <= split_on(content, '\n').len()
        },
        forall|i: int, j: int| 0 <= i < j < python_symbols(path, content).len() ==>
            (#[trigger] python_symbols(path, content)[i]).line < (#[trigger] python_symbols(path, content)[j]).line,
{
    let lines = split_on(content, '\n');
    lemma_split_len(content, '\n');
    lemma_parse_lines_order(path, lines, lines.len());
}

/// Removing a file undoes indexing it: recording the symbols parsed from a
/// file and then removing the file leaves the index as removing the file
/// alone would.
pub proof fn law_remove_undoes_indexing(v: SymbolIndexView, path: Seq<char>, content: Seq<char>, symbols: Seq<Symbol>)
    requires
        content.len() < usize::MAX,
        symbols.map_values(|s: Symbol| s@) == python_symbols(path, content),
    ensures
        remove_step(add_step(v, path, symbols), path) == remove_step(v, path),
{
    law_symbols_in_line_order(path, content);
    assert forall|i: int| 0 <= i < symbols.len() implies (#[trigger] symbols[i]).file_path@ == path by {
        assert(symbols.map_values(|s: Symbol| s@)[i] == symbols[i]@);
    }
    law_remove_undoes_add(v, path, symbols);
}

/// A definition is nested exactly when it is contained in another.
pub open spec fn is_nested_kind(k: SymbolKind) -> bool {
    k == SymbolKind::Method || k == SymbolKind::NestedFunction || k == SymbolKind::NestedClass
}

proof fn lemma_parse_lines_containers(path: Seq<char>, lines: Seq<Seq<char>>, k: nat)
    ensures
        forall|i: int| 0 <= i < parse_lines(path, lines, k).1.len() ==>
            ((#[trigger] parse_lines(path, lines, k).1[i]).container_name is Some
                <==> is_nested_kind(parse_lines(path, lines, k).1[i].kind)),
    decreases k,
{
    if k > 0 && k <= lines.len() {
        lemma_parse_lines_containers(path, lines, (k - 1) as nat);
    }
}

/// Containers follow the kinds: a symbol has a container name exactly when
/// it is a method, a nested function or a nested class.
pub proof fn law_container_iff_nested(path: Seq<char>, content: Seq<char>)
    ensures
        forall|i: int| 0 <= i < python_symbols(path, content).len() ==>
            ((#[trigger] python_symbols(path, content)[i]).container_name is Some
                <==> is_nested_kind(python_symbols(path, content)[i].kind)),
{
    let lines = split_on(content, '\n');
    lemma_parse_lines_containers(path, lines, lines.len());
}

/// `c` with every `"\r\n"` replaced by `"\n"`.
pub open spec fn crlf_to_lf(c: Seq<char>) -> Seq<char>
    decreases c.len(),
{
    if c.len() == 0 {
        c
    } else if c.len() >= 2 && c.last() == '\n' && c[c.len() - 2] == '\r' {
        crlf_to_lf(c.take(c.len() - 2)).push('\n')
    } else {
        crlf_to_lf(c.drop_last()).push(c.last())
    }
}

proof fn lemma_line_text_push_cr(x: Seq<char>)
    ensures
        line_text(x.push('\r')) == line_text(x),
{
    assert(x.push('\r').drop_last() =~= x);
}

/// Splitting at newlines after replacing `"\r\n"` by `"\n"` gives as many
/// lines, the same last line, and the others equal once their carriage
/// returns are taken off.
proof fn lemma_split_crlf(c: Seq<char>)
    ensures
        split_on(crlf_to_lf(c), '\n').len() == split_on(c, '\n').len(),
        split_on(crlf_to_lf(c), '\n').last() == split_on(c, '\n').last(),
        forall|i: int| 0 <= i < split_on(c, '\n').len() ==>
            line_text(#[trigger] split_on(crlf_to_lf(c), '\n')[i]) == line_text(split_on(c, '\n')[i]),
    decreases c.len(),
{
    crate::paths::lemma_split_nonempty(c, '\n');
    crate::paths::lemma_split_nonempty(crlf_to_lf(c), '\n');
    if c.len() == 0 {
    } else if c.len() >= 2 && c.last() == '\n' && c[c.len() - 2] == '\r' {
        let base = c.take(c.len() - 2);
        lemma_split_crlf(base);
        crate::paths::lemma_split_nonempty(base, '\n');
        crate::paths::lemma_split_nonempty(crlf_to_lf(base), '\n');
        assert(c.drop_last().drop_last() =~= base);
        assert(c.drop_last().last() == '\r');
        let r = split_on(base, '\n');
        let r2 = split_on(crlf_to_lf(base), '\n');
        let d = c.drop_last();
        assert(split_on(d, '\n') == r.update(r.len() - 1, r.last().push('\r')));
        assert(split_on(c, '\n') == split_on(d, '\n').push(Seq::<char>::empty()));
        let c2 = crlf_to_lf(base).push('\n');
        assert(c2.drop_last() =~= crlf_to_lf(base));
        assert(split_on(c2, '\n') == r2.push(Seq::<char>::empty()));
        lemma_line_text_push_cr(r.last());
        assert forall|i: int| 0 <= i < split_on(c, '\n').len() implies
            line_text(#[trigger] split_on(crlf_to_lf(c), '\n')[i]) == line_text(split_on(c, '\n')[i]) by {
            if i < r.len() - 1 {
                assert(split_on(c, '\n')[i] == r[i]);
                assert(split_on(crlf_to_lf(c), '\n')[i] == r2[i]);
            } else if i == r.len() - 1 {
                assert(split_on(c, '\n')[i] == r.last().push('\r'));
                assert(split_on(crlf_to_lf(c), '\n')[i] == r2[i]);
                assert(r2[i] == r2.last());
            }
        }
    } else {
        let base = c.drop_last();
        let ch = c.last();
        lemma_split_crlf(base);
        crate::paths::lemma_split_nonempty(base, '\n');
        crate::paths::lemma_split_nonempty(crlf_to_lf(base), '\n');
        let r = split_on(base, '\n');
        let r2 = split_on(crlf_to_lf(base), '\n');
        let c2 = crlf_to_lf(base).push(ch);
        assert(c2.drop_last() =~= crlf_to_lf(base));
        assert(c2.last() == ch);
        if ch == '\n' {
            assert(split_on(c, '\n') == r.push(Seq::<char>::empty()));
            assert(split_on(c2, '\n') == r2.push(Seq::<char>::empty()));
            assert forall|i: int| 0 <= i < split_on(c, '\n').len() implies
                line_text(#[trigger] split_on(crlf_to_lf(c), '\n')[i]) == line_text(split_on(c, '\n')[i]) by {
                if i < r.len() {
                    assert(split_on(c, '\n')[i] == r[i]);
                    assert(split_on(crlf_to_lf(c), '\n')[i] == r2[i]);
                }
            }
        } else {
            assert(split_on(c, '\n') == r.update(r.len() - 1, r.last().push(ch)));
            assert(split_on(c2, '\n') == r2.update(r2.len() - 1, r2.last().push(ch)));
            assert forall|i: int| 0 <= i < split_on(c, '\n').len() implies
                line_text(#[trigger] split_on(crlf_to_lf(c), '\n')[i]) == line_text(split_on(c, '\n')[i]) by {
                if i < r.len() - 1 {
                    assert(split_on(c, '\n')[i] == r[i]);
                    assert(split_on(crlf_to_lf(c), '\n')[i] == r2[i]);
                }
            }
        }
    }
}

proof fn lemma_parse_lines_same_text(path: Seq<char>, a: Seq<Seq<char>>, b: Seq<Seq<char>>, k: nat)
    requires
        a.len() == b.len(),
        forall|i: int| 0 <= i < a.len() ==> line_text(#[trigger] a[i]) == line_text(b[i]),
    ensures
        parse_lines(path, a, k) == parse_lines(path, b, k),
    decreases k,
{
    if k > 0 && k <= a.len() {
        lemma_parse_lines_same_text(path, a, b, (k - 1) as nat);
        assert(line_text(a[k - 1]) == line_text(b[k - 1]));
    }
}

/// Line endings do not change the symbols: a file with Windows line endings
/// (`"\r\n"`) defines the same symbols as the same file with `"\n"`.
pub proof fn law_line_endings_do_not_matter(path: Seq<char>, content: Seq<char>)
    ensures
        python_symbols(path, crlf_to_lf(content)) == python_symbols(path, content),
{
    lemma_split_crlf(content);
    let a = split_on(crlf_to_lf(content), '\n');
    let b = split_on(content, '\n');
    lemma_parse_lines_same_text(path, a, b, a.len());
}

} // verus!
