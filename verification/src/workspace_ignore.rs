//! Ignore rules of a workspace: the directories of version-control systems
//! always, then the workspace's `.gitignore`, or Python defaults when it has
//! none that can be used.

use ignore::gitignore::{Gitignore, GitignoreBuilder};
use vstd::prelude::*;

use crate::paths::{
    chars_of, component_pred, components_of, file_name, file_name_of, is_absolute, normal_components,
    opt_view, parent_of, path_is_absolute, path_parent, path_strip_prefix, split_chars, split_on,
    string_of, strip_prefix_of, texts,
};

verus! {

#[verifier::external_type_specification]
#[verifier::external_body]
pub struct ExGitignore(Gitignore);

#[verifier::external_type_specification]
#[verifier::external_body]
pub struct ExGitignoreBuilder(GitignoreBuilder);

/// The root path that a gitignore builder keeps.
pub uninterp spec fn builder_root(b: GitignoreBuilder) -> Seq<char>;

/// The globs that a gitignore builder holds, in order, each as the line it
/// came from in its stored form (see `stored_line`).
pub uninterp spec fn builder_lines(b: GitignoreBuilder) -> Seq<Seq<char>>;

/// The root path of a gitignore matcher.
pub uninterp spec fn gitignore_root(g: Gitignore) -> Seq<char>;

/// The lines that a gitignore matcher was built from, in order.
pub uninterp spec fn gitignore_lines(g: Gitignore) -> Seq<Seq<char>>;

/// Whether `GitignoreBuilder::add_line` accepts a line that is neither a
/// comment nor blank, given in its stored form: whether it makes a glob
/// that parses.
pub uninterp spec fn gitignore_line_ok(line: Seq<char>) -> bool;

/// Whether `GitignoreBuilder::build` succeeds on the given root and lines.
pub uninterp spec fn gitignore_build_ok(root: Seq<char>, lines: Seq<Seq<char>>) -> bool;

/// Whether the matcher built from `root` and `lines` ignores `path`
/// (`Gitignore::matched(..).is_ignore()`), `is_dir` saying whether the path
/// is a directory.
pub uninterp spec fn gitignore_ignores(root: Seq<char>, lines: Seq<Seq<char>>, path: Seq<char>, is_dir: bool) -> bool;

/// A root path as `GitignoreBuilder::new` keeps it: without a leading `./`.
pub open spec fn without_dot_slash(root: Seq<char>) -> Seq<char> {
    if root.len() >= 2 && root[0] == '.' && root[1] == '/' { root.subrange(2, root.len() as int) } else { root }
}

/// The characters that `str::trim_end` takes off: those with the Unicode
/// `White_Space` property.
pub open spec fn is_white_space(c: char) -> bool {
    ('\u{9}' <= c && c <= '\u{d}') || c == ' ' || c == '\u{85}' || c == '\u{a0}' || c == '\u{1680}'
        || ('\u{2000}' <= c && c <= '\u{200a}') || c == '\u{2028}' || c == '\u{2029}' || c == '\u{202f}'
        || c == '\u{205f}' || c == '\u{3000}'
}

/// `s` without the white space that ends it.
pub open spec fn trim_end(s: Seq<char>) -> Seq<char>
    decreases s.len(),
{
    if s.len() > 0 && is_white_space(s.last()) { trim_end(s.drop_last()) } else { s }
}

/// The form in which `add_line` keeps a line: as given when it ends with an
/// escaped space, else without its trailing white space.
pub open spec fn stored_line(line: Seq<char>) -> Seq<char> {
    if line.len() >= 2 && line[line.len() - 2] == '\\' && line.last() == ' ' { line } else { trim_end(line) }
}

/// A line that `add_line` accepts and skips: a comment, or a line that is
/// empty once stored.
pub open spec fn skipped_line(line: Seq<char>) -> bool {
    (line.len() > 0 && line[0] == '#') || stored_line(line).len() == 0
}

/// Whether `add_line` accepts `line`.
pub open spec fn line_accepted(line: Seq<char>) -> bool {
    skipped_line(line) || gitignore_line_ok(stored_line(line))
}

/// `GitignoreBuilder::new(root)`: a builder with no glob, whose root is
/// `root` without a leading `./`.
#[verifier::external_body]
fn builder_new(root: &str) -> (b: GitignoreBuilder)
    ensures
        builder_root(b) == without_dot_slash(root@),
        builder_lines(b) == Seq::<Seq<char>>::empty(),
{
    GitignoreBuilder::new(root)
}

/// `GitignoreBuilder::add_line(None, line)`: a comment or a line blank once
/// stored is accepted and changes nothing; another line, in its stored form,
/// becomes a glob of the builder when it parses, and the builder is left as it
/// was when it does not (the source returns the parse error before it pushes
/// the glob).
#[verifier::external_body]
fn builder_add_line(b: &mut GitignoreBuilder, line: &str) -> (ok: bool)
    ensures
        ok == (skipped_line(line@) || gitignore_line_ok(stored_line(line@))),
        builder_root(*final(b)) == builder_root(*old(b)),
        builder_lines(*final(b)) == if !skipped_line(line@) && ok {
            builder_lines(*old(b)).push(stored_line(line@))
        } else {
            builder_lines(*old(b))
        },
{
    b.add_line(None, line).is_ok()
}

/// `GitignoreBuilder::build`: with no glob, the empty matcher (empty root,
/// no line); otherwise the matcher of the builder's root and globs, unless
/// building fails.
#[verifier::external_body]
fn builder_build(b: &GitignoreBuilder) -> (r: Option<Gitignore>)
    ensures
        r.is_some() == (builder_lines(*b).len() == 0 || gitignore_build_ok(builder_root(*b), builder_lines(*b))),
        r matches Some(g) ==> if builder_lines(*b).len() == 0 {
            gitignore_root(g) == Seq::<char>::empty() && gitignore_lines(g) == Seq::<Seq<char>>::empty()
        } else {
            gitignore_root(g) == builder_root(*b) && gitignore_lines(g) == builder_lines(*b)
        },
{
    b.build().ok()
}

/// `Gitignore::empty()`: a matcher with no line and an empty root.
#[verifier::external_body]
fn gitignore_empty() -> (g: Gitignore)
    ensures
        gitignore_root(g) == Seq::<char>::empty(),
        gitignore_lines(g) == Seq::<Seq<char>>::empty(),
{
    Gitignore::empty()
}

/// `Gitignore::matched(path, is_dir).is_ignore()`. A matcher with no line
/// ignores nothing (the source returns `Match::None` when it has no glob).
#[verifier::external_body]
fn gitignore_matched(g: &Gitignore, path: &str, is_dir: bool) -> (r: bool)
    ensures
        r == gitignore_ignores(gitignore_root(*g), gitignore_lines(*g), path@, is_dir),
        gitignore_lines(*g).len() == 0 ==> !r,
{
    g.matched(path, is_dir).is_ignore()
}

/// The names of the version-control directories, always ignored.
pub open spec fn vcs_dirs() -> Seq<Seq<char>> {
    seq![".git"@, ".hg"@, ".svn"@, ".bzr"@]
}

/// Whether `name` is the name of a version-control directory.
pub open spec fn is_vcs_dir(name: Seq<char>) -> bool {
    vcs_dirs().contains(name)
}

/// The Python patterns used when the workspace has no usable `.gitignore`.
pub open spec fn default_python_ignore() -> Seq<Seq<char>> {
    seq![
        "__pycache__/"@, "*.pyc"@, "*.pyo"@, "*.pyd"@, ".Python"@, "*.so"@, ".venv/"@, "venv/"@,
        "env/"@, ".env/"@, "virtualenv/"@, ".pytest_cache/"@, ".mypy_cache/"@, ".tox/"@,
        ".ruff_cache/"@, "*.egg-info/"@, ".eggs/"@, "build/"@, "dist/"@, "htmlcov/"@,
        ".coverage"@, ".hypothesis/"@, "node_modules/"@, ".idea/"@, ".vscode/"@,
    ]
}

/// Each pattern, followed, when it ends with `/`, by the same pattern
/// without that `/`.
pub open spec fn with_unslashed(ps: Seq<Seq<char>>) -> Seq<Seq<char>>
    decreases ps.len(),
{
    if ps.len() == 0 {
        Seq::empty()
    } else {
        let p = ps.last();
        let rest = with_unslashed(ps.drop_last()).push(p);
        if p.len() > 0 && p.last() == '/' {
            rest.push(p.drop_last())
        } else {
            rest
        }
    }
}

/// A line without the carriage return that ends it, if one does.
pub open spec fn strip_cr(s: Seq<char>) -> Seq<char> {
    if s.len() > 0 && s.last() == '\r' { s.drop_last() } else { s }
}

/// A line without the byte-order marks that begin it.
pub open spec fn trim_bom(s: Seq<char>) -> Seq<char>
    decreases s.len(),
{
    if s.len() > 0 && s[0] == '\u{feff}' { trim_bom(s.drop_first()) } else { s }
}

/// The lines of a file, as `BufRead::lines` reads them: split at each
/// newline, with the carriage return before a newline dropped, and no empty
/// line after a final newline.
pub open spec fn text_lines(c: Seq<char>) -> Seq<Seq<char>> {
    let p = split_on(c, '\n');
    let body = p.drop_last().map_values(|s: Seq<char>| strip_cr(s));
    if p.last().len() > 0 { body.push(p.last()) } else { body }
}

/// The lines of a `.gitignore` file, with byte-order marks taken off the first.
pub open spec fn gitignore_file_lines(c: Seq<char>) -> Seq<Seq<char>> {
    let r = text_lines(c);
    if r.len() > 0 { r.update(0, trim_bom(r[0])) } else { r }
}

/// The globs that offering `lines` in turn adds to a builder: the stored
/// form of each line that is not skipped and that parses, in order.
pub open spec fn stored_lines(lines: Seq<Seq<char>>) -> Seq<Seq<char>>
    decreases lines.len(),
{
    if lines.len() == 0 {
        Seq::empty()
    } else {
        let r = stored_lines(lines.drop_last());
        let l = lines.last();
        if !skipped_line(l) && gitignore_line_ok(stored_line(l)) { r.push(stored_line(l)) } else { r }
    }
}

/// The workspace has a usable `.gitignore`: there is one, and the builder
/// accepts all of its lines.
pub open spec fn has_gitignore(content: Option<Seq<char>>) -> bool {
    match content {
        Some(c) => forall|i: int| 0 <= i < gitignore_file_lines(c).len()
            ==> line_accepted(#[trigger] gitignore_file_lines(c)[i]),
        None => false,
    }
}

/// The matcher, as its root and its globs, that building a builder with root
/// `root` and the globs `globs` gives, with the empty matcher when there is
/// no glob or building fails.
pub open spec fn built_matcher(root: Seq<char>, globs: Seq<Seq<char>>) -> (Seq<char>, Seq<Seq<char>>) {
    if globs.len() > 0 && gitignore_build_ok(root, globs) { (root, globs) } else { (Seq::empty(), Seq::empty()) }
}

proof fn lemma_stored_lines_add(a: Seq<Seq<char>>, b: Seq<Seq<char>>)
    ensures
        stored_lines(a + b) == stored_lines(a) + stored_lines(b),
    decreases b.len(),
{
    if b.len() == 0 {
        assert(a + b =~= a);
        assert(stored_lines(a) + stored_lines(b) =~= stored_lines(a));
    } else {
        lemma_stored_lines_add(a, b.drop_last());
        assert((a + b).drop_last() =~= a + b.drop_last());
        assert((a + b).last() == b.last());
        let l = b.last();
        if !skipped_line(l) && gitignore_line_ok(stored_line(l)) {
            assert(stored_lines(a) + stored_lines(b) =~= (stored_lines(a) + stored_lines(b.drop_last())).push(stored_line(l)));
        }
    }
}

/// The lines offered to the builder, in order: the version-control
/// directories, the lines of the `.gitignore` if there is one, and the Python
/// defaults unless the `.gitignore` is usable.
pub open spec fn offered_lines(content: Option<Seq<char>>) -> Seq<Seq<char>> {
    vcs_dirs() + (match content {
        Some(c) => gitignore_file_lines(c),
        None => Seq::empty(),
    }) + (if has_gitignore(content) { Seq::empty() } else { with_unslashed(default_python_ignore()) })
}

/// The mathematical value of an `IgnoreFilter`.
pub struct IgnoreFilterView {
    /// The workspace root.
    pub workspace_root: Seq<char>,
    /// The root of the gitignore matcher.
    pub matcher_root: Seq<char>,
    /// The lines the gitignore matcher was built from.
    pub lines: Seq<Seq<char>>,
}

/// The `k`-th ancestor of `p`, following `Path::parent`: `p` itself for 0.
pub open spec fn ancestor(p: Seq<char>, k: nat) -> Option<Seq<char>>
    decreases k,
{
    if k == 0 {
        Some(p)
    } else {
        match ancestor(p, (k - 1) as nat) {
            Some(q) => path_parent(q),
            None => None,
        }
    }
}

/// Some proper ancestor of `p`, not empty, is a directory that the matcher ignores.
pub open spec fn ancestor_ignored(v: IgnoreFilterView, p: Seq<char>) -> bool {
    exists|k: nat| k >= 1 && (#[trigger] ancestor(p, k) matches Some(a) && a.len() > 0
        && gitignore_ignores(v.matcher_root, v.lines, a, true))
}

/// Whether the filter ignores `path`: when a component of it is a
/// version-control directory; otherwise, for a path in the workspace (a
/// relative path, or an absolute one under the workspace root, taken relative
/// to it), when the matcher ignores it or, for a file, one of its ancestors.
pub open spec fn filter_ignores(v: IgnoreFilterView, path: Seq<char>, is_dir: bool) -> bool {
    if exists|i: int| 0 <= i < normal_components(path).len() && is_vcs_dir(#[trigger] normal_components(path)[i]) {
        true
    } else {
        let check = if is_absolute(path) { path_strip_prefix(path, v.workspace_root) } else { Some(path) };
        match check {
            None => false,
            Some(c) => gitignore_ignores(v.matcher_root, v.lines, c, is_dir) || (!is_dir && ancestor_ignored(v, c)),
        }
    }
}

/// Manages the ignore patterns of a workspace.
pub struct IgnoreFilter {
    matcher: Gitignore,
    workspace_root: String,
}

impl View for IgnoreFilter {
    type V = IgnoreFilterView;

    closed spec fn view(&self) -> IgnoreFilterView {
        IgnoreFilterView {
            workspace_root: self.workspace_root@,
            matcher_root: gitignore_root(self.matcher),
            lines: gitignore_lines(self.matcher),
        }
    }
}

/// Offers each line of `lines` to the builder; true when all are accepted.
fn add_lines(b: &mut GitignoreBuilder, lines: &Vec<String>) -> (all_ok: bool)
    ensures
        builder_root(*final(b)) == builder_root(*old(b)),
        builder_lines(*final(b)) == builder_lines(*old(b)) + stored_lines(texts(lines@)),
        all_ok == forall|i: int| 0 <= i < lines@.len() ==> line_accepted(#[trigger] texts(lines@)[i]),
{
    let ghost start = builder_lines(*b);
    let ghost ls = texts(lines@);
    let mut all_ok = true;
    let mut i: usize = 0;
    while i < lines.len()
        invariant
            i <= lines@.len(),
            ls == texts(lines@),
            builder_root(*b) == builder_root(*old(b)),
            start == builder_lines(*old(b)),
            builder_lines(*b) == start + stored_lines(ls.take(i as int)),
            all_ok == forall|j: int| 0 <= j < i ==> line_accepted(#[trigger] ls[j]),
        decreases lines@.len() - i,
    {
        assert(ls.take(i + 1).drop_last() =~= ls.take(i as int));
        assert(ls[i as int] == lines@[i as int]@);
        let ok = builder_add_line(b, lines[i].as_str());
        if !ok {
            all_ok = false;
        }
        proof {
            if ok && !skipped_line(ls[i as int]) {
                assert(start + stored_lines(ls.take(i + 1)) =~= (start + stored_lines(ls.take(i as int))).push(
                    stored_line(ls[i as int]),
                ));
            }
        }
        i += 1;
    }
    assert(ls.take(lines@.len() as int) =~= ls);
    all_ok
}

/// The names of the version-control directories.
fn vcs_dir_list() -> (r: Vec<String>)
    ensures
        texts(r@) == vcs_dirs(),
{
    let mut r: Vec<String> = Vec::new();
    r.push(String::from_str(".git"));
    r.push(String::from_str(".hg"));
    r.push(String::from_str(".svn"));
    r.push(String::from_str(".bzr"));
    assert(texts(r@) =~= vcs_dirs());
    r
}

/// The default Python patterns.
fn default_pattern_list() -> (r: Vec<String>)
    ensures
        texts(r@) == default_python_ignore(),
{
    let mut r: Vec<String> = Vec::new();
    r.push(String::from_str("__pycache__/"));
    r.push(String::from_str("*.pyc"));
    r.push(String::from_str("*.pyo"));
    r.push(String::from_str("*.pyd"));
    r.push(String::from_str(".Python"));
    r.push(String::from_str("*.so"));
    r.push(String::from_str(".venv/"));
    r.push(String::from_str("venv/"));
    r.push(String::from_str("env/"));
    r.push(String::from_str(".env/"));
    r.push(String::from_str("virtualenv/"));
    r.push(String::from_str(".pytest_cache/"));
    r.push(String::from_str(".mypy_cache/"));
    r.push(String::from_str(".tox/"));
    r.push(String::from_str(".ruff_cache/"));
    r.push(String::from_str("*.egg-info/"));
    r.push(String::from_str(".eggs/"));
    r.push(String::from_str("build/"));
    r.push(String::from_str("dist/"));
    r.push(String::from_str("htmlcov/"));
    r.push(String::from_str(".coverage"));
    r.push(String::from_str(".hypothesis/"));
    r.push(String::from_str("node_modules/"));
    r.push(String::from_str(".idea/"));
    r.push(String::from_str(".vscode/"));
    assert(texts(r@) =~= default_python_ignore());
    r
}

/// Each pattern, followed by itself without its trailing `/` when it has one.
fn expand_patterns(ps: &Vec<String>) -> (r: Vec<String>)
    ensures
        texts(r@) == with_unslashed(texts(ps@)),
{
    let mut r: Vec<String> = Vec::new();
    let mut i: usize = 0;
    while i < ps.len()
        invariant
            i <= ps@.len(),
            texts(r@) == with_unslashed(texts(ps@).take(i as int)),
        decreases ps@.len() - i,
    {
        let ghost before = r@;
        assert(texts(ps@).take(i + 1).drop_last() =~= texts(ps@).take(i as int));
        let c = chars_of(ps[i].as_str());
        r.push(ps[i].clone());
        if c.len() > 0 && c[c.len() - 1] == '/' {
            let mut s: Vec<char> = Vec::new();
            let mut j: usize = 0;
            while j < c.len() - 1
                invariant
                    c@.len() >= 1,
                    j + 1 <= c@.len(),
                    s@ == c@.take(j as int),
                decreases c@.len() - j,
            {
                s.push(c[j]);
                assert(c@.take(j + 1) =~= c@.take(j as int).push(c@[j as int]));
                j += 1;
            }
            r.push(string_of(&s));
            assert(s@ =~= c@.drop_last());
        }
        assert(texts(r@) =~= with_unslashed(texts(ps@).take(i + 1)));
        i += 1;
    }
    assert(texts(ps@).take(ps@.len() as int) =~= texts(ps@));
    r
}

/// The lines of a file's text, with byte-order marks taken off the first.
fn file_lines(content: &str) -> (r: Vec<String>)
    ensures
        texts(r@) == gitignore_file_lines(content@),
{
    let c = chars_of(content);
    let pieces = split_chars(&c, '\n');
    let ghost p = split_on(content@, '\n');
    proof { crate::paths::lemma_split_nonempty(content@, '\n'); }
    let mut r: Vec<String> = Vec::new();
    let mut i: usize = 0;
    while i < pieces.len() - 1
        invariant
            pieces@.len() == p.len(),
            p.len() >= 1,
            i + 1 <= pieces@.len(),
            forall|j: int| 0 <= j < pieces@.len() ==> (#[trigger] pieces@[j])@ == p[j],
            texts(r@) == p.take(i as int).map_values(|s: Seq<char>| strip_cr(s)),
        decreases pieces@.len() - i,
    {
        let piece = &pieces[i];
        let n = piece.len();
        let ghost old_r = r@;
        let line: String = if n > 0 && piece[n - 1] == '\r' {
            let mut s: Vec<char> = Vec::new();
            let mut j: usize = 0;
            while j < n - 1
                invariant
                    n == piece@.len(),
                    n >= 1,
                    j + 1 <= n,
                    s@ == piece@.take(j as int),
                decreases n - j,
            {
                s.push(piece[j]);
                assert(piece@.take(j + 1) =~= piece@.take(j as int).push(piece@[j as int]));
                j += 1;
            }
            assert(s@ =~= piece@.drop_last());
            string_of(&s)
        } else {
            string_of(piece)
        };
        assert(line@ == strip_cr(p[i as int]));
        r.push(line);
        assert(texts(r@) =~= texts(old_r).push(line@));
        assert(p.take(i + 1) =~= p.take(i as int).push(p[i as int]));
        assert(texts(r@) =~= p.take(i + 1).map_values(|s: Seq<char>| strip_cr(s)));
        i += 1;
    }
    assert(p.take(i as int) =~= p.drop_last());
    let last = &pieces[pieces.len() - 1];
    if last.len() > 0 {
        r.push(string_of(last));
    }
    assert(texts(r@) =~= text_lines(content@));
    if r.len() > 0 {
        let first = chars_of(r[0].as_str());
        let mut k: usize = 0;
        assert(first@.subrange(0, first@.len() as int) =~= first@);
        while k < first.len() && first[k] == '\u{feff}'
            invariant
                k <= first@.len(),
                trim_bom(first@) == trim_bom(first@.subrange(k as int, first@.len() as int)),
            decreases first@.len() - k,
        {
            assert(first@.subrange(k as int, first@.len() as int).drop_first()
                =~= first@.subrange(k + 1, first@.len() as int));
            k += 1;
        }
        let mut t: Vec<char> = Vec::new();
        let mut j: usize = k;
        while j < first.len()
            invariant
                k <= j <= first@.len(),
                t@ == first@.subrange(k as int, j as int),
            decreases first@.len() - j,
        {
            t.push(first[j]);
            assert(first@.subrange(k as int, j + 1) =~= first@.subrange(k as int, j as int).push(first@[j as int]));
            j += 1;
        }
        assert(first@.subrange(0, first@.len() as int) =~= first@);
        assert(t@ == trim_bom(first@));
        r.set(0, string_of(&t));
        assert(texts(r@) =~= gitignore_file_lines(content@));
    }
    r
}

} // verus!

verus! {

/// Whether `name` is the name of a version-control directory.
fn is_vcs_name(name: &String) -> (r: bool)
    ensures
        r == is_vcs_dir(name@),
{
    let git = String::from_str(".git");
    let hg = String::from_str(".hg");
    let svn = String::from_str(".svn");
    let bzr = String::from_str(".bzr");
    let r = *name == git || *name == hg || *name == svn || *name == bzr;
    proof {
        let v = vcs_dirs();
        assert(v[0] == ".git"@ && v[1] == ".hg"@ && v[2] == ".svn"@ && v[3] == ".bzr"@);
        if r {
            if name@ == ".git"@ { assert(v[0] == name@); }
            if name@ == ".hg"@ { assert(v[1] == name@); }
            if name@ == ".svn"@ { assert(v[2] == name@); }
            if name@ == ".bzr"@ { assert(v[3] == name@); }
        }
    }
    r
}

proof fn lemma_ancestor_none_after(p: Seq<char>, k: nat, j: nat)
    requires
        ancestor(p, k) is None,
        j >= k,
    ensures
        ancestor(p, j) is None,
    decreases j - k,
{
    if j > k {
        lemma_ancestor_none_after(p, k, (j - 1) as nat);
    }
}

impl IgnoreFilter {
    /// The ignore filter of the workspace at `workspace_root`, whose
    /// `.gitignore` holds `gitignore` (`None` when the workspace has no
    /// readable `.gitignore`). The version-control directories are always
    /// offered to the matcher, then the lines of the `.gitignore`, then,
    /// unless the matcher accepted every line of the `.gitignore`, the Python
    /// defaults, each pattern that ends with `/` also without it. The matcher
    /// keeps the stored form of each offered line that is neither a comment
    /// nor blank and that parses, and the root without a leading `./`. If it
    /// keeps no line or cannot be built, the filter falls back to a matcher
    /// that ignores nothing.
    pub fn new(workspace_root: String, gitignore: Option<String>) -> (f: Self)
        ensures
            f@.workspace_root == workspace_root@,
            (f@.matcher_root, f@.lines) == built_matcher(
                without_dot_slash(workspace_root@),
                stored_lines(offered_lines(opt_view(gitignore))),
            ),
    {
        let ghost content = opt_view(gitignore);
        let mut b = builder_new(workspace_root.as_str());
        let vcs = vcs_dir_list();
        add_lines(&mut b, &vcs);
        let ghost file_part: Seq<Seq<char>> = match content {
            Some(c) => gitignore_file_lines(c),
            None => Seq::empty(),
        };
        let has_gitignore_file = match &gitignore {
            Some(c) => {
                let ls = file_lines(c.as_str());
                add_lines(&mut b, &ls)
            },
            None => false,
        };
        assert(has_gitignore_file == has_gitignore(content));
        let ghost default_part: Seq<Seq<char>> =
            if has_gitignore(content) { Seq::empty() } else { with_unslashed(default_python_ignore()) };
        if !has_gitignore_file {
            let d = expand_patterns(&default_pattern_list());
            add_lines(&mut b, &d);
        }
        proof {
            lemma_stored_lines_add(vcs_dirs(), file_part);
            lemma_stored_lines_add(vcs_dirs() + file_part, default_part);
            if has_gitignore_file {
                assert(stored_lines(default_part) =~= Seq::<Seq<char>>::empty());
            } else if content is None {
                assert(stored_lines(file_part) =~= Seq::<Seq<char>>::empty());
            }
            assert(builder_lines(b) =~= stored_lines(vcs_dirs()) + stored_lines(file_part) + stored_lines(default_part));
            assert(offered_lines(content) == vcs_dirs() + file_part + default_part);
        }
        let matcher = match builder_build(&b) {
            Some(g) => g,
            None => gitignore_empty(),
        };
        IgnoreFilter { matcher, workspace_root }
    }

    /// Whether `path` should be ignored (`is_dir` says whether it is a
    /// directory): see `filter_ignores`.
    pub fn should_ignore(&self, path: &str, is_dir: bool) -> (r: bool)
        ensures
            r == filter_ignores(self@, path@, is_dir),
    {
        let comps = components_of(path);
        let mut i: usize = 0;
        while i < comps.len()
            invariant
                i <= comps@.len(),
                comps@.len() == normal_components(path@).len(),
                forall|j: int| 0 <= j < comps@.len() ==> (#[trigger] comps@[j])@ == normal_components(path@)[j],
                forall|j: int| 0 <= j < i ==> !is_vcs_dir(#[trigger] normal_components(path@)[j]),
            decreases comps@.len() - i,
        {
            if is_vcs_name(&comps[i]) {
                return true;
            }
            i += 1;
        }
        let check: String = if path_is_absolute(path) {
            match strip_prefix_of(path, self.workspace_root.as_str()) {
                Some(rel) => rel,
                None => return false,
            }
        } else {
            path.to_owned()
        };
        if gitignore_matched(&self.matcher, check.as_str(), is_dir) {
            return true;
        }
        if !is_dir {
            let ghost c = check@;
            assert(filter_ignores(self@, path@, is_dir) == ancestor_ignored(self@, c));
            let mut current = check;
            let ghost mut k: nat = 0;
            loop
                invariant
                    filter_ignores(self@, path@, is_dir) == ancestor_ignored(self@, c),
                    ancestor(c, k) == Some(current@),
                    forall|j: nat| 1 <= j <= k ==> !(#[trigger] ancestor(c, j) matches Some(a) && a.len() > 0
                        && gitignore_ignores(self@.matcher_root, self@.lines, a, true)),
                ensures
                    !ancestor_ignored(self@, c),
                decreases current@.len(),
            {
                match parent_of(current.as_str()) {
                    None => {
                        proof {
                            assert(ancestor(c, k + 1) is None);
                            assert forall|j: nat| j >= 1 && (#[trigger] ancestor(c, j) matches Some(a) && a.len() > 0
                                && gitignore_ignores(self@.matcher_root, self@.lines, a, true)) implies false by {
                                if j > k {
                                    lemma_ancestor_none_after(c, k + 1, j);
                                }
                            }
                        }
                        break;
                    },
                    Some(parent) => {
                        proof {
                            assert(ancestor(c, k + 1) == Some(parent@));
                        }
                        if !parent.as_str().is_empty() && gitignore_matched(&self.matcher, parent.as_str(), true) {
                            assert(ancestor(c, k + 1) matches Some(a) && a.len() > 0
                                && gitignore_ignores(self@.matcher_root, self@.lines, a, true));
                            assert(ancestor_ignored(self@, c));
                            return true;
                        }
                        current = parent;
                        proof {
                            k = k + 1;
                        }
                    },
                }
            }
        }
        false
    }

    /// Whether `path` should be watched: exactly when it is not ignored.
    pub fn should_watch(&self, path: &str, is_dir: bool) -> (r: bool)
        ensures
            r == !filter_ignores(self@, path@, is_dir),
    {
        !self.should_ignore(path, is_dir)
    }
}

/// The ignore filter of the workspace at `workspace_root`, as
/// `IgnoreFilter::new` makes it, to be kept as the current filter of the
/// compatibility functions `should_ignore_dir` and `should_watch_path`.
pub fn init_ignore_filter(workspace_root: String, gitignore: Option<String>) -> (f: IgnoreFilter)
    ensures
        f@.workspace_root == workspace_root@,
        (f@.matcher_root, f@.lines) == built_matcher(
            without_dot_slash(workspace_root@),
            stored_lines(offered_lines(opt_view(gitignore))),
        ),
{
    IgnoreFilter::new(workspace_root, gitignore)
}

/// Whether the compatibility check ignores `path`: with a current filter,
/// as that filter does; without one, when the final component of the path
/// is a version-control directory.
pub open spec fn dir_ignored(current: Option<IgnoreFilterView>, path: Seq<char>, is_dir: bool) -> bool {
    match current {
        Some(v) => filter_ignores(v, path, is_dir),
        None => file_name(path) matches Some(n) && is_vcs_dir(n),
    }
}

/// The view of an optional filter.
pub open spec fn opt_filter_view(f: Option<&IgnoreFilter>) -> Option<IgnoreFilterView> {
    match f {
        Some(x) => Some(x@),
        None => None,
    }
}

/// Whether a directory should be ignored, given the current filter if one
/// was set up (compatibility function).
pub fn should_ignore_dir(current: Option<&IgnoreFilter>, path: &str, is_dir: bool) -> (r: bool)
    ensures
        r == dir_ignored(opt_filter_view(current), path@, is_dir),
{
    match current {
        Some(f) => f.should_ignore(path, is_dir),
        None => match file_name_of(path) {
            Some(name) => is_vcs_name(&name),
            None => false,
        },
    }
}

/// Whether a path should be watched, given the current filter if one was set
/// up (compatibility function): exactly when it is not ignored.
pub fn should_watch_path(current: Option<&IgnoreFilter>, path: &str, is_dir: bool) -> (r: bool)
    ensures
        r == !dir_ignored(opt_filter_view(current), path@, is_dir),
{
    !should_ignore_dir(current, path, is_dir)
}

/// Version-control directories are always ignored: whatever the filter,
/// a path with a version-control directory among its components is ignored,
/// file or directory.
pub proof fn law_vcs_always_ignored(v: IgnoreFilterView, path: Seq<char>, is_dir: bool, i: int)
    requires
        0 <= i < normal_components(path).len(),
        is_vcs_dir(normal_components(path)[i]),
    ensures
        filter_ignores(v, path, is_dir),
{
}

/// Paths outside the workspace are not ignored by its patterns: an absolute
/// path that is not under the workspace root, and has no version-control
/// directory among its components, is never ignored.
pub proof fn law_outside_workspace_kept(v: IgnoreFilterView, path: Seq<char>, is_dir: bool)
    requires
        is_absolute(path),
        path_strip_prefix(path, v.workspace_root) is None,
        forall|i: int| 0 <= i < normal_components(path).len() ==> !is_vcs_dir(#[trigger] normal_components(path)[i]),
    ensures
        !filter_ignores(v, path, is_dir),
{
}

/// A `.gitignore` that the matcher accepts replaces the Python defaults:
/// the lines offered are the version-control directories followed by the
/// lines of the file, and nothing else.
pub proof fn law_gitignore_replaces_defaults(content: Seq<char>)
    requires
        has_gitignore(Some(content)),
    ensures
        offered_lines(Some(content)) == vcs_dirs() + gitignore_file_lines(content),
{
    assert(offered_lines(Some(content)) =~= vcs_dirs() + gitignore_file_lines(content));
}

/// Without a `.gitignore`, the Python defaults are offered after the
/// version-control directories.
pub proof fn law_defaults_without_gitignore()
    ensures
        offered_lines(None) == vcs_dirs() + with_unslashed(default_python_ignore()),
{
    assert(offered_lines(None) =~= vcs_dirs() + with_unslashed(default_python_ignore()));
}

proof fn lemma_ancestor_chain(c: Seq<char>, chain: Seq<Seq<char>>, i: nat)
    requires
        chain.len() >= 1,
        chain[0] == c,
        forall|j: int| 0 <= j < chain.len() - 1 ==> path_parent(#[trigger] chain[j]) == Some(chain[j + 1]),
        i < chain.len(),
    ensures
        ancestor(c, i) == Some(chain[i as int]),
    decreases i,
{
    if i > 0 {
        lemma_ancestor_chain(c, chain, (i - 1) as nat);
        assert(path_parent(chain[i - 1]) == Some(chain[i as int]));
    }
}

/// A file in an ignored directory is ignored: when the path of a file in the
/// workspace (relative, or absolute under the workspace root and taken
/// relative to it) has, by taking parents one or more times, a non-empty
/// directory that the matcher ignores, the file is ignored.
pub proof fn law_file_in_ignored_dir(v: IgnoreFilterView, path: Seq<char>, chain: Seq<Seq<char>>)
    requires
        chain.len() >= 2,
        (if is_absolute(path) { path_strip_prefix(path, v.workspace_root) } else { Some(path) }) == Some(chain[0]),
        forall|j: int| 0 <= j < chain.len() - 1 ==> path_parent(#[trigger] chain[j]) == Some(chain[j + 1]),
        chain.last().len() > 0,
        gitignore_ignores(v.matcher_root, v.lines, chain.last(), true),
    ensures
        filter_ignores(v, path, false),
{
    let c = chain[0];
    let k = (chain.len() - 1) as nat;
    lemma_ancestor_chain(c, chain, k);
    assert(ancestor(c, k) matches Some(a) && a.len() > 0 && gitignore_ignores(v.matcher_root, v.lines, a, true));
    assert(ancestor_ignored(v, c));
}

} // verus!
