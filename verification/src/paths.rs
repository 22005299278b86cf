//! Paths held as text (Unix paths: `/` separates components), and the parts
//! of std's path handling that the library uses.

use std::path::Path;

use vstd::prelude::*;

verus! {

/// The characters of `s`, in order.
pub fn chars_of(s: &str) -> (r: Vec<char>)
    ensures
        r@ == s@,
{
    let mut r: Vec<char> = Vec::new();
    for c in it: s.chars()
        invariant
            r@ == it.seq().take(it.index() as int),
            it.seq() == s@,
    {
        r.push(c);
    }
    r
}

/// `String::push`: appends `c` to `s`.
#[verifier::external_body]
pub(crate) fn push_char(s: &mut String, c: char)
    ensures
        final(s)@ == old(s)@.push(c),
{
    s.push(c);
}

/// The text made of the characters of `v`.
pub fn string_of(v: &Vec<char>) -> (s: String)
    ensures
        s@ == v@,
{
    let mut s = String::new();
    let mut i: usize = 0;
    while i < v.len()
        invariant
            i <= v@.len(),
            s@ == v@.take(i as int),
        decreases v@.len() - i,
    {
        push_char(&mut s, v[i]);
        assert(v@.take(i + 1) =~= v@.take(i as int).push(v@[i as int]));
        i += 1;
    }
    assert(v@.take(v@.len() as int) =~= v@);
    s
}

/// The pieces of `p` between the occurrences of `sep`, empty pieces
/// included: a text with n separators has n + 1 pieces.
pub open spec fn split_on(p: Seq<char>, sep: char) -> Seq<Seq<char>>
    decreases p.len(),
{
    if p.len() == 0 {
        seq![Seq::<char>::empty()]
    } else {
        let r = split_on(p.drop_last(), sep);
        if p.last() == sep {
            r.push(Seq::empty())
        } else {
            r.update(r.len() - 1, r.last().push(p.last()))
        }
    }
}

pub proof fn lemma_split_nonempty(p: Seq<char>, sep: char)
    ensures
        split_on(p, sep).len() >= 1,
    decreases p.len(),
{
    if p.len() > 0 {
        lemma_split_nonempty(p.drop_last(), sep);
    }
}

/// The text `.`.
pub open spec fn dot() -> Seq<char> {
    seq!['.']
}

/// The text `..`.
pub open spec fn dot_dot() -> Seq<char> {
    seq!['.', '.']
}

/// A piece of a path that names a file or directory: not empty, not `.`, not `..`.
pub open spec fn is_normal_piece(s: Seq<char>) -> bool {
    s.len() > 0 && s != dot() && s != dot_dot()
}

/// A piece of a path that is a component of it: not empty and not `.`.
pub open spec fn is_component_piece(s: Seq<char>) -> bool {
    s.len() > 0 && s != dot()
}

/// The test that keeps the pieces naming files or directories.
pub open spec fn normal_pred() -> spec_fn(Seq<char>) -> bool {
    |s: Seq<char>| is_normal_piece(s)
}

/// The test that keeps the component pieces.
pub open spec fn component_pred() -> spec_fn(Seq<char>) -> bool {
    |s: Seq<char>| is_component_piece(s)
}

/// The names of the normal components of `p`, in order, as
/// `Path::components` gives them: separators repeated or trailing, `.`, `..`
/// and the root do not count.
pub open spec fn normal_components(p: Seq<char>) -> Seq<Seq<char>> {
    split_on(p, '/').filter(normal_pred())
}

/// The final component of `p`, as `Path::file_name` gives it: `None` when
/// `p` has no component or ends in `..`.
pub open spec fn file_name(p: Seq<char>) -> Option<Seq<char>> {
    let c = split_on(p, '/').filter(component_pred());
    if c.len() == 0 || c.last() == dot_dot() {
        None
    } else {
        Some(c.last())
    }
}

/// The position of the last `.` in `s`, if any.
pub open spec fn last_dot(s: Seq<char>) -> Option<int>
    decreases s.len(),
{
    if s.len() == 0 {
        None
    } else if s.last() == '.' {
        Some(s.len() - 1)
    } else {
        last_dot(s.drop_last())
    }
}

/// The extension of `p`, as `Path::extension` gives it: the text after the
/// last `.` of the file name; `None` when there is no file name, no `.` in
/// it, or only a leading one.
pub open spec fn extension(p: Seq<char>) -> Option<Seq<char>> {
    match file_name(p) {
        None => None,
        Some(n) => match last_dot(n) {
            None => None,
            Some(i) => if i == 0 { None } else { Some(n.subrange(i + 1, n.len() as int)) },
        },
    }
}

/// On Unix, a path is absolute when it begins with `/` (`Path::is_absolute`).
pub open spec fn is_absolute(p: Seq<char>) -> bool {
    p.len() > 0 && p[0] == '/'
}

/// The path that `Path::parent` gives for `p`, as text.
pub uninterp spec fn path_parent(p: Seq<char>) -> Option<Seq<char>>;

/// The path that `Path::strip_prefix` gives for `p` and `base`, as text.
pub uninterp spec fn path_strip_prefix(p: Seq<char>, base: Seq<char>) -> Option<Seq<char>>;

/// The texts of a list of strings.
pub open spec fn texts(v: Seq<String>) -> Seq<Seq<char>> {
    v.map_values(|s: String| s@)
}

/// The text of an optional string.
pub open spec fn opt_view(o: Option<String>) -> Option<Seq<char>> {
    match o {
        Some(s) => Some(s@),
        None => None,
    }
}

/// `Path::parent`: the path without its final component, if it has one. The
/// contract names the result `path_parent` and claims, as the documentation
/// says, that it is shorter than the path.
#[verifier::external_body]
pub(crate) fn parent_of(p: &str) -> (r: Option<String>)
    ensures
        opt_view(r) == path_parent(p@),
        r matches Some(q) ==> q@.len() < p@.len(),
{
    Path::new(p).parent().map(|q| q.to_string_lossy().into_owned())
}

/// `Path::strip_prefix`: the rest of `p` after the components of `base`, if
/// `base` is a prefix of `p`. The contract names the result `path_strip_prefix`.
#[verifier::external_body]
pub(crate) fn strip_prefix_of(p: &str, base: &str) -> (r: Option<String>)
    ensures
        opt_view(r) == path_strip_prefix(p@, base@),
{
    Path::new(p).strip_prefix(base).ok().map(|q| q.to_string_lossy().into_owned())
}

/// `Path::is_absolute` on Unix.
pub fn path_is_absolute(p: &str) -> (r: bool)
    ensures
        r == is_absolute(p@),
{
    let c = chars_of(p);
    c.len() > 0 && c[0] == '/'
}

/// The pieces of a text split on `sep`, as `split_on` defines them.
pub fn split_chars(p: &Vec<char>, sep: char) -> (r: Vec<Vec<char>>)
    ensures
        r@.len() == split_on(p@, sep).len(),
        forall|i: int| 0 <= i < r@.len() ==> (#[trigger] r@[i])@ == split_on(p@, sep)[i],
{
    let mut r: Vec<Vec<char>> = Vec::new();
    let mut cur: Vec<char> = Vec::new();
    let mut i: usize = 0;
    while i < p.len()
        invariant
            i <= p@.len(),
            r@.len() + 1 == split_on(p@.take(i as int), sep).len(),
            forall|j: int| 0 <= j < r@.len() ==> (#[trigger] r@[j])@ == split_on(p@.take(i as int), sep)[j],
            cur@ == split_on(p@.take(i as int), sep).last(),
        decreases p@.len() - i,
    {
        proof {
            assert(p@.take(i + 1).drop_last() =~= p@.take(i as int));
            lemma_split_nonempty(p@.take(i as int), sep);
        }
        if p[i] == sep {
            r.push(cur);
            cur = Vec::new();
        } else {
            cur.push(p[i]);
        }
        i += 1;
    }
    assert(p@.take(p@.len() as int) =~= p@);
    r.push(cur);
    r
}

/// Whether the piece `s` is `.` or `..`.
fn is_dot(s: &Vec<char>) -> (r: bool)
    ensures
        r == (s@ == dot()),
{
    let r = s.len() == 1 && s[0] == '.';
    if r {
        assert(s@ =~= dot());
    }
    r
}

fn is_dot_dot(s: &Vec<char>) -> (r: bool)
    ensures
        r == (s@ == dot_dot()),
{
    let r = s.len() == 2 && s[0] == '.' && s[1] == '.';
    if r {
        assert(s@ =~= dot_dot());
    }
    r
}

/// The names of the normal components of `p` (`Path::components`, keeping
/// the `Normal` ones).
pub fn components_of(p: &str) -> (r: Vec<String>)
    ensures
        r@.len() == normal_components(p@).len(),
        forall|i: int| 0 <= i < r@.len() ==> (#[trigger] r@[i])@ == normal_components(p@)[i],
{
    let c = chars_of(p);
    let pieces = split_chars(&c, '/');
    let ghost all = split_on(p@, '/');
    let ghost pred = normal_pred();
    let mut r: Vec<String> = Vec::new();
    let mut i: usize = 0;
    while i < pieces.len()
        invariant
            i <= pieces@.len(),
            pieces@.len() == all.len(),
            pred == normal_pred(),
            all == split_on(p@, '/'),
            forall|j: int| 0 <= j < pieces@.len() ==> (#[trigger] pieces@[j])@ == all[j],
            r@.len() == all.take(i as int).filter(pred).len(),
            forall|j: int| 0 <= j < r@.len() ==> (#[trigger] r@[j])@ == all.take(i as int).filter(pred)[j],
        decreases pieces@.len() - i,
    {
        reveal_with_fuel(Seq::filter, 1);
        assert(all.take(i + 1).drop_last() =~= all.take(i as int));
        let piece = &pieces[i];
        if piece.len() > 0 && !is_dot(piece) && !is_dot_dot(piece) {
            r.push(string_of(piece));
        }
        i += 1;
    }
    assert(all.take(all.len() as int) =~= all);
    r
}

/// The last component piece of a list of pieces, as `file_name` takes it.
fn last_component(pieces: &Vec<Vec<char>>) -> (r: Option<usize>)
    ensures
        ({
            let all = pieces@.map_values(|v: Vec<char>| v@);
            let c = all.filter(component_pred());
            match r {
                None => c.len() == 0,
                Some(i) => i < pieces@.len() && c.len() > 0 && c.last() == pieces@[i as int]@,
            }
        }),
{
    let ghost all = pieces@.map_values(|v: Vec<char>| v@);
    let ghost pred = component_pred();
    let mut k: usize = pieces.len();
    assert(all.take(k as int) =~= all);
    while k > 0
        invariant
            k <= pieces@.len(),
            all == pieces@.map_values(|v: Vec<char>| v@),
            pred == component_pred(),
            all.filter(pred) == all.take(k as int).filter(pred),
        decreases k,
    {
        let piece = &pieces[k - 1];
        reveal_with_fuel(Seq::filter, 1);
        assert(all.take(k as int).drop_last() =~= all.take(k - 1));
        assert(all[k - 1] == pieces@[k - 1]@);
        if piece.len() > 0 && !is_dot(piece) {
            assert(pred(all[k - 1]));
            assert(all.take(k as int).last() == all[k - 1]);
            return Some(k - 1);
        }
        k -= 1;
    }
    proof {
        reveal_with_fuel(Seq::filter, 1);
        assert(all.take(0) =~= Seq::<Seq<char>>::empty());
    }
    None
}

/// The final component of `p` (`Path::file_name`).
pub fn file_name_of(p: &str) -> (r: Option<String>)
    ensures
        opt_view(r) == file_name(p@),
{
    let c = chars_of(p);
    let pieces = split_chars(&c, '/');
    proof {
        assert(pieces@.map_values(|v: Vec<char>| v@) =~= split_on(p@, '/'));
    }
    match last_component(&pieces) {
        None => None,
        Some(i) => {
            if is_dot_dot(&pieces[i]) {
                None
            } else {
                Some(string_of(&pieces[i]))
            }
        },
    }
}

/// The extension of `p` (`Path::extension`).
pub fn extension_of(p: &str) -> (r: Option<String>)
    ensures
        opt_view(r) == extension(p@),
{
    match file_name_of(p) {
        None => None,
        Some(name) => {
            let n = chars_of(name.as_str());
            assert(file_name(p@) == Some(n@));
            let mut k: usize = n.len();
            assert(n@.take(k as int) =~= n@);
            while k > 0
                invariant
                    k <= n@.len(),
                    file_name(p@) == Some(n@),
                    last_dot(n@) == last_dot(n@.take(k as int)),
                decreases k,
            {
                assert(n@.take(k as int).drop_last() =~= n@.take(k - 1));
                if n[k - 1] == '.' {
                    assert(n@.take(k as int).last() == '.');
                    assert(last_dot(n@) == Some(k - 1));
                    if k - 1 == 0 {
                        return None;
                    }
                    let mut e: Vec<char> = Vec::new();
                    let mut j: usize = k;
                    while j < n.len()
                        invariant
                            k <= j <= n@.len(),
                            e@ == n@.subrange(k as int, j as int),
                        decreases n@.len() - j,
                    {
                        e.push(n[j]);
                        assert(n@.subrange(k as int, j + 1) =~= n@.subrange(k as int, j as int).push(n@[j as int]));
                        j += 1;
                    }
                    return Some(string_of(&e));
                }
                k -= 1;
            }
            assert(n@.take(0) =~= Seq::<char>::empty());
            None
        },
    }
}

/// Whether `p` names a Python source file: its extension is `py`.
pub fn is_python_file(p: &str) -> (r: bool)
    ensures
        r == (extension(p@) == Some(seq!['p', 'y'])),
{
    match extension_of(p) {
        Some(ext) => {
            let c = chars_of(ext.as_str());
            let r = c.len() == 2 && c[0] == 'p' && c[1] == 'y';
            if r {
                assert(c@ =~= seq!['p', 'y']);
            }
            r
        },
        None => false,
    }
}

} // verus!
