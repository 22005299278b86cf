//! Symbol indexing and storage.

use vstd::prelude::*;

use crate::error::Error;
use crate::symbols::Symbol;

verus! {

/// The symbols of `s` that do not come from the file at `path`, in their order.
pub open spec fn without_file(s: Seq<Symbol>, path: Seq<char>) -> Seq<Symbol> {
    s.filter(|x: Symbol| x.file_path@ != path)
}

/// The file table held as a list of entries: the files its keys name, each with its symbols.
pub open spec fn entries_map(e: Seq<(String, Vec<Symbol>)>) -> Map<Seq<char>, Seq<Symbol>> {
    Map::new(
        |k: Seq<char>| exists|i: int| 0 <= i < e.len() && (#[trigger] e[i]).0@ == k,
        |k: Seq<char>| e[choose|i: int| 0 <= i < e.len() && (#[trigger] e[i]).0@ == k].1@,
    )
}

/// No two entries of the file table name the same file.
pub open spec fn keys_distinct(e: Seq<(String, Vec<Symbol>)>) -> bool {
    forall|i: int, j: int|
        0 <= i < e.len() && 0 <= j < e.len() && i != j ==> (#[trigger] e[i]).0@ != (#[trigger] e[j]).0@
}

/// The mathematical value of a `SymbolIndex`.
pub struct SymbolIndexView {
    /// The symbols recorded for each file.
    pub files: Map<Seq<char>, Seq<Symbol>>,
    /// The flat list of all symbols, in the order they were added.
    pub all: Seq<Symbol>,
}

/// The index after recording `symbols` for the file at `path`: the symbols
/// of that file leave the flat list if the file was indexed, and the new
/// symbols are appended to it.
pub open spec fn add_step(v: SymbolIndexView, path: Seq<char>, symbols: Seq<Symbol>) -> SymbolIndexView {
    SymbolIndexView {
        files: v.files.insert(path, symbols),
        all: (if v.files.contains_key(path) { without_file(v.all, path) } else { v.all }) + symbols,
    }
}

/// The index after forgetting the file at `path`.
pub open spec fn remove_step(v: SymbolIndexView, path: Seq<char>) -> SymbolIndexView {
    SymbolIndexView { files: v.files.remove(path), all: without_file(v.all, path) }
}

/// The index after recording each update of `u` in turn.
pub open spec fn add_steps(v: SymbolIndexView, u: Seq<(String, Vec<Symbol>)>) -> SymbolIndexView
    decreases u.len(),
{
    if u.len() == 0 {
        v
    } else {
        add_step(add_steps(v, u.drop_last()), u.last().0@, u.last().1@)
    }
}

/// The number of symbols that a list of updates carries, capped at the
/// largest `usize`.
pub open spec fn update_symbol_total(u: Seq<(String, Vec<Symbol>)>) -> nat
    decreases u.len(),
{
    if u.len() == 0 {
        0
    } else {
        let t = update_symbol_total(u.drop_last()) + u.last().1@.len();
        if t > usize::MAX { usize::MAX as nat } else { t as nat }
    }
}

/// An index of the symbols of a workspace: the symbols of each file, and a
/// flat list of all symbols for searching.
pub struct SymbolIndex {
    files: Vec<(String, Vec<Symbol>)>,
    all_symbols: Vec<Symbol>,
}

impl View for SymbolIndex {
    type V = SymbolIndexView;

    closed spec fn view(&self) -> SymbolIndexView {
        SymbolIndexView { files: entries_map(self.files@), all: self.all_symbols@ }
    }
}

proof fn lemma_entries_lookup(e: Seq<(String, Vec<Symbol>)>, i: int)
    requires
        keys_distinct(e),
        0 <= i < e.len(),
    ensures
        entries_map(e).contains_key(e[i].0@),
        entries_map(e)[e[i].0@] == e[i].1@,
{
    let k = e[i].0@;
    assert(entries_map(e).dom().contains(k));
    let j = choose|j: int| 0 <= j < e.len() && (#[trigger] e[j]).0@ == k;
    assert(j == i);
}

proof fn lemma_entries_len(e: Seq<(String, Vec<Symbol>)>)
    requires
        keys_distinct(e),
    ensures
        entries_map(e).dom().len() == e.len(),
        entries_map(e).dom().finite(),
{
    let ks = Seq::new(e.len(), |i: int| e[i].0@);
    assert(ks.no_duplicates()) by {
        assert forall|i: int, j: int| 0 <= i < ks.len() && 0 <= j < ks.len() && i != j implies ks[i] != ks[j] by {
            assert(e[i].0@ != e[j].0@);
        }
    }
    ks.unique_seq_to_set();
    assert forall|k: Seq<char>| #[trigger] entries_map(e).dom().contains(k) <==> ks.to_set().contains(k) by {
        if entries_map(e).dom().contains(k) {
            let j = choose|j: int| 0 <= j < e.len() && (#[trigger] e[j]).0@ == k;
            assert(ks[j] == k);
        }
        if ks.to_set().contains(k) {
            let j = choose|j: int| 0 <= j < ks.len() && ks[j] == k;
            assert(e[j].0@ == k);
        }
    }
    assert(entries_map(e).dom() =~= ks.to_set());
}

proof fn lemma_entries_absent(e: Seq<(String, Vec<Symbol>)>, k: Seq<char>)
    requires
        forall|i: int| 0 <= i < e.len() ==> (#[trigger] e[i]).0@ != k,
    ensures
        !entries_map(e).contains_key(k),
{
}

proof fn lemma_entries_update(e: Seq<(String, Vec<Symbol>)>, i: int, entry: (String, Vec<Symbol>))
    requires
        keys_distinct(e),
        0 <= i < e.len(),
        e[i].0@ == entry.0@,
    ensures
        keys_distinct(e.update(i, entry)),
        entries_map(e.update(i, entry)) == entries_map(e).insert(entry.0@, entry.1@),
{
    let e2 = e.update(i, entry);
    assert forall|a: int, b: int|
        0 <= a < e2.len() && 0 <= b < e2.len() && a != b implies (#[trigger] e2[a]).0@ != (#[trigger] e2[b]).0@ by {
        assert(e[a].0@ != e[b].0@);
    }
    let m = entries_map(e).insert(entry.0@, entry.1@);
    assert forall|k: Seq<char>| #[trigger] entries_map(e2).contains_key(k) <==> m.contains_key(k) by {
        if m.contains_key(k) && k != entry.0@ {
            let j = choose|j: int| 0 <= j < e.len() && (#[trigger] e[j]).0@ == k;
            assert(e2[j].0@ == k);
        }
        if k == entry.0@ {
            assert(e2[i].0@ == k);
        }
        if entries_map(e2).contains_key(k) {
            let j = choose|j: int| 0 <= j < e2.len() && (#[trigger] e2[j]).0@ == k;
            if j != i {
                assert(e[j].0@ == k);
            }
        }
    }
    assert forall|k: Seq<char>| #[trigger] entries_map(e2).contains_key(k) implies entries_map(e2)[k] == m[k] by {
        let j = choose|j: int| 0 <= j < e2.len() && (#[trigger] e2[j]).0@ == k;
        lemma_entries_lookup(e2, j);
        if j != i {
            lemma_entries_lookup(e, j);
        }
    }
    assert(entries_map(e2) =~= m);
}

proof fn lemma_entries_push(e: Seq<(String, Vec<Symbol>)>, entry: (String, Vec<Symbol>))
    requires
        keys_distinct(e),
        !entries_map(e).contains_key(entry.0@),
    ensures
        keys_distinct(e.push(entry)),
        entries_map(e.push(entry)) == entries_map(e).insert(entry.0@, entry.1@),
{
    let e2 = e.push(entry);
    assert forall|a: int, b: int|
        0 <= a < e2.len() && 0 <= b < e2.len() && a != b implies (#[trigger] e2[a]).0@ != (#[trigger] e2[b]).0@ by {
        if a < e.len() && b < e.len() {
            assert(e[a].0@ != e[b].0@);
        } else if a < e.len() {
            assert(entries_map(e).contains_key(e[a].0@));
        } else {
            assert(entries_map(e).contains_key(e[b].0@));
        }
    }
    let m = entries_map(e).insert(entry.0@, entry.1@);
    assert forall|k: Seq<char>| #[trigger] entries_map(e2).contains_key(k) <==> m.contains_key(k) by {
        if m.contains_key(k) && k != entry.0@ {
            let j = choose|j: int| 0 <= j < e.len() && (#[trigger] e[j]).0@ == k;
            assert(e2[j].0@ == k);
        }
        if k == entry.0@ {
            assert(e2[e.len() as int].0@ == k);
        }
        if entries_map(e2).contains_key(k) {
            let j = choose|j: int| 0 <= j < e2.len() && (#[trigger] e2[j]).0@ == k;
            if j < e.len() {
                assert(e[j].0@ == k);
            }
        }
    }
    assert forall|k: Seq<char>| #[trigger] entries_map(e2).contains_key(k) implies entries_map(e2)[k] == m[k] by {
        let j = choose|j: int| 0 <= j < e2.len() && (#[trigger] e2[j]).0@ == k;
        lemma_entries_lookup(e2, j);
        if j < e.len() {
            lemma_entries_lookup(e, j);
        }
    }
    assert(entries_map(e2) =~= m);
}

proof fn lemma_entries_remove(e: Seq<(String, Vec<Symbol>)>, i: int)
    requires
        keys_distinct(e),
        0 <= i < e.len(),
    ensures
        keys_distinct(e.remove(i)),
        entries_map(e.remove(i)) == entries_map(e).remove(e[i].0@),
{
    let e2 = e.remove(i);
    let k0 = e[i].0@;
    assert forall|a: int, b: int|
        0 <= a < e2.len() && 0 <= b < e2.len() && a != b implies (#[trigger] e2[a]).0@ != (#[trigger] e2[b]).0@ by {
        let a1 = if a < i { a } else { a + 1 };
        let b1 = if b < i { b } else { b + 1 };
        assert(e2[a] == e[a1]);
        assert(e2[b] == e[b1]);
        assert(e[a1].0@ != e[b1].0@);
    }
    let m = entries_map(e).remove(k0);
    assert forall|k: Seq<char>| #[trigger] entries_map(e2).contains_key(k) <==> m.contains_key(k) by {
        if m.contains_key(k) {
            let j = choose|j: int| 0 <= j < e.len() && (#[trigger] e[j]).0@ == k;
            assert(j != i);
            let j2 = if j < i { j } else { j - 1 };
            assert(e2[j2] == e[j]);
        }
        if entries_map(e2).contains_key(k) {
            let j = choose|j: int| 0 <= j < e2.len() && (#[trigger] e2[j]).0@ == k;
            let j1 = if j < i { j } else { j + 1 };
            assert(e2[j] == e[j1]);
            assert(e[j1].0@ == k);
            assert(j1 != i);
        }
    }
    assert forall|k: Seq<char>| #[trigger] entries_map(e2).contains_key(k) implies entries_map(e2)[k] == m[k] by {
        let j = choose|j: int| 0 <= j < e2.len() && (#[trigger] e2[j]).0@ == k;
        lemma_entries_lookup(e2, j);
        let j1 = if j < i { j } else { j + 1 };
        assert(e2[j] == e[j1]);
        lemma_entries_lookup(e, j1);
    }
    assert(entries_map(e2) =~= m);
}

/// A copy of a list of symbols.
fn clone_symbols(v: &Vec<Symbol>) -> (r: Vec<Symbol>)
    ensures
        r@ == v@,
{
    let mut r: Vec<Symbol> = Vec::new();
    let mut i: usize = 0;
    while i < v.len()
        invariant
            i <= v.len(),
            r@ == v@.take(i as int),
        decreases v.len() - i,
    {
        r.push(v[i].clone());
        assert(v@.take(i + 1) =~= v@.take(i as int).push(v@[i as int]));
        i += 1;
    }
    assert(v@.take(v.len() as int) =~= v@);
    r
}

/// The symbols of `v` that do not come from the file at `path`.
fn filter_out_file(v: &Vec<Symbol>, path: &String) -> (r: Vec<Symbol>)
    ensures
        r@ == without_file(v@, path@),
{
    let mut r: Vec<Symbol> = Vec::new();
    let mut i: usize = 0;
    while i < v.len()
        invariant
            i <= v.len(),
            r@ == without_file(v@.take(i as int), path@),
        decreases v.len() - i,
    {
        proof {
            reveal_with_fuel(Seq::filter, 1);
            assert(v@.take(i + 1).drop_last() =~= v@.take(i as int));
        }
        if v[i].file_path != *path {
            r.push(v[i].clone());
        }
        i += 1;
    }
    assert(v@.take(v.len() as int) =~= v@);
    r
}

impl SymbolIndex {
    /// The file table holds each file once.
    #[verifier::type_invariant]
    closed spec fn wf(&self) -> bool {
        keys_distinct(self.files@)
    }

    /// An empty index.
    pub fn new() -> (idx: Self)
        ensures
            idx@.files == Map::<Seq<char>, Seq<Symbol>>::empty(),
            idx@.all == Seq::<Symbol>::empty(),
    {
        let idx = SymbolIndex { files: Vec::new(), all_symbols: Vec::new() };
        assert(entries_map(idx.files@) =~= Map::<Seq<char>, Seq<Symbol>>::empty());
        idx
    }

    /// The position of the entry for `path` in the file table, if there is one.
    fn find_file(&self, path: &String) -> (r: Option<usize>)
        ensures
            match r {
                Some(i) => i < self.files@.len() && self.files@[i as int].0@ == path@,
                None => forall|i: int| 0 <= i < self.files@.len() ==> (#[trigger] self.files@[i]).0@ != path@,
            },
            r.is_some() <==> self@.files.contains_key(path@),
    {
        proof { use_type_invariant(self); }
        let mut i: usize = 0;
        while i < self.files.len()
            invariant
                keys_distinct(self.files@),
                i <= self.files@.len(),
                forall|j: int| 0 <= j < i ==> (#[trigger] self.files@[j]).0@ != path@,
            decreases self.files.len() - i,
        {
            if self.files[i].0 == *path {
                proof { lemma_entries_lookup(self.files@, i as int); }
                return Some(i);
            }
            i += 1;
        }
        proof { lemma_entries_absent(self.files@, path@); }
        None
    }

    /// Records `symbols` as the symbols of the file at `path`. If the file was
    /// already indexed, every symbol that comes from that file is first taken
    /// out of the flat list; the new symbols are then appended to it.
    pub fn add_file(&mut self, path: String, symbols: Vec<Symbol>) -> (r: Result<(), Error>)
        ensures
            r.is_ok(),
            final(self)@ == add_step(old(self)@, path@, symbols@),
    {
        proof { use_type_invariant(&*self); }
        let found = self.find_file(&path);
        let mut all = if found.is_some() {
            filter_out_file(&self.all_symbols, &path)
        } else {
            clone_symbols(&self.all_symbols)
        };
        let mut copy = clone_symbols(&symbols);
        all.append(&mut copy);
        self.all_symbols = all;
        let mut files: Vec<(String, Vec<Symbol>)> = Vec::new();
        std::mem::swap(&mut files, &mut self.files);
        match found {
            Some(i) => {
                proof { lemma_entries_update(files@, i as int, (path, symbols)); }
                files.set(i, (path, symbols));
            },
            None => {
                proof { lemma_entries_push(files@, (path, symbols)); }
                files.push((path, symbols));
            },
        }
        self.files = files;
        Ok(())
    }

    /// Forgets the file at `path`: its entry goes, and so does every symbol of
    /// the flat list that comes from it.
    pub fn remove_file(&mut self, path: &str) -> (r: Result<(), Error>)
        ensures
            r.is_ok(),
            final(self)@ == remove_step(old(self)@, path@),
    {
        proof { use_type_invariant(&*self); }
        let path = path.to_owned();
        match self.find_file(&path) {
            Some(i) => {
                let mut files: Vec<(String, Vec<Symbol>)> = Vec::new();
                std::mem::swap(&mut files, &mut self.files);
                proof { lemma_entries_remove(files@, i as int); }
                files.remove(i);
                self.files = files;
            },
            None => {
                assert(entries_map(self.files@).remove(path@) =~= entries_map(self.files@));
            },
        }
        self.all_symbols = filter_out_file(&self.all_symbols, &path);
        Ok(())
    }

    /// A copy of the flat list of all symbols.
    pub fn get_all_symbols(&self) -> (r: Vec<Symbol>)
        ensures
            r@ == self@.all,
    {
        clone_symbols(&self.all_symbols)
    }

    /// A copy of the symbols recorded for the file at `path`, if it is indexed.
    pub fn get_file_symbols(&self, path: &str) -> (r: Option<Vec<Symbol>>)
        ensures
            r.is_some() <==> self@.files.contains_key(path@),
            r matches Some(v) ==> v@ == self@.files[path@],
    {
        proof { use_type_invariant(self); }
        let path = path.to_owned();
        match self.find_file(&path) {
            Some(i) => {
                proof { lemma_entries_lookup(self.files@, i as int); }
                Some(clone_symbols(&self.files[i].1))
            },
            None => None,
        }
    }

    /// Empties the index.
    pub fn clear(&mut self)
        ensures
            final(self)@.files == Map::<Seq<char>, Seq<Symbol>>::empty(),
            final(self)@.all == Seq::<Symbol>::empty(),
    {
        self.files = Vec::new();
        self.all_symbols = Vec::new();
        assert(entries_map(self.files@) =~= Map::<Seq<char>, Seq<Symbol>>::empty());
    }

    /// The number of indexed files.
    pub fn get_file_count(&self) -> (n: usize)
        ensures
            n == self@.files.len(),
    {
        proof {
            use_type_invariant(self);
            lemma_entries_len(self.files@);
        }
        self.files.len()
    }

    /// Records each update in turn, as `add_file` does, and reports how many
    /// files were updated and how many symbols they carry.
    pub fn update_files_batch(&mut self, updates: Vec<(String, Vec<Symbol>)>) -> (r: Result<(usize, usize), Error>)
        ensures
            final(self)@ == add_steps(old(self)@, updates@),
            r matches Ok((files, symbols)) && files == updates@.len()
                && symbols == update_symbol_total(updates@),
    {
        let n = updates.len();
        let mut total: usize = 0;
        let mut rest = updates;
        let mut done: Vec<(String, Vec<Symbol>)> = Vec::new();
        let ghost start = self@;
        let ghost all_updates = rest@;
        // Process from the front: reverse once so that `pop` yields updates in order.
        let mut pending: Vec<(String, Vec<Symbol>)> = Vec::new();
        while rest.len() > 0
            invariant
                pending@.len() + rest@.len() == all_updates.len(),
                rest@ == all_updates.take(rest@.len() as int),
                forall|i: int| 0 <= i < pending@.len() ==>
                    #[trigger] pending@[i] == all_updates[all_updates.len() - 1 - i],
            decreases rest@.len(),
        {
            let u = rest.pop().unwrap();
            pending.push(u);
        }
        while pending.len() > 0
            invariant
                done@.len() + pending@.len() == all_updates.len(),
                done@ == all_updates.take(done@.len() as int),
                forall|i: int| 0 <= i < pending@.len() ==>
                    #[trigger] pending@[i] == all_updates[all_updates.len() - 1 - i],
                self@ == add_steps(start, done@),
                total == update_symbol_total(done@),
            decreases pending@.len(),
        {
            let u = pending.pop().unwrap();
            let ghost before = done@;
            let count = u.1.len();
            total = if total > usize::MAX - count { usize::MAX } else { total + count };
            let r = self.add_file(u.0.clone(), clone_symbols(&u.1));
            done.push(u);
            assert(done@.drop_last() =~= before);
            assert(done@ =~= all_updates.take(done@.len() as int));
        }
        assert(done@ =~= all_updates);
        Ok((n, total))
    }

    /// Replaces the whole content of the index by that of `new_index`.
    pub fn swap_index(&mut self, new_index: SymbolIndex)
        ensures
            final(self)@ == new_index@,
    {
        *self = new_index;
    }
}

} // verus!

verus! {

proof fn lemma_without_file_idempotent(s: Seq<Symbol>, path: Seq<char>)
    ensures
        without_file(without_file(s, path), path) == without_file(s, path),
    decreases s.len(),
{
    reveal_with_fuel(Seq::filter, 1);
    if s.len() > 0 {
        lemma_without_file_idempotent(s.drop_last(), path);
        let f = without_file(s.drop_last(), path);
        if s.last().file_path@ != path {
            assert(without_file(s, path) == f.push(s.last()));
            assert(without_file(s, path).drop_last() =~= f);
        }
    }
}

proof fn lemma_without_file_of_own(s: Seq<Symbol>, path: Seq<char>)
    requires
        forall|i: int| 0 <= i < s.len() ==> (#[trigger] s[i]).file_path@ == path,
    ensures
        without_file(s, path) == Seq::<Symbol>::empty(),
    decreases s.len(),
{
    reveal_with_fuel(Seq::filter, 1);
    if s.len() > 0 {
        lemma_without_file_of_own(s.drop_last(), path);
    }
}

proof fn lemma_without_file_excludes(s: Seq<Symbol>, path: Seq<char>)
    ensures
        forall|i: int| 0 <= i < without_file(s, path).len() ==>
            (#[trigger] without_file(s, path)[i]).file_path@ != path,
{
    broadcast use vstd::seq_lib::group_filter_ensures;
}

/// Reading back a write: once the symbols of a file are recorded, looking the
/// file up gives exactly those symbols, and the symbols of every other file
/// are as they were.
pub proof fn law_lookup_after_add(v: SymbolIndexView, path: Seq<char>, symbols: Seq<Symbol>, other: Seq<char>)
    requires
        other != path,
    ensures
        add_step(v, path, symbols).files.contains_key(path),
        add_step(v, path, symbols).files[path] == symbols,
        add_step(v, path, symbols).files.contains_key(other) == v.files.contains_key(other),
        v.files.contains_key(other) ==> add_step(v, path, symbols).files[other] == v.files[other],
{
}

/// The flat list after recording the symbols of a file ends with exactly
/// those symbols.
pub proof fn law_add_appends(v: SymbolIndexView, path: Seq<char>, symbols: Seq<Symbol>)
    ensures
        add_step(v, path, symbols).all.len() >= symbols.len(),
        add_step(v, path, symbols).all.subrange(
            add_step(v, path, symbols).all.len() - symbols.len(),
            add_step(v, path, symbols).all.len() as int,
        ) == symbols,
{
    let a = add_step(v, path, symbols).all;
    assert(a.subrange(a.len() - symbols.len(), a.len() as int) =~= symbols);
}

/// A removed file is gone: it has no entry, and no symbol of the flat list
/// comes from it.
pub proof fn law_remove_forgets(v: SymbolIndexView, path: Seq<char>)
    ensures
        !remove_step(v, path).files.contains_key(path),
        forall|i: int| 0 <= i < remove_step(v, path).all.len() ==>
            (#[trigger] remove_step(v, path).all[i]).file_path@ != path,
{
    lemma_without_file_excludes(v.all, path);
}

/// Removing a file undoes recording it: when the recorded symbols all come
/// from that file, adding them and then removing the file leaves the index
/// as removing the file alone would.
pub proof fn law_remove_undoes_add(v: SymbolIndexView, path: Seq<char>, symbols: Seq<Symbol>)
    requires
        forall|i: int| 0 <= i < symbols.len() ==> (#[trigger] symbols[i]).file_path@ == path,
    ensures
        remove_step(add_step(v, path, symbols), path) == remove_step(v, path),
{
    let pred = |x: Symbol| x.file_path@ != path;
    let kept = if v.files.contains_key(path) { without_file(v.all, path) } else { v.all };
    Seq::filter_distributes_over_add(kept, symbols, pred);
    assert((kept + symbols).filter(pred) == kept.filter(pred) + symbols.filter(pred));
    lemma_without_file_of_own(symbols, path);
    lemma_without_file_idempotent(v.all, path);
    assert(kept.filter(pred) + Seq::<Symbol>::empty() =~= kept.filter(pred));
    assert(add_step(v, path, symbols).files.remove(path) =~= v.files.remove(path));
}

/// A call that changes an index: `add_file`, `remove_file` or `clear`.
pub enum IndexOp {
    Add(Seq<char>, Seq<Symbol>),
    Remove(Seq<char>),
    Clear,
}

/// The index after the call `op`, as the call's contract states it.
pub open spec fn apply_op(v: SymbolIndexView, op: IndexOp) -> SymbolIndexView {
    match op {
        IndexOp::Add(path, symbols) => add_step(v, path, symbols),
        IndexOp::Remove(path) => remove_step(v, path),
        IndexOp::Clear => SymbolIndexView { files: Map::empty(), all: Seq::empty() },
    }
}

/// The index after each call of `ops` in turn.
pub open spec fn apply_ops(v: SymbolIndexView, ops: Seq<IndexOp>) -> SymbolIndexView
    decreases ops.len(),
{
    if ops.len() == 0 {
        v
    } else {
        apply_op(apply_ops(v, ops.drop_last()), ops.last())
    }
}

/// The symbols last recorded for `path` by the calls `ops` made on `v`:
/// those of the last `add_file` of the path not followed by its removal or
/// by a `clear`; with no such call, those `v` holds for it.
pub open spec fn last_recorded(v: SymbolIndexView, ops: Seq<IndexOp>, path: Seq<char>) -> Option<Seq<Symbol>>
    decreases ops.len(),
{
    if ops.len() == 0 {
        if v.files.contains_key(path) { Some(v.files[path]) } else { None }
    } else {
        match ops.last() {
            IndexOp::Add(p, symbols) => if p == path { Some(symbols) } else { last_recorded(v, ops.drop_last(), path) },
            IndexOp::Remove(p) => if p == path { None } else { last_recorded(v, ops.drop_last(), path) },
            IndexOp::Clear => None,
        }
    }
}

/// Reading back over any history: after any sequence of `add_file`,
/// `remove_file` and `clear` calls, looking a file up gives the symbols of
/// its last `add_file` not followed by its removal or a `clear`, and nothing
/// when there is none.
pub proof fn law_lookup_after_history(v: SymbolIndexView, ops: Seq<IndexOp>, path: Seq<char>)
    ensures
        apply_ops(v, ops).files.contains_key(path) == last_recorded(v, ops, path) is Some,
        last_recorded(v, ops, path) matches Some(s) ==> apply_ops(v, ops).files[path] == s,
    decreases ops.len(),
{
    if ops.len() > 0 {
        law_lookup_after_history(v, ops.drop_last(), path);
    }
}

/// A batch of updates is `add_file` of each update in turn, from the first:
/// an empty batch changes nothing, and a batch that starts with `(path,
/// symbols)` records those symbols as `add_file` does, then the rest.
pub proof fn law_batch_is_adds_in_turn(v: SymbolIndexView, first: (String, Vec<Symbol>), rest: Seq<(String, Vec<Symbol>)>)
    ensures
        add_steps(v, Seq::empty()) == v,
        add_steps(v, seq![first] + rest) == add_steps(add_step(v, first.0@, first.1@), rest),
    decreases rest.len(),
{
    if rest.len() == 0 {
        assert(seq![first] + rest =~= seq![first]);
        assert(seq![first].drop_last() =~= Seq::<(String, Vec<Symbol>)>::empty());
    } else {
        law_batch_is_adds_in_turn(v, first, rest.drop_last());
        assert((seq![first] + rest).drop_last() =~= seq![first] + rest.drop_last());
        assert((seq![first] + rest).last() == rest.last());
    }
}

/// Re-recording an indexed file leaves no stale symbol of it: every symbol
/// of the new flat list that comes from the file is one of its new symbols,
/// and every symbol of the old flat list from another file stays.
pub proof fn law_add_drops_stale(v: SymbolIndexView, path: Seq<char>, symbols: Seq<Symbol>)
    requires
        v.files.contains_key(path),
    ensures
        forall|i: int| 0 <= i < add_step(v, path, symbols).all.len()
            && (#[trigger] add_step(v, path, symbols).all[i]).file_path@ == path
            ==> symbols.contains(add_step(v, path, symbols).all[i]),
        forall|i: int| 0 <= i < v.all.len() && (#[trigger] v.all[i]).file_path@ != path
            ==> add_step(v, path, symbols).all.contains(v.all[i]),
{
    let kept = without_file(v.all, path);
    let a = add_step(v, path, symbols).all;
    assert(a == kept + symbols);
    lemma_without_file_excludes(v.all, path);
    assert forall|i: int| 0 <= i < a.len() && (#[trigger] a[i]).file_path@ == path implies symbols.contains(a[i]) by {
        if i < kept.len() {
            assert(a[i] == kept[i]);
        } else {
            assert(a[i] == symbols[i - kept.len()]);
        }
    }
    assert forall|i: int| 0 <= i < v.all.len() && (#[trigger] v.all[i]).file_path@ != path implies a.contains(v.all[i]) by {
        let pred = |x: Symbol| x.file_path@ != path;
        broadcast use vstd::seq_lib::group_filter_ensures;
        assert(v.all.contains(v.all[i]));
        assert(kept.contains(v.all[i]));
        let j = choose|j: int| 0 <= j < kept.len() && kept[j] == v.all[i];
        assert(a[j] == kept[j]);
    }
}

} // verus!
