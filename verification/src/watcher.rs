//! File events: the watcher's configuration, the events handed to the
//! index, and how a batch of debounced file-system changes turns into events.

use vstd::prelude::*;

use crate::paths::texts;

verus! {

/// Configuration of the file watcher.
#[derive(Debug, Clone)]
pub struct WatcherConfig {
    /// Debounce period in milliseconds.
    pub debounce_ms: u64,
    /// Maximum time to wait for the debounce timeout, in milliseconds.
    pub timeout_ms: u64,
    /// Number of changed files from which one bulk event is sent instead of one event per file.
    pub batch_threshold: usize,
}

impl Default for WatcherConfig {
    fn default() -> (c: Self)
        ensures
            c.debounce_ms == 100,
            c.timeout_ms == 60000,
            c.batch_threshold == 10,
    {
        WatcherConfig { debounce_ms: 100, timeout_ms: 60000, batch_threshold: 10 }
    }
}

/// A file-system event, after debouncing.
#[derive(Debug, Clone)]
pub enum FileEvent {
    /// A file was modified or created.
    FileChanged(String),
    /// Many files changed at once.
    BulkChange(Vec<String>),
    /// A file was removed.
    FileRemoved(String),
}

/// The mathematical value of a `FileEvent`.
pub enum FileEventView {
    FileChanged(Seq<char>),
    BulkChange(Seq<Seq<char>>),
    FileRemoved(Seq<char>),
}

impl View for FileEvent {
    type V = FileEventView;

    open spec fn view(&self) -> FileEventView {
        match self {
            FileEvent::FileChanged(p) => FileEventView::FileChanged(p@),
            FileEvent::BulkChange(ps) => FileEventView::BulkChange(texts(ps@)),
            FileEvent::FileRemoved(p) => FileEventView::FileRemoved(p@),
        }
    }
}

/// Receives file events, and says which paths are worth watching.
pub trait FileEventHandler: Send + Sync {
    /// Handles a file event.
    fn handle_event(&self, event: FileEvent);

    /// Whether changes to `path` matter (for instance, whether it is a Python file).
    fn should_watch(&self, path: &str) -> bool;
}

/// A change that the debouncer reported for a path, with what was found out
/// about the path when the batch arrived.
#[derive(Debug)]
pub struct DebouncedChange {
    pub path: String,
    /// The debouncer reports the change as of the kind `Any` (not `AnyContinuous`).
    pub is_any: bool,
    /// The path exists on disk.
    pub exists: bool,
    /// The event handler wants to watch the path.
    pub watched: bool,
}

/// The paths of the `Any` changes to watched paths, existing or not as `exists` says, in order.
pub open spec fn selected_paths(evs: Seq<DebouncedChange>, exists: bool) -> Seq<Seq<char>>
    decreases evs.len(),
{
    if evs.len() == 0 {
        Seq::empty()
    } else {
        let rest = selected_paths(evs.drop_last(), exists);
        let e = evs.last();
        if e.is_any && e.watched && e.exists == exists { rest.push(e.path@) } else { rest }
    }
}

/// `s` without repetitions: each element at its first occurrence.
pub open spec fn dedup(s: Seq<Seq<char>>) -> Seq<Seq<char>>
    decreases s.len(),
{
    if s.len() == 0 {
        Seq::empty()
    } else {
        let d = dedup(s.drop_last());
        if d.contains(s.last()) { d } else { d.push(s.last()) }
    }
}

/// The events that a batch of debounced changes turns into: one removal per
/// removed path, then, if some paths changed, one bulk event when there are
/// at least `batch_threshold` of them, or else one change event per path.
/// Each path counts once.
pub open spec fn batch_events(evs: Seq<DebouncedChange>, batch_threshold: usize) -> Seq<FileEventView> {
    let removed = dedup(selected_paths(evs, false));
    let changed = dedup(selected_paths(evs, true));
    removed.map_values(|p: Seq<char>| FileEventView::FileRemoved(p)) + (if changed.len() == 0 {
        Seq::empty()
    } else if changed.len() >= batch_threshold {
        seq![FileEventView::BulkChange(changed)]
    } else {
        changed.map_values(|p: Seq<char>| FileEventView::FileChanged(p))
    })
}

/// Whether `p` is among the paths of `v`.
fn contains_path(v: &Vec<String>, p: &String) -> (r: bool)
    ensures
        r == texts(v@).contains(p@),
{
    let mut i: usize = 0;
    while i < v.len()
        invariant
            i <= v@.len(),
            forall|j: int| 0 <= j < i ==> (#[trigger] v@[j])@ != p@,
        decreases v@.len() - i,
    {
        if v[i] == *p {
            assert(texts(v@)[i as int] == p@);
            return true;
        }
        i += 1;
    }
    proof { lemma_absent_path(v, p); }
    false
}

proof fn lemma_absent_path(v: &Vec<String>, p: &String)
    requires
        forall|j: int| 0 <= j < v@.len() ==> (#[trigger] v@[j])@ != p@,
    ensures
        !texts(v@).contains(p@),
{
    if texts(v@).contains(p@) {
        let j = choose|j: int| 0 <= j < v@.len() && #[trigger] texts(v@)[j] == p@;
        assert(v@[j]@ == p@);
    }
}

/// The events that a batch of debounced changes turns into (see `batch_events`).
pub fn classify_debounced_events(events: &Vec<DebouncedChange>, batch_threshold: usize) -> (r: Vec<FileEvent>)
    ensures
        r@.map_values(|e: FileEvent| e@) == batch_events(events@, batch_threshold),
{
    let mut removed: Vec<String> = Vec::new();
    let mut changed: Vec<String> = Vec::new();
    let mut i: usize = 0;
    while i < events.len()
        invariant
            i <= events@.len(),
            texts(removed@) == dedup(selected_paths(events@.take(i as int), false)),
            texts(changed@) == dedup(selected_paths(events@.take(i as int), true)),
        decreases events@.len() - i,
    {
        let e = &events[i];
        let ghost pre = events@.take(i as int);
        let ghost cur = events@.take(i + 1);
        assert(cur.drop_last() =~= pre);
        assert(cur.last() == *e);
        let ghost sel_f = selected_paths(pre, false);
        let ghost sel_t = selected_paths(pre, true);
        assert(selected_paths(cur, false) == if e.is_any && e.watched && !e.exists { sel_f.push(e.path@) } else { sel_f });
        assert(selected_paths(cur, true) == if e.is_any && e.watched && e.exists { sel_t.push(e.path@) } else { sel_t });
        assert(sel_f.push(e.path@).drop_last() =~= sel_f);
        assert(sel_t.push(e.path@).drop_last() =~= sel_t);
        if e.is_any && e.watched {
            if e.exists {
                if !contains_path(&changed, &e.path) {
                    let ghost before = changed@;
                    changed.push(e.path.clone());
                    assert(texts(changed@) =~= texts(before).push(e.path@));
                }
            } else {
                if !contains_path(&removed, &e.path) {
                    let ghost before = removed@;
                    removed.push(e.path.clone());
                    assert(texts(removed@) =~= texts(before).push(e.path@));
                }
            }
        }
        i += 1;
    }
    assert(events@.take(events@.len() as int) =~= events@);
    let ghost rm = texts(removed@);
    let ghost ch = texts(changed@);
    let mut r: Vec<FileEvent> = Vec::new();
    let mut j: usize = 0;
    while j < removed.len()
        invariant
            j <= removed@.len(),
            rm == texts(removed@),
            r@.map_values(|e: FileEvent| e@) =~= rm.take(j as int).map_values(|p: Seq<char>| FileEventView::FileRemoved(p)),
        decreases removed@.len() - j,
    {
        let ghost before = r@;
        let ev = FileEvent::FileRemoved(removed[j].clone());
        assert(ev@ == FileEventView::FileRemoved(rm[j as int]));
        r.push(ev);
        assert(r@.map_values(|e: FileEvent| e@) =~= before.map_values(|e: FileEvent| e@).push(ev@));
        assert(rm.take(j + 1) =~= rm.take(j as int).push(rm[j as int]));
        j += 1;
    }
    assert(rm.take(removed@.len() as int) =~= rm);
    let ghost head = r@.map_values(|e: FileEvent| e@);
    if changed.len() > 0 {
        if changed.len() >= batch_threshold {
            r.push(FileEvent::BulkChange(changed));
            assert(r@.map_values(|e: FileEvent| e@) =~= head + seq![FileEventView::BulkChange(ch)]);
        } else {
            let mut k: usize = 0;
            while k < changed.len()
                invariant
                    k <= changed@.len(),
                    ch == texts(changed@),
                    r@.map_values(|e: FileEvent| e@) =~= head + ch.take(k as int).map_values(|p: Seq<char>| FileEventView::FileChanged(p)),
                decreases changed@.len() - k,
            {
                let ghost before = r@;
                let ev = FileEvent::FileChanged(changed[k].clone());
                assert(ev@ == FileEventView::FileChanged(ch[k as int]));
                r.push(ev);
                assert(r@.map_values(|e: FileEvent| e@) =~= before.map_values(|e: FileEvent| e@).push(ev@));
                assert(ch.take(k + 1) =~= ch.take(k as int).push(ch[k as int]));
                k += 1;
            }
            assert(ch.take(changed@.len() as int) =~= ch);
        }
    } else {
        assert(head + Seq::<FileEventView>::empty() =~= head);
    }
    r
}

/// Each path of a batch counts once, and none is lost: the list without
/// repetitions holds exactly the paths of the list, none of them twice.
pub proof fn law_dedup_each_once(s: Seq<Seq<char>>)
    ensures
        dedup(s).no_duplicates(),
        forall|p: Seq<char>| #[trigger] dedup(s).contains(p) <==> s.contains(p),
    decreases s.len(),
{
    if s.len() > 0 {
        let rest = s.drop_last();
        law_dedup_each_once(rest);
        let d = dedup(rest);
        assert(s =~= rest.push(s.last()));
        assert forall|p: Seq<char>| #[trigger] s.contains(p) <==> (rest.contains(p) || p == s.last()) by {
            if s.contains(p) {
                let i = choose|i: int| 0 <= i < s.len() && s[i] == p;
                if i < rest.len() {
                    assert(rest[i] == p);
                }
            }
            if rest.contains(p) {
                let i = choose|i: int| 0 <= i < rest.len() && rest[i] == p;
                assert(s[i] == p);
            }
            if p == s.last() {
                assert(s[s.len() - 1] == p);
            }
        }
        if !d.contains(s.last()) {
            let e = d.push(s.last());
            assert forall|p: Seq<char>| #[trigger] e.contains(p) <==> (d.contains(p) || p == s.last()) by {
                if e.contains(p) {
                    let i = choose|i: int| 0 <= i < e.len() && e[i] == p;
                    if i < d.len() {
                        assert(d[i] == p);
                    }
                }
                if d.contains(p) {
                    let i = choose|i: int| 0 <= i < d.len() && d[i] == p;
                    assert(e[i] == p);
                }
                if p == s.last() {
                    assert(e[e.len() - 1] == p);
                }
            }
            assert forall|i: int, j: int| 0 <= i < e.len() && 0 <= j < e.len() && i != j implies e[i] != e[j] by {
                if i < d.len() && j < d.len() {
                    assert(d[i] != d[j]);
                } else if i < d.len() {
                    assert(d.contains(d[i]));
                } else {
                    assert(d.contains(d[j]));
                }
            }
        }
    }
}

proof fn lemma_selected_from(evs: Seq<DebouncedChange>, exists: bool)
    ensures
        forall|k: int| 0 <= k < selected_paths(evs, exists).len() ==> exists|j: int| {
            &&& 0 <= j < evs.len()
            &&& #[trigger] selected_paths(evs, exists)[k] == evs[j].path@
            &&& evs[j].is_any && evs[j].watched && evs[j].exists == exists
        },
    decreases evs.len(),
{
    if evs.len() > 0 {
        let rest = evs.drop_last();
        lemma_selected_from(rest, exists);
        assert forall|k: int| 0 <= k < selected_paths(evs, exists).len() implies exists|j: int| {
            &&& 0 <= j < evs.len()
            &&& #[trigger] selected_paths(evs, exists)[k] == evs[j].path@
            &&& evs[j].is_any && evs[j].watched && evs[j].exists == exists
        } by {
            if k < selected_paths(rest, exists).len() {
                let j = choose|j: int| {
                    &&& 0 <= j < rest.len()
                    &&& #[trigger] selected_paths(rest, exists)[k] == rest[j].path@
                    &&& rest[j].is_any && rest[j].watched && rest[j].exists == exists
                };
                assert(evs[j] == rest[j]);
            } else {
                assert(selected_paths(evs, exists)[k] == evs[evs.len() - 1].path@);
            }
        }
    }
}

/// What a batch of debounced changes reports: first one removal for each
/// removed watched path, each once; then nothing when no watched path
/// changed, one bulk event naming each changed path once when at least
/// `batch_threshold` did, and otherwise one change event for each changed
/// path, each once. Every reported path is that of a watched change of the
/// kind `Any`, existing for a change and gone for a removal.
pub proof fn law_batch_reports(evs: Seq<DebouncedChange>, batch_threshold: usize)
    ensures
        ({
            let removed = dedup(selected_paths(evs, false));
            let changed = dedup(selected_paths(evs, true));
            let out = batch_events(evs, batch_threshold);
            &&& removed.no_duplicates() && changed.no_duplicates()
            &&& forall|p: Seq<char>| #[trigger] removed.contains(p) <==> selected_paths(evs, false).contains(p)
            &&& forall|p: Seq<char>| #[trigger] changed.contains(p) <==> selected_paths(evs, true).contains(p)
            &&& out.len() >= removed.len()
            &&& forall|i: int| 0 <= i < removed.len() ==> #[trigger] out[i] == FileEventView::FileRemoved(removed[i])
            &&& changed.len() == 0 ==> out.len() == removed.len()
            &&& (changed.len() > 0 && changed.len() >= batch_threshold) ==> out.len() == removed.len() + 1
                && out[removed.len() as int] == FileEventView::BulkChange(changed)
            &&& (changed.len() > 0 && changed.len() < batch_threshold) ==> out.len() == removed.len() + changed.len()
                && forall|k: int| 0 <= k < changed.len() ==> #[trigger] out[removed.len() + k]
                    == FileEventView::FileChanged(changed[k])
        }),
        forall|p: Seq<char>, e: bool| #[trigger] selected_paths(evs, e).contains(p) ==> exists|j: int| {
            &&& 0 <= j < evs.len()
            &&& #[trigger] evs[j].path@ == p
            &&& evs[j].is_any && evs[j].watched && evs[j].exists == e
        },
{
    let sr = selected_paths(evs, false);
    let sc = selected_paths(evs, true);
    law_dedup_each_once(sr);
    law_dedup_each_once(sc);
    lemma_selected_from(evs, false);
    lemma_selected_from(evs, true);
    assert forall|p: Seq<char>, e: bool| #[trigger] selected_paths(evs, e).contains(p) implies exists|j: int| {
        &&& 0 <= j < evs.len()
        &&& #[trigger] evs[j].path@ == p
        &&& evs[j].is_any && evs[j].watched && evs[j].exists == e
    } by {
        let k = choose|k: int| 0 <= k < selected_paths(evs, e).len() && selected_paths(evs, e)[k] == p;
        if e {
            assert(selected_paths(evs, true)[k] == p);
        } else {
            assert(selected_paths(evs, false)[k] == p);
        }
    }
}

} // verus!
