//! Keeps the symbol index up to date from file events.
//!
//! The coordinator decides; the caller does the outside work. Each event
//! goes to `handle_event_internal`, which either settles it, queues it while
//! a re-index runs, or asks the caller to read and parse a file (or to
//! index the whole workspace) and to hand the result back through one of
//! the `finish_` methods. A finished re-index returns the events queued
//! meanwhile, which the caller hands back in order.

use vstd::prelude::*;

use crate::index::{add_step, remove_step, SymbolIndex, SymbolIndexView};
use crate::paths::{extension, is_python_file};
use crate::symbols::Symbol;
use crate::watcher::FileEvent;

verus! {

/// What the coordinator is doing.
#[derive(Debug, Clone, Copy, PartialEq, Eq, Structural)]
pub enum UpdaterState {
    /// Ready to process events.
    Idle,
    /// A full re-index of the workspace is running.
    ReIndexing,
    /// A single file is being updated.
    Updating,
}

/// The outside work that an event calls for.
#[derive(Debug)]
pub enum UpdateAction {
    /// Nothing more: the event was applied.
    Done,
    /// The event was queued until the running re-index finishes.
    Queued,
    /// Read and parse this file, then call `finish_file_update`.
    ParseFile(String),
    /// Index the whole workspace at this root into a new index, then call `finish_full_reindex`.
    FullReindex(String),
}

/// The mathematical value of an `UpdateAction`.
pub enum UpdateActionView {
    Done,
    Queued,
    ParseFile(Seq<char>),
    FullReindex(Seq<char>),
}

impl View for UpdateAction {
    type V = UpdateActionView;

    open spec fn view(&self) -> UpdateActionView {
        match self {
            UpdateAction::Done => UpdateActionView::Done,
            UpdateAction::Queued => UpdateActionView::Queued,
            UpdateAction::ParseFile(p) => UpdateActionView::ParseFile(p@),
            UpdateAction::FullReindex(r) => UpdateActionView::FullReindex(r@),
        }
    }
}

/// The mathematical value of an `IndexUpdater`.
pub struct IndexUpdaterView {
    pub index: SymbolIndexView,
    pub state: UpdaterState,
    pub pending: Seq<FileEvent>,
    pub workspace_root: Seq<char>,
}

/// The coordinator after receiving `event`.
pub open spec fn handle_view(v: IndexUpdaterView, event: FileEvent) -> IndexUpdaterView {
    if v.state == UpdaterState::ReIndexing {
        IndexUpdaterView { pending: v.pending.push(event), ..v }
    } else {
        match event {
            FileEvent::FileChanged(_) => IndexUpdaterView { state: UpdaterState::Updating, ..v },
            FileEvent::FileRemoved(p) => IndexUpdaterView {
                index: remove_step(v.index, p@),
                state: UpdaterState::Idle,
                ..v
            },
            FileEvent::BulkChange(_) => IndexUpdaterView { state: UpdaterState::ReIndexing, ..v },
        }
    }
}

/// The outside work that `event` calls for.
pub open spec fn handle_action(v: IndexUpdaterView, event: FileEvent) -> UpdateActionView {
    if v.state == UpdaterState::ReIndexing {
        UpdateActionView::Queued
    } else {
        match event {
            FileEvent::FileChanged(p) => UpdateActionView::ParseFile(p@),
            FileEvent::FileRemoved(_) => UpdateActionView::Done,
            FileEvent::BulkChange(_) => UpdateActionView::FullReindex(v.workspace_root),
        }
    }
}

/// Coordinates index updates from file events.
pub struct IndexUpdater {
    index: SymbolIndex,
    state: UpdaterState,
    pending_updates: Vec<FileEvent>,
    workspace_root: String,
}

impl View for IndexUpdater {
    type V = IndexUpdaterView;

    closed spec fn view(&self) -> IndexUpdaterView {
        IndexUpdaterView {
            index: self.index@,
            state: self.state,
            pending: self.pending_updates@,
            workspace_root: self.workspace_root@,
        }
    }
}

impl IndexUpdater {
    /// An idle coordinator for `index`, the index of the workspace at `workspace_root`.
    pub fn new(index: SymbolIndex, workspace_root: String) -> (u: Self)
        ensures
            u@.index == index@,
            u@.state == UpdaterState::Idle,
            u@.pending == Seq::<FileEvent>::empty(),
            u@.workspace_root == workspace_root@,
    {
        IndexUpdater { index, state: UpdaterState::Idle, pending_updates: Vec::new(), workspace_root }
    }

    /// What the coordinator is doing.
    pub fn state(&self) -> (s: UpdaterState)
        ensures
            s == self@.state,
    {
        self.state
    }

    /// The index it keeps up to date.
    pub fn index(&self) -> (i: &SymbolIndex)
        ensures
            i@ == self@.index,
    {
        &self.index
    }

    /// Handles a file event. While a re-index runs the event is queued.
    /// Otherwise a removed file leaves the index at once; a changed file
    /// must be parsed; a bulk change starts a full re-index of the workspace.
    pub fn handle_event_internal(&mut self, event: FileEvent) -> (a: UpdateAction)
        ensures
            final(self)@ == handle_view(old(self)@, event),
            a@ == handle_action(old(self)@, event),
    {
        if self.state == UpdaterState::ReIndexing {
            self.pending_updates.push(event);
            return UpdateAction::Queued;
        }
        match event {
            FileEvent::FileChanged(path) => {
                self.state = UpdaterState::Updating;
                UpdateAction::ParseFile(path)
            },
            FileEvent::FileRemoved(path) => {
                self.state = UpdaterState::Updating;
                let _ = self.index.remove_file(path.as_str());
                self.state = UpdaterState::Idle;
                UpdateAction::Done
            },
            FileEvent::BulkChange(_) => {
                self.state = UpdaterState::ReIndexing;
                UpdateAction::FullReindex(self.workspace_root.clone())
            },
        }
    }

    /// Finishes a single-file update: the parsed symbols of the file, if it
    /// could be read and parsed, replace its entry; the coordinator is idle again.
    pub fn finish_file_update(&mut self, path: String, parsed: Option<Vec<Symbol>>)
        ensures
            final(self)@ == (IndexUpdaterView {
                index: match parsed {
                    Some(s) => add_step(old(self)@.index, path@, s@),
                    None => old(self)@.index,
                },
                state: UpdaterState::Idle,
                ..old(self)@
            }),
    {
        match parsed {
            Some(symbols) => {
                let _ = self.index.add_file(path, symbols);
            },
            None => {},
        }
        self.state = UpdaterState::Idle;
    }

    /// Replaces the index by a freshly built one.
    pub fn perform_full_reindex(&mut self, new_index: SymbolIndex)
        ensures
            final(self)@ == (IndexUpdaterView { index: new_index@, ..old(self)@ }),
    {
        self.index.swap_index(new_index);
    }

    /// Takes the queued events out, in the order they came.
    pub fn process_pending_updates(&mut self) -> (events: Vec<FileEvent>)
        ensures
            events@ == old(self)@.pending,
            final(self)@ == (IndexUpdaterView { pending: Seq::empty(), ..old(self)@ }),
    {
        let mut events: Vec<FileEvent> = Vec::new();
        std::mem::swap(&mut events, &mut self.pending_updates);
        events
    }

    /// Finishes a full re-index: the new index, if the workspace could be
    /// indexed, replaces the old one; the coordinator is idle again and hands
    /// back the events queued meanwhile, in order.
    pub fn finish_full_reindex(&mut self, new_index: Option<SymbolIndex>) -> (events: Vec<FileEvent>)
        ensures
            events@ == old(self)@.pending,
            final(self)@ == (IndexUpdaterView {
                index: match new_index {
                    Some(n) => n@,
                    None => old(self)@.index,
                },
                state: UpdaterState::Idle,
                pending: Seq::empty(),
                ..old(self)@
            }),
    {
        match new_index {
            Some(n) => self.perform_full_reindex(n),
            None => {},
        }
        self.state = UpdaterState::Idle;
        self.process_pending_updates()
    }

    /// Only Python files are watched: those whose extension is `py`.
    pub fn should_watch(&self, path: &str) -> (r: bool)
        ensures
            r == (extension(path@) == Some(seq!['p', 'y'])),
    {
        is_python_file(path)
    }
}

} // verus!

verus! {

/// The coordinator after receiving each event of `events` in turn.
pub open spec fn handle_all(v: IndexUpdaterView, events: Seq<FileEvent>) -> IndexUpdaterView
    decreases events.len(),
{
    if events.len() == 0 {
        v
    } else {
        handle_view(handle_all(v, events.drop_last()), events.last())
    }
}

/// While a re-index runs, no event is lost, applied early or reordered:
/// events received in turn join the queue in the order they came, and the
/// index and the state stay as they were.
pub proof fn law_events_queued_in_order(v: IndexUpdaterView, events: Seq<FileEvent>)
    requires
        v.state == UpdaterState::ReIndexing,
    ensures
        handle_all(v, events).pending == v.pending + events,
        handle_all(v, events).index == v.index,
        handle_all(v, events).state == UpdaterState::ReIndexing,
        forall|i: int| 0 <= i < events.len() ==>
            handle_action(handle_all(v, events.take(i)), #[trigger] events[i]) == UpdateActionView::Queued,
    decreases events.len(),
{
    if events.len() > 0 {
        law_events_queued_in_order(v, events.drop_last());
        assert(v.pending + events =~= (v.pending + events.drop_last()).push(events.last()));
        assert forall|i: int| 0 <= i < events.len() implies
            handle_action(handle_all(v, events.take(i)), #[trigger] events[i]) == UpdateActionView::Queued by {
            if i < events.len() - 1 {
                assert(events.take(i) =~= events.drop_last().take(i));
                assert(events[i] == events.drop_last()[i]);
            } else {
                assert(events.take(i) =~= events.drop_last());
            }
        }
    }
}

/// A removal outside a re-index takes the file out of the index at once,
/// and leaves the coordinator idle with nothing to do.
pub proof fn law_removal_is_immediate(v: IndexUpdaterView, path: String)
    requires
        v.state != UpdaterState::ReIndexing,
    ensures
        handle_view(v, FileEvent::FileRemoved(path)).index == remove_step(v.index, path@),
        handle_view(v, FileEvent::FileRemoved(path)).state == UpdaterState::Idle,
        handle_action(v, FileEvent::FileRemoved(path)) == UpdateActionView::Done,
{
}

/// Outside a re-index a changed file is always parsed, whatever the
/// coordinator is doing (updates may run side by side): the action asks to
/// parse exactly that file, and only the state changes, to `Updating`.
pub proof fn law_changed_file_is_parsed(v: IndexUpdaterView, path: String)
    requires
        v.state != UpdaterState::ReIndexing,
    ensures
        handle_action(v, FileEvent::FileChanged(path)) == UpdateActionView::ParseFile(path@),
        handle_view(v, FileEvent::FileChanged(path)) == (IndexUpdaterView { state: UpdaterState::Updating, ..v }),
{
}

/// Outside a re-index a bulk change starts a full re-index of the workspace,
/// whatever files it names, and leaves the index and the queue as they were.
pub proof fn law_bulk_change_reindexes(v: IndexUpdaterView, paths: Vec<String>)
    requires
        v.state != UpdaterState::ReIndexing,
    ensures
        handle_action(v, FileEvent::BulkChange(paths)) == UpdateActionView::FullReindex(v.workspace_root),
        handle_view(v, FileEvent::BulkChange(paths)) == (IndexUpdaterView { state: UpdaterState::ReIndexing, ..v }),
{
}

} // verus!
