//! The undo history: snapshots of sheet and view with content versions,
//! merging of view-only steps and eviction past a fixed length.

use vstd::prelude::*;
use vstd::view::View as _;

use crate::sheet::{Sheet, SheetModel};
use crate::view::{view_consistent, View, ViewModel};

verus! {

/// Most entries that the history keeps.
pub const MAX_HISTORY_LENGTH: usize = 100;

/// One undo step: a snapshot of the sheet and the view, the version of the
/// content, and the command that led to it.
#[derive(Debug)]
pub struct HistoryEntry<C> {
    pub last_command: Option<C>,
    pub sheet: Sheet,
    pub view: View,
    pub version: u64,
}

pub ghost struct EntryModel {
    pub sheet: SheetModel,
    pub view: ViewModel,
    pub version: u64,
}

pub ghost struct HistoryModel {
    pub entries: Seq<EntryModel>,
    pub index: int,
    pub next_version: u64,
}

/// The undo history: a list of snapshots and the position of the current one.
#[derive(Debug)]
pub struct History<C> {
    entries: Vec<HistoryEntry<C>>,
    index: usize,
    next_version: u64,
}

impl<C> vstd::view::View for HistoryEntry<C> {
    type V = EntryModel;

    open spec fn view(&self) -> EntryModel {
        EntryModel { sheet: self.sheet@, view: self.view@, version: self.version }
    }
}

pub open spec fn entries_view<C>(v: Seq<HistoryEntry<C>>) -> Seq<EntryModel> {
    v.map_values(|e: HistoryEntry<C>| e@)
}

impl HistoryModel {
    /// Never empty, never over the cap, the index on an entry, and no entry's
    /// version above the counter.
    pub open spec fn wf(self) -> bool {
        &&& 1 <= self.entries.len() <= MAX_HISTORY_LENGTH
        &&& 0 <= self.index < self.entries.len()
        &&& forall|i: int|
            0 <= i < self.entries.len() ==> (#[trigger] self.entries[i]).version
                <= self.next_version
    }

    pub open spec fn current(self) -> EntryModel {
        self.entries[self.index]
    }

    /// The history with `e` made current: entries after the current one are
    /// dropped, `e` is appended, and the oldest entry is evicted past the cap.
    pub open spec fn pushed(self, e: EntryModel) -> HistoryModel {
        let kept = self.entries.take(self.index + 1).push(e);
        if kept.len() > MAX_HISTORY_LENGTH {
            HistoryModel { entries: kept.drop_first(), index: kept.len() - 2, ..self }
        } else {
            HistoryModel { entries: kept, index: kept.len() - 1, ..self }
        }
    }

    /// What recording the state `(s, v)` does: a changed sheet takes a new
    /// version and a new entry; a changed view alone replaces the view of a
    /// current entry whose sheet equals the one before it, else takes a new
    /// entry under the same version; no change records nothing.
    pub open spec fn recorded(self, s: SheetModel, v: ViewModel) -> HistoryModel {
        if s != self.current().sheet {
            let next = if self.next_version < u64::MAX { (self.next_version + 1) as u64 } else { self.next_version };
            HistoryModel { next_version: next, ..self }.pushed(
                EntryModel { sheet: s, view: v, version: next },
            )
        } else if v != self.current().view {
            if self.index > 0 && self.entries[self.index - 1].sheet == self.current().sheet {
                HistoryModel {
                    entries: self.entries.update(
                        self.index,
                        EntryModel { view: v, ..self.current() },
                    ),
                    ..self
                }
            } else {
                self.pushed(EntryModel { sheet: s, view: v, version: self.current().version })
            }
        } else {
            self
        }
    }

    /// Recording `(s, v)` appends an entry, rather than leaving the history
    /// alone or replacing the view of the current entry.
    pub open spec fn records_new_entry(self, s: SheetModel, v: ViewModel) -> bool {
        s != self.current().sheet || (v != self.current().view && !(self.index > 0
            && self.entries[self.index - 1].sheet == self.current().sheet))
    }

    /// One step back, where there is one.
    pub open spec fn undone(self) -> HistoryModel {
        if self.index > 0 {
            HistoryModel { index: self.index - 1, ..self }
        } else {
            self
        }
    }

    /// One step forward, where there is one.
    pub open spec fn redone(self) -> HistoryModel {
        if self.index + 1 < self.entries.len() {
            HistoryModel { index: self.index + 1, ..self }
        } else {
            self
        }
    }
}

impl<C> History<C> {
    pub closed spec fn model(&self) -> HistoryModel {
        HistoryModel {
            entries: entries_view(self.entries@),
            index: self.index as int,
            next_version: self.next_version,
        }
    }

    /// The command that led to each entry.
    pub closed spec fn commands(&self) -> Seq<Option<C>> {
        self.entries@.map_values(|e: HistoryEntry<C>| e.last_command)
    }

    /// Well-formed, and every snapshot well-formed.
    pub closed spec fn wf(&self) -> bool {
        &&& self.model().wf()
        &&& forall|i: int|
            0 <= i < self.entries@.len() ==> (#[trigger] self.entries@[i]).sheet.wf()
                && self.entries@[i].view.wf() && view_consistent(
                self.entries@[i].sheet@,
                self.entries@[i].view@,
            )
    }

    /// The model of a well-formed history is well-formed.
    pub proof fn lemma_model_wf(&self)
        requires
            self.wf(),
        ensures
            self.model().wf(),
    {
    }

    /// A history of one entry, holding `sheet` and `view` at version 0.
    pub fn new(sheet: Sheet, view: View) -> (r: History<C>)
        requires
            sheet.wf(),
            view.wf(),
            view_consistent(sheet@, view@),
        ensures
            r.wf(),
            r.model().entries == seq![EntryModel { sheet: sheet@, view: view@, version: 0 }],
            r.model().index == 0,
            r.model().next_version == 0,
    {
        let e = HistoryEntry { last_command: None, sheet, view, version: 0 };
        let entries = vec![e];
        let r = History { entries, index: 0, next_version: 0 };
        assert(entries_view(r.entries@) =~= seq![e@]);
        r
    }

    pub fn len(&self) -> (r: usize)
        ensures
            r == self.model().entries.len(),
    {
        self.entries.len()
    }

    pub fn index(&self) -> (r: usize)
        ensures
            r == self.model().index,
    {
        self.index
    }

    /// Version of the current entry.
    pub fn version(&self) -> (r: u64)
        requires
            self.wf(),
        ensures
            r == self.model().current().version,
    {
        self.entries[self.index].version
    }

    /// Replaces the sheet of the current entry.
    pub fn set_current_sheet(&mut self, sheet: Sheet)
        requires
            old(self).wf(),
            sheet.wf(),
            view_consistent(sheet@, old(self).model().current().view),
        ensures
            final(self).wf(),
            final(self).commands().len() == old(self).commands().len(),
            final(self).model() == (HistoryModel {
                entries: old(self).model().entries.update(
                    old(self).model().index,
                    EntryModel { sheet: sheet@, ..old(self).model().current() },
                ),
                ..old(self).model()
            }),
    {
        let i = self.index;
        let mut e = self.entries.remove(i);
        e.sheet = sheet;
        self.entries.insert(i, e);
        assert(entries_view(self.entries@) =~= entries_view(old(self).entries@).update(
            i as int,
            e@,
        ));
        assert forall|j: int| 0 <= j < self.entries@.len() implies (
        #[trigger] self.entries@[j]).sheet.wf() && self.entries@[j].view.wf() && view_consistent(
            self.entries@[j].sheet@,
            self.entries@[j].view@,
        ) by {
            if j != i {
                assert(self.entries@[j] == old(self).entries@[j]);
            }
        }
        assert forall|j: int| 0 <= j < self.model().entries.len() implies (
        #[trigger] self.model().entries[j]).version <= self.model().next_version by {
            assert(self.model().entries[j].version == old(self).model().entries[j].version);
        }
    }

    /// The command that led to the current entry.
    pub fn undo_command(&self) -> (r: &Option<C>)
        requires
            self.wf(),
        ensures
            *r == self.commands()[self.model().index],
    {
        &self.entries[self.index].last_command
    }

    /// The command that would be redone.
    pub fn redo_command(&self) -> (r: Option<&C>)
        requires
            self.wf(),
        ensures
            self.model().index + 1 >= self.model().entries.len() ==> r is None,
            self.model().index + 1 < self.model().entries.len() ==> match r {
                Some(c) => self.commands()[self.model().index + 1] == Some(*c),
                None => self.commands()[self.model().index + 1] is None,
            },
    {
        if self.index + 1 < self.entries.len() {
            match &self.entries[self.index + 1].last_command {
                Some(c) => Some(c),
                None => None,
            }
        } else {
            None
        }
    }

    fn push(&mut self, e: HistoryEntry<C>)
        requires
            old(self).wf(),
            e.sheet.wf(),
            e.view.wf(),
            view_consistent(e.sheet@, e.view@),
            e.version <= old(self).model().next_version,
        ensures
            final(self).wf(),
            final(self).model() == old(self).model().pushed(e@),
            final(self).commands()[final(self).model().index] == e.last_command,
    {
        let ghost before = self.model();
        self.entries.truncate(self.index + 1);
        self.entries.push(e);
        let ghost kept = before.entries.take(before.index + 1).push(e@);
        assert(entries_view(self.entries@) =~= kept);
        if self.entries.len() > MAX_HISTORY_LENGTH {
            self.entries.remove(0);
            self.index = self.entries.len() - 1;
            assert(entries_view(self.entries@) =~= kept.drop_first());
        } else {
            self.index = self.entries.len() - 1;
        }
        assert forall|j: int| 0 <= j < self.entries@.len() implies (
        #[trigger] self.entries@[j]).sheet.wf() && self.entries@[j].view.wf() && view_consistent(
            self.entries@[j].sheet@,
            self.entries@[j].view@,
        ) by {
            let k = if kept.len() > MAX_HISTORY_LENGTH { j + 1 } else { j };
            if k < before.index + 1 {
                assert(self.entries@[j] == old(self).entries@[k]);
            }
        }
        assert forall|j: int| 0 <= j < self.model().entries.len() implies (
        #[trigger] self.model().entries[j]).version <= self.model().next_version by {
            let k = if kept.len() > MAX_HISTORY_LENGTH { j + 1 } else { j };
            if k < before.index + 1 {
                assert(self.model().entries[j] == before.entries[k]);
            }
        }
    }

    /// Records the state `(sheet, view)` reached by `command` (see `recorded`).
    pub fn record(&mut self, sheet: &Sheet, view: &View, command: C)
        requires
            old(self).wf(),
            sheet.wf(),
            view.wf(),
            view_consistent(sheet@, view@),
        ensures
            final(self).wf(),
            final(self).model() == old(self).model().recorded(sheet@, view@),
            old(self).model().records_new_entry(sheet@, view@) ==> final(self).commands()[final(self).model().index]
                == Some(command),
    {
        let i = self.index;
        let has_sheet_changes = !(self.entries[i].sheet == *sheet);
        if has_sheet_changes {
            if self.next_version < u64::MAX {
                self.next_version = self.next_version + 1;
            }
            let e = HistoryEntry {
                last_command: Some(command),
                sheet: sheet.clone(),
                view: view.clone(),
                version: self.next_version,
            };
            proof {
                assert forall|j: int| 0 <= j < self.model().entries.len() implies (
                #[trigger] self.model().entries[j]).version <= self.model().next_version by {
                    assert(self.model().entries[j] == old(self).model().entries[j]);
                }
            }
            self.push(e);
        } else if !(self.entries[i].view == *view) {
            let merge = i > 0 && self.entries[i - 1].sheet == self.entries[i].sheet;
            if merge {
                let mut e = self.entries.remove(i);
                e.view = view.clone();
                self.entries.insert(i, e);
                assert(entries_view(self.entries@) =~= entries_view(old(self).entries@).update(
                    i as int,
                    e@,
                ));
                assert forall|j: int| 0 <= j < self.entries@.len() implies (
                #[trigger] self.entries@[j]).sheet.wf() && self.entries@[j].view.wf() && view_consistent(
            self.entries@[j].sheet@,
            self.entries@[j].view@,
        ) by {
                    if j != i {
                        assert(self.entries@[j] == old(self).entries@[j]);
                    }
                }
                assert forall|j: int| 0 <= j < self.model().entries.len() implies (
                #[trigger] self.model().entries[j]).version <= self.model().next_version by {
                    assert(self.model().entries[j].version == old(self).model().entries[j].version);
                }
            } else {
                let version = self.entries[i].version;
                let e = HistoryEntry {
                    last_command: Some(command),
                    sheet: sheet.clone(),
                    view: view.clone(),
                    version,
                };
                self.push(e);
            }
        }
    }

    /// Steps back one entry, where there is one; returns the entry now current.
    pub fn undo(&mut self) -> (r: (Sheet, View))
        requires
            old(self).wf(),
        ensures
            final(self).wf(),
            final(self).model() == old(self).model().undone(),
            final(self).commands() == old(self).commands(),
            r.0@ == final(self).model().current().sheet,
            r.1@ == final(self).model().current().view,
            r.0.wf(),
            r.1.wf(),
            view_consistent(r.0@, r.1@),
    {
        if self.index > 0 {
            self.index = self.index - 1;
        }
        let e = &self.entries[self.index];
        (e.sheet.clone(), e.view.clone())
    }

    /// Steps forward one entry, where there is one; returns the entry now current.
    pub fn redo(&mut self) -> (r: (Sheet, View))
        requires
            old(self).wf(),
        ensures
            final(self).wf(),
            final(self).model() == old(self).model().redone(),
            final(self).commands() == old(self).commands(),
            r.0@ == final(self).model().current().sheet,
            r.1@ == final(self).model().current().view,
            r.0.wf(),
            r.1.wf(),
            view_consistent(r.0@, r.1@),
    {
        if self.index + 1 < self.entries.len() {
            self.index = self.index + 1;
        }
        let e = &self.entries[self.index];
        (e.sheet.clone(), e.view.clone())
    }
}

/// After recording, the current entry holds the recorded sheet and view.
pub proof fn lemma_recorded_current(h: HistoryModel, s: SheetModel, v: ViewModel)
    requires
        h.wf(),
    ensures
        h.recorded(s, v).current().sheet == s,
        h.recorded(s, v).current().view == v,
{
}

/// Recording keeps the history well-formed: never empty, never over the cap.
pub proof fn lemma_recorded_wf(h: HistoryModel, s: SheetModel, v: ViewModel)
    requires
        h.wf(),
    ensures
        h.recorded(s, v).wf(),
{
    let r = h.recorded(s, v);
    if s != h.current().sheet || (v != h.current().view && !(h.index > 0 && h.entries[h.index
        - 1].sheet == h.current().sheet)) {
        let next = if s != h.current().sheet && h.next_version < u64::MAX { (h.next_version + 1) as u64 } else { h.next_version };
        let kept = h.entries.take(h.index + 1);
        assert forall|i: int| 0 <= i < r.entries.len() implies (#[trigger] r.entries[i]).version
            <= r.next_version by {
            if kept.push(r.entries[r.entries.len() - 1]).len() > MAX_HISTORY_LENGTH {
                if i + 1 < kept.len() + 1 - 1 {
                    assert(r.entries[i] == h.entries[i + 1]);
                }
            } else if i < kept.len() {
                assert(r.entries[i] == h.entries[i]);
            }
        }
    } else if v != h.current().view {
        assert forall|i: int| 0 <= i < r.entries.len() implies (#[trigger] r.entries[i]).version
            <= r.next_version by {
            if i != h.index {
                assert(r.entries[i] == h.entries[i]);
            }
        }
    }
}

/// Undoing a content change restores the sheet and the view that were current
/// before it.
pub proof fn lemma_undo_restores(h: HistoryModel, s: SheetModel, v: ViewModel)
    requires
        h.wf(),
        s != h.current().sheet,
    ensures
        h.recorded(s, v).undone().current().sheet == h.current().sheet,
        h.recorded(s, v).undone().current().view == h.current().view,
{
    let kept = h.entries.take(h.index + 1);
    assert(h.index + 1 <= h.entries.len());
    let r = h.recorded(s, v);
    if kept.len() + 1 > MAX_HISTORY_LENGTH {
        assert(r.index == kept.len() - 1);
        assert(r.entries[r.index - 1] == kept.push(r.entries[r.index])[r.index]);
    } else {
        assert(r.index == kept.len());
        assert(r.entries[r.index - 1] == kept[kept.len() - 1]);
    }
}

/// Redoing what was just undone brings back the history as it was.
pub proof fn lemma_redo_after_undo(h: HistoryModel, s: SheetModel, v: ViewModel)
    requires
        h.wf(),
        s != h.current().sheet,
    ensures
        h.recorded(s, v).undone().redone() == h.recorded(s, v),
        h.recorded(s, v).current().sheet == s,
        h.recorded(s, v).current().view == v,
{
    let kept = h.entries.take(h.index + 1);
    let r = h.recorded(s, v);
    if kept.len() + 1 > MAX_HISTORY_LENGTH {
        assert(r.index == r.entries.len() - 1);
        assert(r.index >= 1);
    } else {
        assert(r.index == r.entries.len() - 1);
        assert(r.index >= 1);
    }
}

/// The version counter never goes down; the current version changes exactly
/// when the recorded sheet differs from the current one.
pub proof fn lemma_version_tracks_content(h: HistoryModel, s: SheetModel, v: ViewModel)
    requires
        h.wf(),
        h.next_version < u64::MAX,
    ensures
        h.recorded(s, v).next_version >= h.next_version,
        (h.recorded(s, v).current().version != h.current().version) <==> (s != h.current().sheet),
{
    let r = h.recorded(s, v);
    let kept = h.entries.take(h.index + 1);
    if s != h.current().sheet {
        assert(h.current().version <= h.next_version);
        assert(r.current().version == h.next_version + 1);
    } else if v != h.current().view {
        if !(h.index > 0 && h.entries[h.index - 1].sheet == h.current().sheet) {
            assert(r.current().version == h.current().version);
        } else {
            assert(r.current().version == h.current().version);
        }
    }
}

} // verus!
