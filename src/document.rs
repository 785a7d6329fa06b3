//! The document: sheet, view, interaction in progress and history, changed
//! through one command dispatcher.

use vstd::prelude::*;
use vstd::view::View as _;

use crate::history::{lemma_recorded_current, History, HistoryModel};
use crate::names::first_free_name;
use crate::selection::{MultiSelection, SelectionKey};
use crate::sheet::{
    animation_names, frame_sources, hitbox_names, hitboxes_view, keyframe_at, keyframes_wf,
    lemma_animation_position, lemma_frame_position, new_animation_model, new_keyframe_model,
    other_frame, start_time, timeline_duration, timeline_view, Animation, ExportFormat,
    ExportSettings, Frame, Hitbox, HitboxModel, Keyframe, KeyframeModel, Rectangle, Shape, Sheet,
    SheetError, SheetModel, Size2, Vec2, MAX_ANIMATION_NAME_LENGTH, MAX_HITBOX_NAME_LENGTH,
};
use crate::transient::{
    drag_duration, drag_position, dragged_duration, dragged_position, duration_share,
    resize_rectangle, resized, share_of_duration_drag, HitboxStart, KeyframeDuration,
    KeyframeStart, ResizeAxis, Transient,
};
use crate::view::{
    default_view_model, saturated, view_consistent, zoomed_in, zoomed_out, ContentTab, Selection,
    SelectionModel, View, ViewModel, WorkbenchItem, WorkbenchItemModel, TIMELINE_ZOOM_MAX,
    TIMELINE_ZOOM_MIN, WORKBENCH_ZOOM_MAX, WORKBENCH_ZOOM_MIN,
};

verus! {

/// Errors of the document layer.
#[derive(Clone, Copy, Debug, PartialEq, Eq, Structural)]
pub enum DocumentError {
    UndoOperationNowAllowed,
    FrameNotInDocument,
    AnimationNotInDocument,
    InvalidHitboxName,
    InvalidKeyframeIndex,
    NoKeyframeForThisTime,
    NoHitboxSelected,
    NoKeyframeSelected,
    HitboxAlreadyExists,
    AnimationAlreadyExists,
    NotEditingAnyFrame,
    NotEditingAnyAnimation,
    NotExporting,
    NotRenaming,
    NotAdjustingKeyframePosition,
    NotAdjustingHitboxSize,
    NotAdjustingHitboxPosition,
    NotAdjustingKeyframeDuration,
    MissingHitboxSizeData,
    MissingHitboxPositionData,
    MissingKeyframePositionData,
    MissingKeyframeDurationData,
    InvalidSheetOperation(SheetError),
}

/// Progress of a request to close the document.
#[derive(Clone, Copy, Debug, PartialEq, Eq, Structural)]
pub enum CloseState {
    Requested,
    Saving,
    Allowed,
}

/// State that the history does not record.
#[derive(Debug)]
pub struct Persistent {
    pub export_settings_edit: Option<ExportSettings>,
    pub close_state: Option<CloseState>,
    pub timeline_is_playing: bool,
    pub disk_version: u64,
}

/// An edit intent: everything needed to apply it travels with it.
#[derive(Debug)]
pub enum DocumentCommand {
    /// The content of this version was written to disk.
    MarkAsSaved(u64),
    /// Adds a frame for the image at this path.
    EndImport(String),
    BeginExportAs,
    CancelExportAs,
    EndSetExportTextureDestination(String),
    EndSetExportMetadataDestination(String),
    EndSetExportMetadataPathsRoot(String),
    EndSetExportFormat(ExportFormat),
    EndExportAs,
    SwitchToContentTab(ContentTab),
    ClearSelection,
    SelectFrames(MultiSelection<String>),
    SelectAnimations(MultiSelection<String>),
    SelectHitboxes(MultiSelection<String>),
    SelectKeyframes(MultiSelection<usize>),
    EditFrame(String),
    EditAnimation(String),
    CreateAnimation,
    /// Deletes the frame at this path and the keyframes that show it.
    DeleteFrame(String),
    BeginFramesDrag,
    EndFramesDrag,
    /// Inserts keyframes showing these frames before this keyframe index.
    InsertKeyframesBefore(Vec<String>, usize),
    /// Moves the selected keyframes before this keyframe index.
    ReorderKeyframes(usize),
    /// Reference clock and index of the keyframe being dragged.
    BeginKeyframeDurationDrag(u32, usize),
    /// Clock under the cursor and smallest duration allowed.
    UpdateKeyframeDurationDrag(u32, u32),
    EndKeyframeDurationDrag,
    BeginKeyframeDrag,
    EndKeyframeDrag,
    BeginKeyframeOffsetDrag,
    /// Mouse displacement in screen pixels; whether both axes move.
    UpdateKeyframeOffsetDrag(Vec2, bool),
    EndKeyframeOffsetDrag,
    WorkbenchZoomIn,
    WorkbenchZoomOut,
    WorkbenchResetZoom,
    WorkbenchCenter,
    /// Moves the workbench by this many pixels.
    Pan(Vec2),
    /// Creates a hitbox at this position of the frame on the workbench.
    CreateHitbox(Vec2),
    BeginHitboxScale(ResizeAxis),
    /// Mouse displacement in screen pixels; whether the aspect ratio is kept.
    UpdateHitboxScale(Vec2, bool),
    EndHitboxScale,
    BeginHitboxDrag,
    /// Mouse displacement in screen pixels; whether both axes move.
    UpdateHitboxDrag(Vec2, bool),
    EndHitboxDrag,
    TogglePlayback,
    SnapToPreviousFrame,
    SnapToNextFrame,
    ToggleLooping,
    TimelineZoomIn,
    TimelineZoomOut,
    TimelineResetZoom,
    BeginScrub,
    /// Moves the clock to this time, in milliseconds.
    UpdateScrub(u64),
    EndScrub,
    /// Direction; whether the step is large.
    NudgeSelection(Vec2, bool),
    DeleteSelection,
    BeginRenameSelection,
    /// Replaces the name being typed.
    UpdateRenameSelection(String),
    EndRenameSelection,
    Close,
    CloseAfterSaving,
    CloseWithoutSaving,
    CancelClose,
}

/// Commands that leave an active interaction running: the begin and update
/// steps of each interaction, those that start one, and pure navigation.
pub open spec fn keeps_transient(c: DocumentCommand) -> bool {
    match c {
        DocumentCommand::BeginFramesDrag
        | DocumentCommand::BeginKeyframeDurationDrag(_, _)
        | DocumentCommand::UpdateKeyframeDurationDrag(_, _)
        | DocumentCommand::BeginKeyframeDrag
        | DocumentCommand::BeginKeyframeOffsetDrag
        | DocumentCommand::UpdateKeyframeOffsetDrag(_, _)
        | DocumentCommand::CreateHitbox(_)
        | DocumentCommand::BeginHitboxScale(_)
        | DocumentCommand::UpdateHitboxScale(_, _)
        | DocumentCommand::BeginHitboxDrag
        | DocumentCommand::UpdateHitboxDrag(_, _)
        | DocumentCommand::BeginScrub
        | DocumentCommand::UpdateScrub(_)
        | DocumentCommand::CreateAnimation
        | DocumentCommand::BeginRenameSelection
        | DocumentCommand::UpdateRenameSelection(_)
        | DocumentCommand::WorkbenchZoomIn
        | DocumentCommand::WorkbenchZoomOut
        | DocumentCommand::WorkbenchResetZoom
        | DocumentCommand::WorkbenchCenter
        | DocumentCommand::Pan(_)
        | DocumentCommand::TimelineZoomIn
        | DocumentCommand::TimelineZoomOut
        | DocumentCommand::TimelineResetZoom => true,
        _ => false,
    }
}

impl DocumentCommand {
    /// Whether the command leaves an active interaction running.
    pub fn is_transient_command(&self) -> (r: bool)
        ensures
            r == keeps_transient(*self),
    {
        match self {
            DocumentCommand::BeginFramesDrag
            | DocumentCommand::BeginKeyframeDurationDrag(_, _)
            | DocumentCommand::UpdateKeyframeDurationDrag(_, _)
            | DocumentCommand::BeginKeyframeDrag
            | DocumentCommand::BeginKeyframeOffsetDrag
            | DocumentCommand::UpdateKeyframeOffsetDrag(_, _)
            | DocumentCommand::CreateHitbox(_)
            | DocumentCommand::BeginHitboxScale(_)
            | DocumentCommand::UpdateHitboxScale(_, _)
            | DocumentCommand::BeginHitboxDrag
            | DocumentCommand::UpdateHitboxDrag(_, _)
            | DocumentCommand::BeginScrub
            | DocumentCommand::UpdateScrub(_)
            | DocumentCommand::CreateAnimation
            | DocumentCommand::BeginRenameSelection
            | DocumentCommand::UpdateRenameSelection(_)
            | DocumentCommand::WorkbenchZoomIn
            | DocumentCommand::WorkbenchZoomOut
            | DocumentCommand::WorkbenchResetZoom
            | DocumentCommand::WorkbenchCenter
            | DocumentCommand::Pan(_)
            | DocumentCommand::TimelineZoomIn
            | DocumentCommand::TimelineZoomOut
            | DocumentCommand::TimelineResetZoom => true,
            _ => false,
        }
    }
}

/// A document being edited: its sheet and view, recorded in the history, the
/// interaction in progress, and state the history leaves alone.
#[derive(Debug)]
pub struct Document {
    /// Path of the file the document is kept in.
    pub source: String,
    /// The content, recorded in the history.
    pub sheet: Sheet,
    /// The editing state, recorded in the history.
    pub view: View,
    /// The interaction in progress, if any; the history records nothing meanwhile.
    pub transient: Option<Transient>,
    /// State the history leaves alone.
    pub persistent: Persistent,
    /// Snapshots of sheet and view; changed only by `process_command`, `undo` and `redo`.
    pub history: History<DocumentCommand>,
}

/// Name of the animation open on the workbench, if one is.
pub open spec fn workbench_animation(v: ViewModel) -> Option<Seq<char>> {
    match v.workbench_item {
        Some(WorkbenchItemModel::Animation(n)) => Some(n),
        _ => None,
    }
}

/// Source of the frame open on the workbench, if one is.
pub open spec fn workbench_frame(v: ViewModel) -> Option<Seq<char>> {
    match v.workbench_item {
        Some(WorkbenchItemModel::Frame(p)) => Some(p),
        _ => None,
    }
}

/// The selection that a multi-selection of frames makes: none where it is empty.
pub open spec fn frames_selection(keys: Seq<Seq<char>>, last: Seq<char>) -> Option<SelectionModel> {
    if keys.len() == 0 {
        None
    } else {
        Some(SelectionModel::Frame(keys, last))
    }
}

pub open spec fn animations_selection(keys: Seq<Seq<char>>, last: Seq<char>) -> Option<SelectionModel> {
    if keys.len() == 0 {
        None
    } else {
        Some(SelectionModel::Animation(keys, last))
    }
}

pub open spec fn hitboxes_selection(keys: Seq<Seq<char>>, last: Seq<char>) -> Option<SelectionModel> {
    if keys.len() == 0 {
        None
    } else {
        Some(SelectionModel::Hitbox(keys, last))
    }
}

/// The selection once another item is opened on the workbench: hitboxes and
/// keyframes belong to the item that was open, so their selection is cleared.
pub open spec fn selection_kept_on_edit(sel: Option<SelectionModel>) -> Option<SelectionModel> {
    match sel {
        Some(SelectionModel::Hitbox(_, _)) | Some(SelectionModel::Keyframe(_, _)) => None,
        _ => sel,
    }
}

/// Where the timeline clock goes when keyframe `k` is selected: to the
/// keyframe's start, unless playback runs or the clock is already within it.
pub open spec fn snapped_clock(clock: u64, playing: bool, t: Seq<KeyframeModel>, k: int) -> u64 {
    let start = start_time(t, k);
    let in_frame = clock >= start && (clock < start + t[k].duration || k == t.len() - 1);
    if !playing && !in_frame && start <= u64::MAX {
        start as u64
    } else {
        clock
    }
}

impl Document {
    /// The sheet, the view, each history snapshot and the history are
    /// well-formed; the view names only what the sheet holds; with no
    /// interaction in progress, the sheet is that of the current entry.
    pub closed spec fn wf(&self) -> bool {
        &&& self.sheet.wf()
        &&& self.view.wf()
        &&& view_consistent(self.sheet@, self.view@)
        &&& self.history.wf()
        &&& self.transient.is_none() ==> self.sheet@ == self.history.model().current().sheet
    }

    pub closed spec fn history_model(&self) -> HistoryModel {
        self.history.model()
    }

    /// The command that led to each history entry.
    pub closed spec fn history_commands(&self) -> Seq<Option<DocumentCommand>> {
        self.history.commands()
    }

    /// The history of a well-formed document is well-formed: never empty,
    /// never over its cap, its index on an entry.
    pub proof fn lemma_history_wf(&self)
        requires
            self.wf(),
        ensures
            self.history_model().wf(),
    {
        self.history.lemma_model_wf();
    }

    /// A fresh document for `path`: empty sheet, initial view, one history entry.
    pub fn new(path: &String) -> (r: Document)
        ensures
            r.wf(),
            r.sheet@ == Sheet::new_spec(),
            r.view@ == default_view_model(),
            r.transient.is_none(),
            r.history_model().entries.len() == 1,
            r.history_model().index == 0,
            r.history_model().current().view == default_view_model(),
            r.history_model().current().sheet == Sheet::new_spec(),
    {
        let sheet = Sheet::new();
        let view = View::new();
        let history = History::new(Sheet::new(), View::new());
        Document {
            source: path.clone(),
            sheet,
            view,
            transient: None,
            persistent: Persistent {
                export_settings_edit: None,
                close_state: None,
                timeline_is_playing: false,
                disk_version: 0,
            },
            history,
        }
    }

    /// A document for `path` holding `sheet`, as read from disk: the sheet is
    /// the first history entry and counts as saved.
    pub fn open_with(path: &String, sheet: Sheet) -> (r: Document)
        requires
            sheet.wf(),
        ensures
            r.wf(),
            r.sheet@ == sheet@,
            r.view@ == default_view_model(),
            r.is_saved_spec(),
    {
        let mut d = Document::new(path);
        d.history.set_current_sheet(sheet.clone());
        d.sheet = sheet;
        d.persistent.disk_version = d.history.version();
        d
    }

    pub closed spec fn is_saved_spec(&self) -> bool {
        self.persistent.disk_version == self.history.model().current().version
    }

    /// Version of the content.
    pub fn get_version(&self) -> (r: u64)
        requires
            self.wf(),
        ensures
            r == self.history_model().current().version,
    {
        self.history.version()
    }

    /// Whether the content on disk is the current one.
    pub fn is_saved(&self) -> (r: bool)
        requires
            self.wf(),
        ensures
            r == self.is_saved_spec(),
    {
        self.persistent.disk_version == self.history.version()
    }

    pub fn is_timeline_playing(&self) -> (r: bool)
        ensures
            r == self.persistent.timeline_is_playing,
    {
        self.persistent.timeline_is_playing
    }

    pub fn history_len(&self) -> (r: usize)
        ensures
            r == self.history_model().entries.len(),
    {
        self.history.len()
    }

    pub fn history_index(&self) -> (r: usize)
        ensures
            r == self.history_model().index,
    {
        self.history.index()
    }

    /// The command that produced the current entry.
    pub fn get_undo_command(&self) -> (r: &Option<DocumentCommand>)
        requires
            self.wf(),
        ensures
            *r == self.history_commands()[self.history_model().index],
    {
        self.history.undo_command()
    }

    /// The command that redo would bring back.
    pub fn get_redo_command(&self) -> (r: Option<&DocumentCommand>)
        requires
            self.wf(),
        ensures
            self.history_model().index + 1 >= self.history_model().entries.len() ==> r is None,
            self.history_model().index + 1 < self.history_model().entries.len() ==> match r {
                Some(c) => self.history_commands()[self.history_model().index + 1] == Some(*c),
                None => self.history_commands()[self.history_model().index + 1] is None,
            },
    {
        self.history.redo_command()
    }

    /// Steps back one history entry, restoring its sheet and view and stopping
    /// playback. Refused while an interaction is in progress.
    pub fn undo(&mut self) -> (r: Result<(), DocumentError>)
        requires
            old(self).wf(),
        ensures
            final(self).wf(),
            r.is_err() <==> old(self).transient.is_some(),
            r.is_err() ==> r == Err::<(), DocumentError>(DocumentError::UndoOperationNowAllowed)
                && *final(self) == *old(self),
            final(self).transient == old(self).transient,
            final(self).source == old(self).source,
            final(self).persistent.export_settings_edit == old(self).persistent.export_settings_edit,
            final(self).persistent.close_state == old(self).persistent.close_state,
            final(self).persistent.disk_version == old(self).persistent.disk_version,
            final(self).history_commands() == old(self).history_commands(),
            r.is_ok() ==> final(self).history_model() == old(self).history_model().undone(),
            r.is_ok() && old(self).history_model().index > 0 ==> final(self).sheet@ == final(self).history_model().current().sheet
                && final(self).view@ == final(self).history_model().current().view
                && !final(self).persistent.timeline_is_playing,
            r.is_ok() && old(self).history_model().index == 0 ==> *final(self) == *old(self),
    {
        if self.transient.is_some() {
            return Err(DocumentError::UndoOperationNowAllowed);
        }
        if self.history.index() > 0 {
            let (sheet, view) = self.history.undo();
            self.sheet = sheet;
            self.view = view;
            self.persistent.timeline_is_playing = false;
        }
        Ok(())
    }

    /// Steps forward one history entry, restoring its sheet and view and
    /// stopping playback. Refused while an interaction is in progress.
    pub fn redo(&mut self) -> (r: Result<(), DocumentError>)
        requires
            old(self).wf(),
        ensures
            final(self).wf(),
            r.is_err() <==> old(self).transient.is_some(),
            r.is_err() ==> r == Err::<(), DocumentError>(DocumentError::UndoOperationNowAllowed)
                && *final(self) == *old(self),
            final(self).transient == old(self).transient,
            final(self).source == old(self).source,
            final(self).persistent.export_settings_edit == old(self).persistent.export_settings_edit,
            final(self).persistent.close_state == old(self).persistent.close_state,
            final(self).persistent.disk_version == old(self).persistent.disk_version,
            final(self).history_commands() == old(self).history_commands(),
            r.is_ok() ==> final(self).history_model() == old(self).history_model().redone(),
            r.is_ok() && old(self).history_model().index + 1 < old(self).history_model().entries.len()
                ==> final(self).sheet@ == final(self).history_model().current().sheet
                && final(self).view@ == final(self).history_model().current().view
                && !final(self).persistent.timeline_is_playing,
            r.is_ok() && old(self).history_model().index + 1 >= old(self).history_model().entries.len()
                ==> *final(self) == *old(self),
    {
        if self.transient.is_some() {
            return Err(DocumentError::UndoOperationNowAllowed);
        }
        proof {
            self.history.lemma_model_wf();
        }
        if self.history.index() + 1 < self.history.len() {
            let (sheet, view) = self.history.redo();
            self.sheet = sheet;
            self.view = view;
            self.persistent.timeline_is_playing = false;
        }
        Ok(())
    }
}

/// Whether every key of `indexes` is under `n`.
pub fn all_below(indexes: &MultiSelection<usize>, n: usize) -> (r: bool)
    ensures
        r == forall|i: int| 0 <= i < indexes.keys().len() ==> #[trigger] indexes.keys()[i] < n,
{
    let mut i: usize = 0;
    while i < indexes.items.len()
        invariant
            i <= indexes.items@.len(),
            forall|j: int| 0 <= j < i ==> #[trigger] indexes.keys()[j] < n,
        decreases indexes.items.len() - i,
    {
        assert(indexes.keys()[i as int] == indexes.items@[i as int]);
        if indexes.items[i] >= n {
            return false;
        }
        i += 1;
    }
    true
}

impl Document {
    /// Records the current sheet and view in the history, unless an
    /// interaction is in progress.
    fn record_command(&mut self, command: DocumentCommand)
        requires
            old(self).sheet.wf(),
            old(self).view.wf(),
            view_consistent(old(self).sheet@, old(self).view@),
            old(self).history.wf(),
            old(self).transient.is_some() ==> old(self).wf(),
        ensures
            final(self).wf(),
            final(self).sheet == old(self).sheet,
            final(self).view == old(self).view,
            final(self).transient == old(self).transient,
            final(self).persistent == old(self).persistent,
            final(self).source == old(self).source,
            final(self).history_model() == (if old(self).transient.is_none() {
                old(self).history_model().recorded(old(self).sheet@, old(self).view@)
            } else {
                old(self).history_model()
            }),
            old(self).transient.is_none() && old(self).history_model().records_new_entry(old(self).sheet@, old(self).view@)
                ==> final(self).history_commands()[final(self).history_model().index] == Some(command),
    {
        if self.transient.is_some() {
            return;
        }
        proof {
            self.history.lemma_model_wf();
            lemma_recorded_current(self.history.model(), self.sheet@, self.view@);
        }
        self.history.record(&self.sheet, &self.view, command);
    }

    /// Index of the animation open on the workbench.
    fn workbench_animation_index(&self) -> (r: Result<usize, DocumentError>)
        requires
            self.sheet.wf(),
        ensures
            match r {
                Ok(i) => workbench_animation(self.view@) is Some && i < self.sheet@.animations.len()
                    && self.sheet@.animations[i as int].name == workbench_animation(
                    self.view@,
                )->0 && self.sheet@.animation_position(workbench_animation(self.view@)->0) == i
                    && self.sheet@.has_animation(workbench_animation(self.view@)->0),
                Err(e) => (e == DocumentError::NotEditingAnyAnimation && workbench_animation(
                    self.view@,
                ) is None) || (e == DocumentError::AnimationNotInDocument && workbench_animation(
                    self.view@,
                ) is Some && !self.sheet@.has_animation(workbench_animation(self.view@)->0)),
            },
    {
        match &self.view.workbench_item {
            Some(WorkbenchItem::Animation(name)) => match self.sheet.animation_index(name) {
                Some(i) => {
                    proof {
                        lemma_animation_position(self.sheet@, name@, i as int);
                    }
                    Ok(i)
                },
                None => Err(DocumentError::AnimationNotInDocument),
            },
            _ => Err(DocumentError::NotEditingAnyAnimation),
        }
    }

    /// Index of the frame open on the workbench.
    fn workbench_frame_index(&self) -> (r: Result<usize, DocumentError>)
        requires
            self.sheet.wf(),
        ensures
            match r {
                Ok(i) => workbench_frame(self.view@) is Some && i < self.sheet@.frames.len()
                    && self.sheet@.frames[i as int].source == workbench_frame(self.view@)->0
                    && self.sheet@.frame_position(workbench_frame(self.view@)->0) == i
                    && self.sheet@.has_frame(workbench_frame(self.view@)->0),
                Err(e) => (e == DocumentError::NotEditingAnyFrame && workbench_frame(self.view@) is None)
                    || (e == DocumentError::FrameNotInDocument && workbench_frame(self.view@) is Some
                    && !self.sheet@.has_frame(workbench_frame(self.view@)->0)),
            },
    {
        match &self.view.workbench_item {
            Some(WorkbenchItem::Frame(path)) => match self.sheet.frame_index(path) {
                Some(i) => {
                    proof {
                        lemma_frame_position(self.sheet@, path@, i as int);
                    }
                    Ok(i)
                },
                None => Err(DocumentError::FrameNotInDocument),
            },
            _ => Err(DocumentError::NotEditingAnyFrame),
        }
    }

    /// Clears the selection.
    pub fn clear_selection(&mut self)
        requires
            old(self).sheet.wf(),
            old(self).view.wf(),
            view_consistent(old(self).sheet@, old(self).view@),
        ensures
            clear_selection_post(*old(self), *final(self)),
    {
        self.view.selection = None;
    }

    /// Selects frames `paths`; fails if one is not in the sheet. An empty
    /// selection clears the selection.
    pub fn select_frames(&mut self, paths: &MultiSelection<String>) -> (r: Result<(), DocumentError>)
        requires
            old(self).sheet.wf(),
            old(self).view.wf(),
            view_consistent(old(self).sheet@, old(self).view@),
            paths.wf(),
        ensures
            select_frames_post(*old(self), *final(self), *paths, r),
    {
        if !self.sheet.has_frames(paths) {
            return Err(DocumentError::FrameNotInDocument);
        }
        if paths.items.len() == 0 {
            self.view.selection = None;
        } else {
            self.view.selection = Some(Selection::Frame(paths.duplicate()));
        }
        Ok(())
    }

    /// Selects animations `names`; fails if one is not in the sheet. An empty
    /// selection clears the selection.
    pub fn select_animations(&mut self, names: &MultiSelection<String>) -> (r: Result<(), DocumentError>)
        requires
            old(self).sheet.wf(),
            old(self).view.wf(),
            view_consistent(old(self).sheet@, old(self).view@),
            names.wf(),
        ensures
            select_animations_post(*old(self), *final(self), *names, r),
    {
        if !self.sheet.has_animations(names) {
            return Err(DocumentError::AnimationNotInDocument);
        }
        if names.items.len() == 0 {
            self.view.selection = None;
        } else {
            self.view.selection = Some(Selection::Animation(names.duplicate()));
        }
        Ok(())
    }

    /// Selects hitboxes `names` of the frame open on the workbench; fails where
    /// no frame is open or one name is not a hitbox of it. An empty selection
    /// clears the selection.
    pub fn select_hitboxes(&mut self, names: &MultiSelection<String>) -> (r: Result<(), DocumentError>)
        requires
            old(self).sheet.wf(),
            old(self).view.wf(),
            view_consistent(old(self).sheet@, old(self).view@),
            names.wf(),
        ensures
            select_hitboxes_post(*old(self), *final(self), *names, r),
    {
        let fi = match self.workbench_frame_index() {
            Ok(i) => i,
            Err(e) => {
                proof {
                    if workbench_frame(self.view@) is Some {
                        assert(!self.sheet@.has_frame(workbench_frame(self.view@)->0));
                    }
                }
                return Err(e);
            },
        };
        assert(self.sheet@.frames[fi as int] == self.sheet.frames@[fi as int]@);
        if !self.sheet.frames[fi].has_hitboxes(names) {
            return Err(DocumentError::InvalidHitboxName);
        }
        if names.items.len() == 0 {
            self.view.selection = None;
        } else {
            self.view.selection = Some(Selection::Hitbox(names.duplicate()));
        }
        Ok(())
    }

    /// Selects keyframes `indexes` of the animation open on the workbench;
    /// fails where no animation is open or an index is past its timeline. The
    /// clock snaps to the start of the keyframe touched last (see
    /// `snapped_clock`). An empty selection clears the selection.
    pub fn select_keyframes(&mut self, indexes: &MultiSelection<usize>) -> (r: Result<(), DocumentError>)
        requires
            old(self).sheet.wf(),
            old(self).view.wf(),
            view_consistent(old(self).sheet@, old(self).view@),
            indexes.wf(),
        ensures
            select_keyframes_post(*old(self), *final(self), *indexes, r),
    {
        if indexes.items.len() == 0 {
            self.view.selection = None;
            return Ok(());
        }
        let ai = self.workbench_animation_index()?;
        let animation = &self.sheet.animations[ai];
        let ghost t = self.sheet@.animations[ai as int].timeline;
        assert(animation@.timeline == t);
        let n = animation.timeline.len();
        if !all_below(indexes, n) {
            return Err(DocumentError::InvalidKeyframeIndex);
        }
        let k = indexes.last_touched_in_range;
        if k >= n {
            return Err(DocumentError::InvalidKeyframeIndex);
        }
        let start = animation.keyframe_start_time(k);
        assert(t[k as int] == animation.timeline@[k as int]@);
        let duration = animation.timeline[k].duration as u64;
        let clock = self.view.timeline_clock;
        self.view.selection = Some(Selection::Keyframe(indexes.duplicate()));
        match start {
            Some(start) => {
                let in_frame = clock >= start && (clock - start < duration || k == n - 1);
                if !self.persistent.timeline_is_playing && !in_frame {
                    self.view.timeline_clock = start;
                }
            },
            None => {},
        }
        Ok(())
    }

    /// Opens frame `path` on the workbench, centred; a hitbox or keyframe
    /// selection, which belongs to what was open, is cleared.
    pub fn edit_frame(&mut self, path: &String) -> (r: Result<(), DocumentError>)
        requires
            old(self).sheet.wf(),
            old(self).view.wf(),
            view_consistent(old(self).sheet@, old(self).view@),
        ensures
            edit_frame_post(*old(self), *final(self), *path, r),
    {
        if !self.sheet.has_frame(path) {
            return Err(DocumentError::FrameNotInDocument);
        }
        self.view.workbench_item = Some(WorkbenchItem::Frame(path.clone()));
        self.view.workbench_offset = Vec2 { x: 0, y: 0 };
        self.clear_workbench_selection();
        Ok(())
    }

    /// Opens animation `name` on the workbench, centred, with the clock at
    /// zero and playback stopped; a hitbox or keyframe selection, which
    /// belongs to what was open, is cleared.
    pub fn edit_animation(&mut self, name: &String) -> (r: Result<(), DocumentError>)
        requires
            old(self).sheet.wf(),
            old(self).view.wf(),
            view_consistent(old(self).sheet@, old(self).view@),
        ensures
            edit_animation_post(*old(self), *final(self), *name, r),
    {
        if !self.sheet.has_animation(name) {
            return Err(DocumentError::AnimationNotInDocument);
        }
        self.view.workbench_item = Some(WorkbenchItem::Animation(name.clone()));
        self.view.workbench_offset = Vec2 { x: 0, y: 0 };
        self.view.timeline_clock = 0;
        self.persistent.timeline_is_playing = false;
        self.clear_workbench_selection();
        Ok(())
    }

    /// Clears a hitbox or keyframe selection.
    fn clear_workbench_selection(&mut self)
        ensures
            final(self).view@ == (ViewModel {
                selection: selection_kept_on_edit(old(self).view@.selection),
                ..old(self).view@
            }),
            old(self).view.wf() ==> final(self).view.wf(),
            final(self).sheet == old(self).sheet,
            final(self).transient == old(self).transient,
            final(self).persistent == old(self).persistent,
            final(self).history == old(self).history,
            final(self).source == old(self).source,
    {
        let clear = match &self.view.selection {
            Some(Selection::Hitbox(_)) | Some(Selection::Keyframe(_)) => true,
            _ => false,
        };
        if clear {
            self.view.selection = None;
        }
    }
}

/// Keyframes of `t` among its first `n` whose index is selected, in order.
pub open spec fn moved_part(t: Seq<KeyframeModel>, sel: Seq<usize>, n: int) -> Seq<KeyframeModel>
    decreases n,
{
    if n <= 0 {
        seq![]
    } else if sel.contains((n - 1) as usize) {
        moved_part(t, sel, n - 1).push(t[n - 1])
    } else {
        moved_part(t, sel, n - 1)
    }
}

/// Keyframes of `t` among its first `n` whose index is not selected, in order.
pub open spec fn rest_part(t: Seq<KeyframeModel>, sel: Seq<usize>, n: int) -> Seq<KeyframeModel>
    decreases n,
{
    if n <= 0 {
        seq![]
    } else if sel.contains((n - 1) as usize) {
        rest_part(t, sel, n - 1)
    } else {
        rest_part(t, sel, n - 1).push(t[n - 1])
    }
}

/// The timeline with the selected keyframes moved, in order, to stand before
/// what was keyframe `new_index`.
pub open spec fn reordered(t: Seq<KeyframeModel>, sel: Seq<usize>, new_index: int) -> Seq<KeyframeModel> {
    let ins = new_index - moved_part(t, sel, new_index).len();
    let rest = rest_part(t, sel, t.len() as int);
    rest.take(ins) + moved_part(t, sel, t.len() as int) + rest.skip(ins)
}

/// Where the moved keyframes start after a reorder.
pub open spec fn reorder_insert_index(t: Seq<KeyframeModel>, sel: Seq<usize>, new_index: int) -> int {
    new_index - moved_part(t, sel, new_index).len()
}

proof fn lemma_parts_len(t: Seq<KeyframeModel>, sel: Seq<usize>, n: int)
    requires
        0 <= n <= t.len(),
    ensures
        moved_part(t, sel, n).len() + rest_part(t, sel, n).len() == n,
        keyframes_wf(t) ==> keyframes_wf(moved_part(t, sel, n)) && keyframes_wf(rest_part(t, sel, n)),
    decreases n,
{
    if n > 0 {
        lemma_parts_len(t, sel, n - 1);
        if keyframes_wf(t) {
            assert(hitbox_names(t[n - 1].hitboxes).no_duplicates());
            let m = moved_part(t, sel, n);
            let r = rest_part(t, sel, n);
            assert forall|j: int| 0 <= j < m.len() implies hitbox_names(#[trigger] m[j].hitboxes).no_duplicates() by {
                if j < moved_part(t, sel, n - 1).len() {
                    assert(m[j] == moved_part(t, sel, n - 1)[j]);
                }
            }
            assert forall|j: int| 0 <= j < r.len() implies hitbox_names(#[trigger] r[j].hitboxes).no_duplicates() by {
                if j < rest_part(t, sel, n - 1).len() {
                    assert(r[j] == rest_part(t, sel, n - 1)[j]);
                }
            }
        }
    }
}

proof fn lemma_moved_part_monotonic(t: Seq<KeyframeModel>, sel: Seq<usize>, a: int, b: int)
    requires
        0 <= a <= b <= t.len(),
    ensures
        moved_part(t, sel, a).len() <= moved_part(t, sel, b).len(),
        moved_part(t, sel, b).len() - moved_part(t, sel, a).len() <= b - a,
    decreases b - a,
{
    if a < b {
        lemma_moved_part_monotonic(t, sel, a, b - 1);
    }
}

/// Splits `timeline` into the keyframes at selected indices and the others.
fn split_timeline(timeline: Vec<Keyframe>, sel: &MultiSelection<usize>) -> (r: (Vec<Keyframe>, Vec<Keyframe>))
    ensures
        timeline_view(r.0@) == moved_part(timeline_view(timeline@), sel.keys(), timeline@.len() as int),
        timeline_view(r.1@) == rest_part(timeline_view(timeline@), sel.keys(), timeline@.len() as int),
{
    let ghost t = timeline_view(timeline@);
    let n = timeline.len();
    let mut moved: Vec<Keyframe> = Vec::new();
    let mut rest: Vec<Keyframe> = Vec::new();
    let mut source = timeline;
    let mut i: usize = 0;
    let ghost src0 = source@;
    let mut reversed: Vec<Keyframe> = Vec::new();
    while source.len() > 0
        invariant
            source@.len() + reversed@.len() == n,
            forall|j: int| 0 <= j < source@.len() ==> source@[j] == src0[j],
            forall|j: int| 0 <= j < reversed@.len() ==> #[trigger] reversed@[j] == src0[n - 1 - j],
            src0.len() == n,
        decreases source.len(),
    {
        let k = source.pop().unwrap();
        reversed.push(k);
    }
    while i < n
        invariant
            i <= n,
            reversed@.len() == n - i,
            forall|j: int| 0 <= j < reversed@.len() ==> #[trigger] reversed@[j] == src0[n - 1 - j],
            src0.len() == n,
            t == timeline_view(src0),
            timeline_view(moved@) == moved_part(t, sel.keys(), i as int),
            timeline_view(rest@) == rest_part(t, sel.keys(), i as int),
        decreases n - i,
    {
        let k = reversed.pop().unwrap();
        assert(k == src0[i as int]);
        assert(k@ == t[i as int]);
        let ghost mb = moved@;
        let ghost rb = rest@;
        if sel.is_selected(&i) {
            moved.push(k);
            assert(timeline_view(moved@) =~= timeline_view(mb).push(t[i as int]));
        } else {
            rest.push(k);
            assert(timeline_view(rest@) =~= timeline_view(rb).push(t[i as int]));
        }
        i += 1;
    }
    (moved, rest)
}

impl Document {
    /// The sheet, the view, and the view against the sheet are well-formed.
    pub open spec fn is_coherent(&self) -> bool {
        &&& self.sheet.wf()
        &&& self.view.wf()
        &&& view_consistent(self.sheet@, self.view@)
    }

    /// Adds an animation under a fresh name, selects it, opens it on the
    /// workbench and starts renaming it.
    pub fn create_animation(&mut self) -> (r: Result<(), DocumentError>)
        requires
            old(self).is_coherent(),
        ensures
            create_animation_post(*old(self), *final(self), r),
    {
        let name = self.sheet.add_animation();
        let selection = MultiSelection { items: vec![name.clone()], last_touched_in_range: name.clone() };
        assert(selection.keys() =~= seq![name@]);
        self.view.selection = Some(Selection::Animation(selection));
        self.view.workbench_item = Some(WorkbenchItem::Animation(name.clone()));
        self.view.workbench_offset = Vec2 { x: 0, y: 0 };
        self.view.timeline_clock = 0;
        self.persistent.timeline_is_playing = false;
        proof {
            let names = animation_names(self.sheet@.animations);
            assert(names[names.len() - 1] == name@);
            assert(self.sheet@.has_animation(name@));
            match old(self).view@.workbench_item {
                Some(WorkbenchItemModel::Animation(n)) => {
                    let j = choose|j: int| 0 <= j < animation_names(old(self).sheet@.animations).len() && animation_names(old(self).sheet@.animations)[j] == n;
                    assert(names[j] == n);
                },
                _ => {},
            }
        }
        self.transient = Some(Transient::Rename(name));
        Ok(())
    }
}

/// The indices `start`, `start + 1`, ..., `start + count - 1`.
pub open spec fn index_range(start: int, count: int) -> Seq<usize> {
    Seq::new(count as nat, |j: int| (start + j) as usize)
}

fn range_vec(start: usize, count: usize) -> (r: Vec<usize>)
    requires
        start + count <= usize::MAX,
    ensures
        r@ == index_range(start as int, count as int),
{
    let mut r: Vec<usize> = Vec::new();
    let mut j: usize = 0;
    while j < count
        invariant
            j <= count,
            start + count <= usize::MAX,
            r@ == index_range(start as int, j as int),
        decreases count - j,
    {
        r.push(start + j);
        assert(r@ =~= index_range(start as int, j + 1));
        j += 1;
    }
    r
}

proof fn lemma_index_range_views(start: int, count: int, v: Vec<usize>)
    requires
        v@ == index_range(start, count),
        0 <= start,
        0 <= count,
        start + count <= usize::MAX,
    ensures
        crate::selection::key_views(v@) == index_range(start, count),
        index_range(start, count).no_duplicates(),
{
    assert(crate::selection::key_views(v@) =~= index_range(start, count));
}

impl Document {
    /// Moves the selected keyframes of the animation on the workbench, in
    /// order, to stand before what was keyframe `new_index`; selects them in
    /// their new place and moves the clock to the first of them.
    pub fn reorder_keyframes(&mut self, new_index: usize) -> (r: Result<(), DocumentError>)
        requires
            old(self).is_coherent(),
        ensures
            reorder_keyframes_post(*old(self), *final(self), new_index, r),
    {
        let sel = match &self.view.selection {
            Some(Selection::Keyframe(s)) => s.duplicate(),
            _ => return Err(DocumentError::NoKeyframeSelected),
        };
        if sel.items.len() == 0 {
            return Err(DocumentError::NoKeyframeSelected);
        }
        let ai = self.workbench_animation_index()?;
        let n = self.sheet.animations[ai].timeline.len();
        let ghost t = self.sheet@.animations[ai as int].timeline;
        assert(self.sheet@.animations[ai as int] == self.sheet.animations@[ai as int]@);
        if !all_below(&sel, n) || new_index > n {
            return Err(DocumentError::InvalidSheetOperation(SheetError::InvalidFrameIndex));
        }
        let timeline = self.sheet.timeline_copy(ai);
        let (mut moved, mut rest) = split_timeline(timeline, &sel);
        let mut before: usize = 0;
        let mut j: usize = 0;
        while j < new_index
            invariant
                j <= new_index <= n,
                n == t.len(),
                before == moved_part(t, sel.keys(), j as int).len(),
            decreases new_index - j,
        {
            proof {
                lemma_parts_len(t, sel.keys(), j + 1);
                lemma_parts_len(t, sel.keys(), j as int);
            }
            if sel.is_selected(&j) {
                before += 1;
            }
            j += 1;
        }
        proof {
            lemma_parts_len(t, sel.keys(), n as int);
            lemma_parts_len(t, sel.keys(), new_index as int);
            lemma_moved_part_monotonic(t, sel.keys(), new_index as int, n as int);
        }
        let ins = new_index - before;
        let count = moved.len();
        proof {
            let k = sel.keys()[0];
            assert(k < n);
            lemma_moved_nonempty(t, sel.keys(), k, n as int);
        }
        let mut tail = rest.split_off(ins);
        let ghost head = rest@;
        let ghost mv = moved@;
        let ghost tl = tail@;
        rest.append(&mut moved);
        rest.append(&mut tail);
        proof {
            let nt = reordered(t, sel.keys(), new_index as int);
            assert(rest@ == head + mv + tl);
            assert(timeline_view(rest@) =~= nt);
            let m = moved_part(t, sel.keys(), n as int);
            let re = rest_part(t, sel.keys(), n as int);
            assert forall|x: int| 0 <= x < nt.len() implies hitbox_names(#[trigger] nt[x].hitboxes).no_duplicates() by {
                if x < ins {
                    assert(nt[x] == re[x]);
                } else if x < ins + m.len() {
                    assert(nt[x] == m[x - ins]);
                } else {
                    assert(nt[x] == re[x - m.len()]);
                }
            }
        }
        let ghost old_sheet = self.sheet@;
        self.sheet.set_timeline(ai, rest);
        let items = range_vec(ins, count);
        proof {
            lemma_index_range_views(ins as int, count as int, items);
        }
        let selection = MultiSelection { items, last_touched_in_range: ins + count - 1 };
        self.view.selection = Some(Selection::Keyframe(selection));
        assert(self.sheet@.animations[ai as int] == self.sheet.animations@[ai as int]@);
        match self.sheet.animations[ai].keyframe_start_time(ins) {
            Some(c) => {
                self.view.timeline_clock = c;
            },
            None => {},
        }
        proof {
            assert(animation_names(self.sheet@.animations) == animation_names(old_sheet.animations));
            let nt = reordered(t, sel.keys(), new_index as int);
            lemma_parts_len(t, sel.keys(), n as int);
            lemma_timeline_replaced_keeps(old_sheet, ai as int, nt, self.view@);
            assert forall|x: int| 0 <= x < index_range(ins as int, count as int).len() implies #[trigger] index_range(ins as int, count as int)[x] < old_sheet.animation(workbench_animation(self.view@)->0).timeline.len() by {}
            lemma_same_names_consistent(old_sheet, self.sheet@, self.view@);
        }
        Ok(())
    }
}

proof fn lemma_moved_nonempty(t: Seq<KeyframeModel>, sel: Seq<usize>, k: usize, n: int)
    requires
        sel.contains(k),
        k < n <= t.len(),
    ensures
        moved_part(t, sel, n).len() >= 1,
    decreases n,
{
    if n - 1 > k {
        lemma_moved_nonempty(t, sel, k, n - 1);
    }
}

/// What a hitbox or keyframe selection of view `v` needs kept when the sheet
/// goes from `a` to `b`: the hitbox names of the frame on the workbench, the
/// length of the animation on the workbench.
pub open spec fn keeps_selected_parts(a: SheetModel, b: SheetModel, v: ViewModel) -> bool {
    &&& (v.selection matches Some(SelectionModel::Hitbox(_, _)) ==> match v.workbench_item {
        Some(WorkbenchItemModel::Frame(p)) => a.has_frame(p) ==> forall|n: Seq<char>|
            hitbox_names(a.frame(p).hitboxes).contains(n) ==> #[trigger] hitbox_names(b.frame(p).hitboxes).contains(n),
        _ => true,
    })
    &&& (v.selection matches Some(SelectionModel::Keyframe(_, _)) ==> match v.workbench_item {
        Some(WorkbenchItemModel::Animation(n)) => a.has_animation(n) ==> a.animation(n).timeline.len()
            <= b.animation(n).timeline.len(),
        _ => true,
    })
}

/// A view stays consistent with a sheet that keeps every frame and
/// animation of the one before, and what the selection needs of them.
pub proof fn lemma_same_names_consistent(a: SheetModel, b: SheetModel, v: ViewModel)
    requires
        forall|p: Seq<char>| a.has_frame(p) ==> b.has_frame(p),
        forall|n: Seq<char>| a.has_animation(n) ==> b.has_animation(n),
        keeps_selected_parts(a, b, v),
        view_consistent(a, v),
    ensures
        view_consistent(b, v),
{
    match v.selection {
        Some(SelectionModel::Keyframe(keys, _)) => {
            match v.workbench_item {
                Some(WorkbenchItemModel::Animation(n)) => {
                    assert(a.has_animation(n));
                    assert forall|i: int| 0 <= i < keys.len() implies #[trigger] keys[i] < b.animation(n).timeline.len() by {
                        assert(keys[i] < a.animation(n).timeline.len());
                    }
                },
                _ => {},
            }
        },
        Some(SelectionModel::Hitbox(keys, _)) => {
            match v.workbench_item {
                Some(WorkbenchItemModel::Frame(p)) => {
                    assert forall|i: int| 0 <= i < keys.len() implies hitbox_names(b.frame(p).hitboxes).contains(#[trigger] keys[i]) by {
                        assert(hitbox_names(a.frame(p).hitboxes).contains(keys[i]));
                    }
                },
                _ => {},
            }
        },
        _ => {},
    }
}

/// Replacing the timeline of one animation by one at least as long keeps
/// what any selection needs.
pub proof fn lemma_timeline_replaced_keeps(a: SheetModel, ai: int, t: Seq<KeyframeModel>, v: ViewModel)
    requires
        a.wf(),
        0 <= ai < a.animations.len(),
        t.len() >= a.animations[ai].timeline.len(),
    ensures
        keeps_selected_parts(a, a.with_timeline(ai, t), v),
        forall|p: Seq<char>| a.has_frame(p) ==> a.with_timeline(ai, t).has_frame(p),
        forall|n: Seq<char>| a.has_animation(n) ==> a.with_timeline(ai, t).has_animation(n),
{
    let b = a.with_timeline(ai, t);
    assert(animation_names(b.animations) =~= animation_names(a.animations));
    assert(b.frames == a.frames);
    match v.workbench_item {
        Some(WorkbenchItemModel::Animation(n)) => {
            if a.has_animation(n) {
                let pa = a.animation_position(n);
                assert(a.animations[pa].name == n);
                lemma_animation_position(b, n, pa);
            }
        },
        _ => {},
    }
}

/// After a hitbox of the frame at `fi` is renamed to `new_name`, a selection of
/// that name alone, with that frame on the workbench, is consistent.
pub proof fn lemma_hitboxes_renamed_consistent(a: SheetModel, b: SheetModel, v: ViewModel, fi: int, new_name: Seq<char>)
    requires
        b.wf(),
        0 <= fi < a.frames.len(),
        frame_sources(a.frames) == frame_sources(b.frames),
        b.animations == a.animations,
        hitbox_names(b.frames[fi].hitboxes).contains(new_name),
        v.selection == Some(SelectionModel::Hitbox(seq![new_name], new_name)),
        v.workbench_item == Some(WorkbenchItemModel::Frame(a.frames[fi].source)),
    ensures
        view_consistent(b, v),
{
    assert(frame_sources(b.frames).len() == b.frames.len());
    assert(frame_sources(a.frames).len() == a.frames.len());
    assert(frame_sources(b.frames)[fi] == frame_sources(a.frames)[fi]);
    lemma_frame_position(b, a.frames[fi].source, fi);
}

/// Replacing the hitboxes of one frame by a list holding every name of the
/// old one keeps what any selection needs.
pub proof fn lemma_hitboxes_replaced_keeps(a: SheetModel, fi: int, hs: Seq<HitboxModel>, v: ViewModel)
    requires
        a.wf(),
        0 <= fi < a.frames.len(),
        forall|n: Seq<char>| hitbox_names(a.frames[fi].hitboxes).contains(n) ==> #[trigger] hitbox_names(hs).contains(n),
    ensures
        keeps_selected_parts(a, SheetModel {
            frames: a.frames.update(fi, crate::sheet::FrameModel { hitboxes: hs, ..a.frames[fi] }),
            ..a
        }, v),
        forall|p: Seq<char>| a.has_frame(p) ==> (SheetModel {
            frames: a.frames.update(fi, crate::sheet::FrameModel { hitboxes: hs, ..a.frames[fi] }),
            ..a
        }).has_frame(p),
{
    let b = SheetModel {
        frames: a.frames.update(fi, crate::sheet::FrameModel { hitboxes: hs, ..a.frames[fi] }),
        ..a
    };
    assert(frame_sources(b.frames) =~= frame_sources(a.frames));
    match v.workbench_item {
        Some(WorkbenchItemModel::Frame(p)) => {
            if a.has_frame(p) {
                let pa = a.frame_position(p);
                assert(a.frames[pa].source == p);
                assert(frame_sources(b.frames).no_duplicates());
                lemma_frame_position(b, p, pa);
            }
        },
        _ => {},
    }
}

impl Document {
    /// Inserts keyframes showing `paths`, in order, before keyframe `index` of
    /// the animation on the workbench, and selects them (see `select_keyframes`).
    pub fn insert_keyframes_before(&mut self, paths: &Vec<String>, index: usize) -> (r: Result<(), DocumentError>)
        requires
            old(self).is_coherent(),
        ensures
            insert_keyframes_before_post(*old(self), *final(self), *paths, index, r),
    {
        let ai = self.workbench_animation_index()?;
        let ghost ps = crate::names::string_views(paths@);
        if !self.sheet.has_frame_list(paths) {
            return Err(DocumentError::FrameNotInDocument);
        }
        let n = self.sheet.animations[ai].timeline.len();
        let ghost t = self.sheet@.animations[ai as int].timeline;
        assert(self.sheet@.animations[ai as int] == self.sheet.animations@[ai as int]@);
        let m = paths.len();
        if index > n || m > usize::MAX - n {
            return Err(DocumentError::InvalidSheetOperation(SheetError::InvalidFrameIndex));
        }
        let mut timeline = self.sheet.timeline_copy(ai);
        assert(timeline_view(timeline@).len() == timeline@.len());
        assert(timeline@.len() == n);
        let mut tail = timeline.split_off(index);
        let ghost head = timeline@;
        let ghost tl = tail@;
        let mut j: usize = 0;
        while j < m
            invariant
                j <= m,
                m == paths@.len(),
                ps == crate::names::string_views(paths@),
                timeline_view(head) == t.take(index as int),
                timeline_view(timeline@) == t.take(index as int) + ps.take(j as int).map_values(|p: Seq<char>| new_keyframe_model(p)),
            decreases m - j,
        {
            let ghost before = timeline@;
            let k = Keyframe::new(&paths[j]);
            timeline.push(k);
            assert(ps.take(j + 1) =~= ps.take(j as int).push(ps[j as int]));
            assert(timeline_view(timeline@) =~= timeline_view(before).push(k@));
            assert(timeline_view(timeline@) =~= t.take(index as int) + ps.take(j + 1).map_values(|p: Seq<char>| new_keyframe_model(p)));
            j += 1;
        }
        timeline.append(&mut tail);
        let ghost nt = t.take(index as int) + ps.map_values(|p: Seq<char>| new_keyframe_model(p)) + t.skip(index as int);
        proof {
            assert(ps.take(m as int) =~= ps);
            assert(timeline_view(tl) =~= t.skip(index as int));
            assert(timeline_view(timeline@) =~= nt);
            assert forall|x: int| 0 <= x < nt.len() implies hitbox_names(#[trigger] nt[x].hitboxes).no_duplicates() by {
                if x < index {
                    assert(nt[x] == t[x]);
                } else if x < index + m {
                    assert(hitbox_names(nt[x].hitboxes) =~= seq![]);
                } else {
                    assert(nt[x] == t[x - m]);
                }
            }
        }
        let ghost old_sheet = self.sheet@;
        self.sheet.set_timeline(ai, timeline);
        proof {
            lemma_timeline_replaced_keeps(old_sheet, ai as int, nt, self.view@);
            lemma_same_names_consistent(old_sheet, self.sheet@, self.view@);
        }
        if m == 0 {
            self.view.selection = None;
            return Ok(());
        }
        let items = range_vec(index, m);
        proof {
            lemma_index_range_views(index as int, m as int, items);
        }
        let selection = MultiSelection { items, last_touched_in_range: index + m - 1 };
        proof {
            let name = workbench_animation(self.view@)->0;
            assert(self.sheet@.animations[ai as int].name == name);
            lemma_animation_position(self.sheet@, name, ai as int);
            assert(self.sheet@.animation(name).timeline == nt);
            assert(nt.len() == n + m);
        }
        let result = self.select_keyframes(&selection);
        assert(result.is_ok());
        Ok(())
    }
}

/// `v` with the element at `idx[i]` replaced by `updated[i]`, for each `i`.
pub open spec fn replaced_at<T>(v: Seq<T>, idx: Seq<usize>, updated: Seq<T>) -> Seq<T> {
    Seq::new(v.len(), |j: int| if idx.contains(j as usize) { updated[idx.index_of(j as usize)] } else { v[j] })
}

proof fn lemma_index_of_unique(s: Seq<usize>, a: int)
    requires
        s.no_duplicates(),
        0 <= a < s.len(),
    ensures
        s.index_of(s[a]) == a,
        s.contains(s[a]),
{
    let b = s.index_of(s[a]);
    assert(s.contains(s[a]));
}

fn replace_at<T>(v: Vec<T>, idx: &Vec<usize>, updated: Vec<T>) -> (r: Vec<T>)
    requires
        idx@.len() == updated@.len(),
        idx@.no_duplicates(),
        forall|i: int| 0 <= i < idx@.len() ==> #[trigger] idx@[i] < v@.len(),
    ensures
        r@ == replaced_at(v@, idx@, updated@),
{
    let ghost v0 = v@;
    let ghost u0 = updated@;
    let n = v.len();
    let mut v = v;
    let mut updated = updated;
    let mut i: usize = updated.len();
    while i > 0
        invariant
            i <= idx@.len(),
            idx@.len() == u0.len(),
            updated@ == u0.take(i as int),
            idx@.no_duplicates(),
            forall|x: int| 0 <= x < idx@.len() ==> #[trigger] idx@[x] < v0.len(),
            v@.len() == v0.len(),
            n == v0.len(),
            forall|j: int| 0 <= j < v0.len() ==> #[trigger] v@[j] == (if idx@.skip(i as int).contains(j as usize) {
                u0[idx@.index_of(j as usize)]
            } else {
                v0[j]
            }),
        decreases i,
    {
        i = i - 1;
        let x = updated.pop().unwrap();
        let k = idx[i];
        let ghost before = v@;
        v.set(k, x);
        proof {
            assert(updated@ =~= u0.take(i as int));
            lemma_index_of_unique(idx@, i as int);
            assert forall|j: int| 0 <= j < v0.len() implies #[trigger] v@[j] == (if idx@.skip(i as int).contains(j as usize) {
                u0[idx@.index_of(j as usize)]
            } else {
                v0[j]
            }) by {
                if j == k as int {
                    assert(idx@.skip(i as int)[0] == k);
                } else {
                    let now = idx@.skip(i as int);
                    let prev = idx@.skip(i + 1);
                    if now.contains(j as usize) {
                        let w = choose|w: int| 0 <= w < now.len() && now[w] == j as usize;
                        assert(now[0] == k);
                        assert((j as usize) != k);
                        assert(w != 0);
                        assert(prev[w - 1] == j as usize);
                    }
                    if prev.contains(j as usize) {
                        let w = choose|w: int| 0 <= w < prev.len() && prev[w] == j as usize;
                        assert(now[w + 1] == j as usize);
                    }
                }
            }
        }
    }
    proof {
        assert(idx@.skip(0) =~= idx@);
        assert(v@ =~= replaced_at(v0, idx@, u0));
    }
    v
}

/// Starting offsets and durations of the keyframes at `keys`.
pub open spec fn starts_of(t: Seq<KeyframeModel>, keys: Seq<usize>) -> Seq<KeyframeStart> {
    keys.map_values(|k: usize| KeyframeStart { index: k, offset: t[k as int].offset, duration: t[k as int].duration })
}

/// Position of the first starting state recorded for keyframe `k`.
pub open spec fn start_position(initial: Seq<KeyframeStart>, k: usize) -> int {
    choose|i: int| 0 <= i < initial.len() && initial[i].index == k && forall|j: int| 0 <= j < i ==> #[trigger] initial[j].index != k
}

pub open spec fn has_start(initial: Seq<KeyframeStart>, k: usize) -> bool {
    exists|i: int| 0 <= i < initial.len() && #[trigger] initial[i].index == k
}

pub open spec fn start_of(initial: Seq<KeyframeStart>, k: usize) -> KeyframeStart {
    initial[start_position(initial, k)]
}

/// Number of selected keyframes at or before keyframe `dragged`.
pub open spec fn count_upto(keys: Seq<usize>, dragged: usize) -> nat {
    keys.filter(|k: usize| k <= dragged).len()
}

/// The timeline after a duration drag: each selected keyframe takes its
/// starting duration plus `share`, never under `minimum`.
pub open spec fn durations_dragged(t: Seq<KeyframeModel>, keys: Seq<usize>, initial: Seq<KeyframeStart>, share: int, minimum: u32) -> Seq<KeyframeModel> {
    Seq::new(t.len(), |j: int| if keys.contains(j as usize) {
        KeyframeModel { duration: dragged_duration(start_of(initial, j as usize).duration, share, minimum), ..t[j] }
    } else {
        t[j]
    })
}

/// The timeline after an offset drag of `d` screen pixels at zoom `level`.
pub open spec fn offsets_dragged(t: Seq<KeyframeModel>, keys: Seq<usize>, initial: Seq<KeyframeStart>, d: Vec2, both_axes: bool, level: int) -> Seq<KeyframeModel> {
    Seq::new(t.len(), |j: int| if keys.contains(j as usize) {
        KeyframeModel { offset: dragged_position(start_of(initial, j as usize).offset, d, both_axes, level), ..t[j] }
    } else {
        t[j]
    })
}

fn find_start(initial: &Vec<KeyframeStart>, k: usize) -> (r: Option<KeyframeStart>)
    ensures
        r is Some <==> has_start(initial@, k),
        r matches Some(s) ==> s == start_of(initial@, k),
{
    let mut i: usize = 0;
    while i < initial.len()
        invariant
            i <= initial@.len(),
            forall|j: int| 0 <= j < i ==> #[trigger] initial@[j].index != k,
        decreases initial.len() - i,
    {
        if initial[i].index == k {
            proof {
                let p = start_position(initial@, k);
                assert(0 <= p < initial@.len() && initial@[p].index == k && forall|j: int| 0 <= j < p ==> #[trigger] initial@[j].index != k);
                if p < i {
                } else if i < p {
                    assert(initial@[i as int].index != k);
                }
            }
            return Some(initial[i]);
        }
        i += 1;
    }
    None
}

fn count_selected_upto(keys: &MultiSelection<usize>, dragged: usize) -> (r: usize)
    ensures
        r == count_upto(keys.keys(), dragged),
{
    let ghost ks = keys.keys();
    let mut c: usize = 0;
    let mut i: usize = 0;
    assert(ks.take(0) =~= seq![]);
    while i < keys.items.len()
        invariant
            i <= keys.items@.len(),
            ks == keys.keys(),
            c == ks.take(i as int).filter(|k: usize| k <= dragged).len(),
            c <= i,
        decreases keys.items.len() - i,
    {
        proof {
            assert(ks.take(i + 1) =~= ks.take(i as int).push(ks[i as int]));
            ks.take(i as int).lemma_filter_push(ks[i as int], |k: usize| k <= dragged);
            assert(ks[i as int] == keys.items@[i as int]);
        }
        if keys.items[i] <= dragged {
            c += 1;
        }
        i += 1;
    }
    assert(ks.take(i as int) =~= ks);
    c
}

/// Whether every key of `keys` has a recorded starting state.
fn all_have_starts(keys: &MultiSelection<usize>, initial: &Vec<KeyframeStart>) -> (r: bool)
    ensures
        r == forall|i: int| 0 <= i < keys.keys().len() ==> has_start(initial@, #[trigger] keys.keys()[i]),
{
    let mut i: usize = 0;
    while i < keys.items.len()
        invariant
            i <= keys.items@.len(),
            forall|j: int| 0 <= j < i ==> has_start(initial@, #[trigger] keys.keys()[j]),
        decreases keys.items.len() - i,
    {
        assert(keys.keys()[i as int] == keys.items@[i as int]);
        if find_start(initial, keys.items[i]).is_none() {
            return false;
        }
        i += 1;
    }
    true
}

proof fn lemma_replaced_keyframes(
    t: Seq<KeyframeModel>,
    tv: Seq<Keyframe>,
    keys: Seq<usize>,
    updated: Seq<Keyframe>,
    target: Seq<KeyframeModel>,
)
    requires
        timeline_view(tv) == t,
        t.len() <= usize::MAX,
        keys.len() == updated.len(),
        keys.no_duplicates(),
        forall|i: int| 0 <= i < keys.len() ==> #[trigger] keys[i] < t.len(),
        target.len() == t.len(),
        forall|j: int| 0 <= j < t.len() && !keys.contains(j as usize) ==> #[trigger] target[j] == t[j],
        forall|i: int| 0 <= i < keys.len() ==> #[trigger] updated[i]@ == target[keys[i] as int],
    ensures
        timeline_view(replaced_at(tv, keys, updated)) == target,
{
    let r = timeline_view(replaced_at(tv, keys, updated));
    assert forall|j: int| 0 <= j < t.len() implies r[j] == target[j] by {
        if keys.contains(j as usize) {
            let i = keys.index_of(j as usize);
            assert(keys[i] == j as usize);
            assert(updated[i]@ == target[keys[i] as int]);
        } else {
            assert(tv[j]@ == t[j]);
        }
    }
    assert(r =~= target);
}

proof fn lemma_keyframes_wf_same_hitboxes(t: Seq<KeyframeModel>, u: Seq<KeyframeModel>)
    requires
        keyframes_wf(t),
        t.len() == u.len(),
        forall|j: int| 0 <= j < t.len() ==> #[trigger] u[j].hitboxes == t[j].hitboxes,
    ensures
        keyframes_wf(u),
{
    assert forall|j: int| 0 <= j < u.len() implies hitbox_names(#[trigger] u[j].hitboxes).no_duplicates() by {
        assert(u[j].hitboxes == t[j].hitboxes);
    }
}

impl Document {
    fn selected_keyframes(&self) -> (r: Result<MultiSelection<usize>, DocumentError>)
        requires
            self.view.wf(),
        ensures
            match r {
                Ok(s) => s.wf() && self.view@.selection == Some(SelectionModel::Keyframe(s.keys(), s.last())),
                Err(e) => e == DocumentError::NoKeyframeSelected && !(self.view@.selection matches Some(SelectionModel::Keyframe(_, _))),
            },
    {
        match &self.view.selection {
            Some(Selection::Keyframe(s)) => Ok(s.duplicate()),
            _ => Err(DocumentError::NoKeyframeSelected),
        }
    }

    /// Starts a keyframe-duration drag on keyframe `frame_being_dragged` at
    /// clock `reference_clock`, capturing the selected keyframes' durations.
    pub fn begin_keyframe_duration_drag(&mut self, frame_being_dragged: usize, reference_clock: u32) -> (r: Result<(), DocumentError>)
        requires
            old(self).is_coherent(),
        ensures
            begin_keyframe_duration_drag_post(*old(self), *final(self), frame_being_dragged, reference_clock, r),
    {
        let ai = self.workbench_animation_index()?;
        let sel = self.selected_keyframes()?;
        proof {
            let name = workbench_animation(self.view@)->0;
            assert(self.sheet@.animation(name) == self.sheet@.animations[ai as int]);
            assert(self.view@.selection->Some_0->Keyframe_0 == sel.keys());
        }
        let initial = match self.keyframe_starts(ai, &sel) {
            Ok(v) => v,
            Err(e) => {
                assert(!(forall|i: int| 0 <= i < sel.keys().len() ==> #[trigger] sel.keys()[i] < self.sheet@.animations[ai as int].timeline.len()));
                return Err(e);
            },
        };
        self.transient = Some(Transient::KeyframeDuration(KeyframeDuration {
            initial,
            frame_being_dragged,
            reference_clock,
        }));
        Ok(())
    }

    fn keyframe_starts(&self, ai: usize, sel: &MultiSelection<usize>) -> (r: Result<Vec<KeyframeStart>, DocumentError>)
        requires
            self.sheet.wf(),
            ai < self.sheet@.animations.len(),
        ensures
            ({
                let t = self.sheet@.animations[ai as int].timeline;
                let valid = forall|i: int| 0 <= i < sel.keys().len() ==> #[trigger] sel.keys()[i] < t.len();
                &&& r.is_ok() <==> valid
                &&& r.is_err() ==> r == Err::<Vec<KeyframeStart>, DocumentError>(DocumentError::InvalidKeyframeIndex)
                &&& r matches Ok(v) ==> v@ == starts_of(t, sel.keys())
            }),
    {
        let animation = &self.sheet.animations[ai];
        let ghost t = self.sheet@.animations[ai as int].timeline;
        assert(animation@.timeline == t);
        let n = animation.timeline.len();
        if !all_below(sel, n) {
            return Err(DocumentError::InvalidKeyframeIndex);
        }
        let mut initial: Vec<KeyframeStart> = Vec::new();
        let mut i: usize = 0;
        while i < sel.items.len()
            invariant
                i <= sel.items@.len(),
                n == t.len(),
                t == animation@.timeline,
                forall|x: int| 0 <= x < sel.keys().len() ==> #[trigger] sel.keys()[x] < t.len(),
                initial@ == starts_of(t, sel.keys()).take(i as int),
            decreases sel.items.len() - i,
        {
            let k = sel.items[i];
            assert(sel.keys()[i as int] == k);
            assert(t[k as int] == animation.timeline@[k as int]@);
            let kf = &animation.timeline[k];
            initial.push(KeyframeStart { index: k, offset: kf.offset, duration: kf.duration });
            assert(initial@ =~= starts_of(t, sel.keys()).take(i + 1));
            i += 1;
        }
        assert(starts_of(t, sel.keys()).take(i as int) =~= starts_of(t, sel.keys()));
        Ok(initial)
    }

    /// Starts dragging the offsets of the selected keyframes.
    pub fn begin_keyframe_offset_drag(&mut self) -> (r: Result<(), DocumentError>)
        requires
            old(self).is_coherent(),
        ensures
            begin_keyframe_offset_drag_post(*old(self), *final(self), r),
    {
        let ai = self.workbench_animation_index()?;
        let sel = self.selected_keyframes()?;
        proof {
            let name = workbench_animation(self.view@)->0;
            assert(self.sheet@.animation(name) == self.sheet@.animations[ai as int]);
            assert(self.view@.selection->Some_0->Keyframe_0 == sel.keys());
        }
        let initial = match self.keyframe_starts(ai, &sel) {
            Ok(v) => v,
            Err(e) => {
                assert(!(forall|i: int| 0 <= i < sel.keys().len() ==> #[trigger] sel.keys()[i] < self.sheet@.animations[ai as int].timeline.len()));
                return Err(e);
            },
        };
        self.transient = Some(Transient::KeyframePosition(initial));
        Ok(())
    }

    /// Updates a keyframe-duration drag with the clock under the cursor (see
    /// `durations_dragged`, `duration_share`); the clock moves to the start of
    /// the keyframe touched last.
    pub fn update_keyframe_duration_drag(&mut self, clock_at_cursor: u32, minimum_duration: u32) -> (r: Result<(), DocumentError>)
        requires
            old(self).is_coherent(),
        ensures
            update_keyframe_duration_drag_post(*old(self), *final(self), clock_at_cursor, minimum_duration, r),
    {
        let ai = self.workbench_animation_index()?;
        let sel = self.selected_keyframes()?;
        let kd = match &self.transient {
            Some(Transient::KeyframeDuration(kd)) => kd,
            _ => return Err(DocumentError::NotAdjustingKeyframeDuration),
        };
        let n = self.sheet.animations[ai].timeline.len();
        let ghost t = self.sheet@.animations[ai as int].timeline;
        assert(self.sheet@.animations[ai as int] == self.sheet.animations@[ai as int]@);
        if !all_below(&sel, n) {
            return Err(DocumentError::InvalidKeyframeIndex);
        }
        if !all_have_starts(&sel, &kd.initial) {
            return Err(DocumentError::MissingKeyframeDurationData);
        }
        if sel.last_touched_in_range >= n {
            return Err(DocumentError::InvalidKeyframeIndex);
        }
        let count = count_selected_upto(&sel, kd.frame_being_dragged);
        let share = share_of_duration_drag(clock_at_cursor, kd.reference_clock, count);
        let ghost nt = durations_dragged(t, sel.keys(), kd.initial@, share as int, minimum_duration);
        let timeline = self.sheet.timeline_copy(ai);
        let mut updated: Vec<Keyframe> = Vec::new();
        let mut i: usize = 0;
        while i < sel.items.len()
            invariant
                i <= sel.items@.len(),
                n == t.len(),
                timeline_view(timeline@) == t,
                forall|x: int| 0 <= x < sel.keys().len() ==> #[trigger] sel.keys()[x] < t.len(),
                forall|x: int| 0 <= x < sel.keys().len() ==> has_start(kd.initial@, #[trigger] sel.keys()[x]),
                nt == durations_dragged(t, sel.keys(), kd.initial@, share as int, minimum_duration),
                -0x1_0000_0000 <= share <= 0x1_0000_0000,
                updated@.len() == i,
                forall|x: int| 0 <= x < i ==> #[trigger] updated@[x]@ == nt[sel.items@[x] as int],
            decreases sel.items.len() - i,
        {
            let k = sel.items[i];
            assert(sel.keys()[i as int] == k);
            let start = find_start(&kd.initial, k).unwrap();
            let mut kf = timeline[k].clone();
            kf.duration = drag_duration(start.duration, share, minimum_duration);
            proof {
                assert(sel.keys().contains(k));
                assert(t[k as int] == timeline@[k as int]@);
            }
            updated.push(kf);
            i += 1;
        }
        proof {
            assert forall|x: int| 0 <= x < sel.keys().len() implies #[trigger] updated@[x]@ == nt[sel.keys()[x] as int] by {
                assert(sel.keys()[x] == sel.items@[x]);
            }
            assert forall|j: int| 0 <= j < t.len() && !sel.keys().contains(j as usize) implies #[trigger] nt[j] == t[j] by {}
            lemma_replaced_keyframes(t, timeline@, sel.keys(), updated@, nt);
            lemma_keyframes_wf_same_hitboxes(t, nt);
        }
        let keys: Vec<usize> = sel.items;
        assert(keys@ == crate::selection::key_views(keys@)) by {
            assert(crate::selection::key_views(keys@) =~= keys@);
        }
        let new_timeline = replace_at(timeline, &keys, updated);
        let ghost old_sheet = self.sheet@;
        self.sheet.set_timeline(ai, new_timeline);
        assert(self.sheet@.animations[ai as int] == self.sheet.animations@[ai as int]@);
        match self.sheet.animations[ai].keyframe_start_time(sel.last_touched_in_range) {
            Some(c) => {
                self.view.timeline_clock = c;
            },
            None => {},
        }
        proof {
            lemma_timeline_replaced_keeps(old_sheet, ai as int, nt, self.view@);
            lemma_same_names_consistent(old_sheet, self.sheet@, self.view@);
        }
        Ok(())
    }
}

/// Name and starting rectangle of each recorded hitbox.
pub open spec fn hitbox_start_views(v: Seq<HitboxStart>) -> Seq<(Seq<char>, Rectangle)> {
    v.map_values(|h: HitboxStart| (h.name@, h.rectangle))
}

pub open spec fn rectangle_of(h: HitboxModel) -> Rectangle {
    match h.geometry {
        crate::sheet::Shape::Rectangle(r) => r,
    }
}

/// Position of the hitbox named `name` in `hs`.
pub open spec fn hitbox_position(hs: Seq<HitboxModel>, name: Seq<char>) -> int {
    choose|i: int| 0 <= i < hs.len() && hs[i].name == name
}

/// Starting states of the hitboxes named `names`.
pub open spec fn hitbox_starts_of(hs: Seq<HitboxModel>, names: Seq<Seq<char>>) -> Seq<(Seq<char>, Rectangle)> {
    names.map_values(|n: Seq<char>| (n, rectangle_of(hs[hitbox_position(hs, n)])))
}

/// Position of the first starting state recorded for hitbox `name`.
pub open spec fn hitbox_start_position(initial: Seq<(Seq<char>, Rectangle)>, name: Seq<char>) -> int {
    choose|i: int| 0 <= i < initial.len() && initial[i].0 == name && forall|j: int| 0 <= j < i ==> #[trigger] initial[j].0 != name
}

pub open spec fn has_hitbox_start(initial: Seq<(Seq<char>, Rectangle)>, name: Seq<char>) -> bool {
    exists|i: int| 0 <= i < initial.len() && #[trigger] initial[i].0 == name
}

pub open spec fn hitbox_start_of(initial: Seq<(Seq<char>, Rectangle)>, name: Seq<char>) -> Rectangle {
    initial[hitbox_start_position(initial, name)].1
}

/// The hitboxes after a resize or move: each selected one takes `f` of its
/// starting rectangle and its current one.
pub open spec fn hitboxes_updated(
    hs: Seq<HitboxModel>,
    names: Seq<Seq<char>>,
    f: spec_fn(Seq<char>, Rectangle) -> Rectangle,
) -> Seq<HitboxModel> {
    Seq::new(hs.len(), |j: int| if names.contains(hs[j].name) {
        HitboxModel { geometry: crate::sheet::Shape::Rectangle(f(hs[j].name, rectangle_of(hs[j]))), ..hs[j] }
    } else {
        hs[j]
    })
}

fn find_hitbox_start(initial: &Vec<HitboxStart>, name: &String) -> (r: Option<Rectangle>)
    ensures
        r is Some <==> has_hitbox_start(hitbox_start_views(initial@), name@),
        r matches Some(x) ==> x == hitbox_start_of(hitbox_start_views(initial@), name@),
{
    let ghost v = hitbox_start_views(initial@);
    let mut i: usize = 0;
    while i < initial.len()
        invariant
            i <= initial@.len(),
            v == hitbox_start_views(initial@),
            forall|j: int| 0 <= j < i ==> #[trigger] v[j].0 != name@,
        decreases initial.len() - i,
    {
        if initial[i].name == *name {
            proof {
                assert(v[i as int].0 == name@);
                let p = hitbox_start_position(v, name@);
                assert(0 <= p < v.len() && v[p].0 == name@ && forall|j: int| 0 <= j < p ==> #[trigger] v[j].0 != name@);
                if p < i {
                } else if i < p {
                    assert(v[i as int].0 != name@);
                }
            }
            return Some(initial[i].rectangle);
        }
        i += 1;
    }
    proof {
        if has_hitbox_start(v, name@) {
            let j = choose|j: int| 0 <= j < v.len() && #[trigger] v[j].0 == name@;
            assert(j < i);
        }
    }
    None
}

/// Positions, in the frame's hitboxes, of the hitboxes named `names`.
fn hitbox_indices(f: &Frame, names: &MultiSelection<String>) -> (r: Vec<usize>)
    requires
        hitbox_names(f@.hitboxes).no_duplicates(),
        names.wf(),
        forall|i: int| 0 <= i < names.keys().len() ==> hitbox_names(f@.hitboxes).contains(#[trigger] names.keys()[i]),
    ensures
        r@.len() == names.keys().len(),
        r@.no_duplicates(),
        forall|i: int| 0 <= i < r@.len() ==> #[trigger] r@[i] < f@.hitboxes.len() && f@.hitboxes[r@[i] as int].name == names.keys()[i],
        forall|j: int| 0 <= j < f@.hitboxes.len() ==> (r@.contains(j as usize) <==> names.keys().contains(#[trigger] f@.hitboxes[j].name)),
        forall|i: int| 0 <= i < r@.len() ==> r@[i] as int == hitbox_position(f@.hitboxes, #[trigger] names.keys()[i]),
{
    let ghost hs = f@.hitboxes;
    let ghost ks = names.keys();
    let n = f.hitboxes.len();
    assert(hs.len() == n);
    let mut r: Vec<usize> = Vec::new();
    let mut i: usize = 0;
    while i < names.items.len()
        invariant
            i <= names.items@.len(),
            ks == names.keys(),
            hs == f@.hitboxes,
            hitbox_names(hs).no_duplicates(),
            forall|x: int| 0 <= x < ks.len() ==> hitbox_names(hs).contains(#[trigger] ks[x]),
            r@.len() == i,
            forall|x: int| 0 <= x < i ==> #[trigger] r@[x] < hs.len() && hs[r@[x] as int].name == ks[x],
        decreases names.items.len() - i,
    {
        assert(ks[i as int] == names.items@[i as int]@);
        assert(hitbox_names(hs).contains(ks[i as int]));
        let k = f.hitbox_index(&names.items[i]).unwrap();
        r.push(k);
        i += 1;
    }
    proof {
        assert forall|a: int, b: int| 0 <= a < b < r@.len() implies r@[a] != r@[b] by {
            if r@[a] == r@[b] {
                assert(ks[a] == ks[b]);
            }
        }
        assert forall|j: int| 0 <= j < hs.len() implies (r@.contains(j as usize) <==> ks.contains(#[trigger] hs[j].name)) by {
            if r@.contains(j as usize) {
                let x = choose|x: int| 0 <= x < r@.len() && r@[x] == j as usize;
                assert(r@[x] as int == j);
                assert(ks[x] == hs[j].name);
            }
            if ks.contains(hs[j].name) {
                let x = choose|x: int| 0 <= x < ks.len() && ks[x] == hs[j].name;
                let p = r@[x] as int;
                assert(hitbox_names(hs)[p] == hitbox_names(hs)[j]);
                assert(r@[x] == j as usize);
            }
        }
        assert forall|x: int| 0 <= x < r@.len() implies r@[x] as int == hitbox_position(hs, #[trigger] ks[x]) by {
            let p = hitbox_position(hs, ks[x]);
            assert(hs[r@[x] as int].name == ks[x]);
            assert(hitbox_names(hs)[p] == hitbox_names(hs)[r@[x] as int]);
        }
    }
    r
}

proof fn lemma_replaced_hitboxes(
    hs: Seq<HitboxModel>,
    hv: Seq<Hitbox>,
    names: Seq<Seq<char>>,
    idx: Seq<usize>,
    updated: Seq<Hitbox>,
    target: Seq<HitboxModel>,
)
    requires
        crate::sheet::hitboxes_view(hv) == hs,
        hs.len() <= usize::MAX,
        idx.len() == updated.len(),
        idx.len() == names.len(),
        idx.no_duplicates(),
        forall|i: int| 0 <= i < idx.len() ==> #[trigger] idx[i] < hs.len() && hs[idx[i] as int].name == names[i],
        forall|j: int| 0 <= j < hs.len() ==> (idx.contains(j as usize) <==> names.contains(#[trigger] hs[j].name)),
        target.len() == hs.len(),
        forall|j: int| 0 <= j < hs.len() && !names.contains(hs[j].name) ==> #[trigger] target[j] == hs[j],
        forall|i: int| 0 <= i < idx.len() ==> #[trigger] updated[i]@ == target[idx[i] as int],
    ensures
        crate::sheet::hitboxes_view(replaced_at(hv, idx, updated)) == target,
        hitbox_names(hs).no_duplicates() && (forall|j: int| 0 <= j < hs.len() ==> #[trigger] target[j].name == hs[j].name)
            ==> hitbox_names(target).no_duplicates(),
{
    let r = crate::sheet::hitboxes_view(replaced_at(hv, idx, updated));
    assert forall|j: int| 0 <= j < hs.len() implies r[j] == target[j] by {
        if idx.contains(j as usize) {
            let i = idx.index_of(j as usize);
            assert(idx[i] == j as usize);
        } else {
            assert(hv[j]@ == hs[j]);
            assert(!names.contains(hs[j].name));
        }
    }
    assert(r =~= target);
    if hitbox_names(hs).no_duplicates() && (forall|j: int| 0 <= j < hs.len() ==> #[trigger] target[j].name == hs[j].name) {
        assert(hitbox_names(target) =~= hitbox_names(hs));
    }
}

impl Document {
    fn selected_hitboxes(&self) -> (r: Result<MultiSelection<String>, DocumentError>)
        requires
            self.view.wf(),
        ensures
            match r {
                Ok(s) => s.wf() && self.view@.selection == Some(SelectionModel::Hitbox(s.keys(), s.last())),
                Err(e) => e == DocumentError::NoHitboxSelected && !(self.view@.selection matches Some(SelectionModel::Hitbox(_, _))),
            },
    {
        match &self.view.selection {
            Some(Selection::Hitbox(s)) => Ok(s.duplicate()),
            _ => Err(DocumentError::NoHitboxSelected),
        }
    }

    /// Gives each hitbox named in `names` of the frame at `fi` the rectangle
    /// `f` makes of its name and current rectangle.
    fn apply_hitbox_rects(
        &mut self,
        fi: usize,
        names: &MultiSelection<String>,
        rects: Vec<Rectangle>,
        Ghost(f): Ghost<spec_fn(Seq<char>, Rectangle) -> Rectangle>,
    )
        requires
            old(self).is_coherent(),
            fi < old(self).sheet@.frames.len(),
            names.wf(),
            forall|i: int| 0 <= i < names.keys().len() ==> hitbox_names(old(self).sheet@.frames[fi as int].hitboxes).contains(#[trigger] names.keys()[i]),
            rects@.len() == names.keys().len(),
            forall|i: int| 0 <= i < rects@.len() ==> #[trigger] rects@[i] == f(names.keys()[i], rectangle_of(
                old(self).sheet@.frames[fi as int].hitboxes[hitbox_position(old(self).sheet@.frames[fi as int].hitboxes, names.keys()[i])])),
        ensures
            final(self).is_coherent(),
            final(self).sheet@ == (SheetModel {
                frames: old(self).sheet@.frames.update(fi as int, crate::sheet::FrameModel {
                    hitboxes: hitboxes_updated(old(self).sheet@.frames[fi as int].hitboxes, names.keys(), f),
                    ..old(self).sheet@.frames[fi as int]
                }),
                ..old(self).sheet@
            }),
            final(self).view == old(self).view,
            final(self).history == old(self).history,
            final(self).source == old(self).source,
            final(self).transient == old(self).transient,
            final(self).persistent == old(self).persistent,
    {
        let ghost hs = self.sheet@.frames[fi as int].hitboxes;
        assert(self.sheet@.frames[fi as int] == self.sheet.frames@[fi as int]@);
        assert(hitbox_names(hs).no_duplicates());
        let idx = hitbox_indices(&self.sheet.frames[fi], names);
        let current = self.sheet.hitboxes_copy(fi);
        let cn = current.len();
        assert(hs.len() == cn);
        let ghost target = hitboxes_updated(hs, names.keys(), f);
        let mut updated: Vec<Hitbox> = Vec::new();
        let mut i: usize = 0;
        while i < idx.len()
            invariant
                i <= idx@.len(),
                idx@.len() == names.keys().len(),
                rects@.len() == names.keys().len(),
                hitboxes_view(current@) == hs,
                target == hitboxes_updated(hs, names.keys(), f),
                forall|x: int| 0 <= x < idx@.len() ==> #[trigger] idx@[x] < hs.len() && hs[idx@[x] as int].name == names.keys()[x],
                forall|x: int| 0 <= x < idx@.len() ==> idx@[x] as int == hitbox_position(hs, #[trigger] names.keys()[x]),
                forall|x: int| 0 <= x < rects@.len() ==> #[trigger] rects@[x] == f(names.keys()[x], rectangle_of(hs[hitbox_position(hs, names.keys()[x])])),
                updated@.len() == i,
                forall|x: int| 0 <= x < i ==> #[trigger] updated@[x]@ == target[idx@[x] as int],
            decreases idx.len() - i,
        {
            let k = idx[i];
            let mut h = current[k].clone();
            h.geometry = Shape::Rectangle(rects[i]);
            proof {
                assert(current@[k as int]@ == hs[k as int]);
                assert(names.keys().contains(hs[k as int].name));
                assert(names.keys()[i as int] == hs[k as int].name);
            }
            updated.push(h);
            i += 1;
        }
        proof {
            assert forall|j: int| 0 <= j < hs.len() && !names.keys().contains(hs[j].name) implies #[trigger] target[j] == hs[j] by {}
            assert forall|j: int| 0 <= j < hs.len() implies #[trigger] target[j].name == hs[j].name by {}
            assert(hs.len() == current@.len());
            lemma_replaced_hitboxes(hs, current@, names.keys(), idx@, updated@, target);
        }
        let new_hitboxes = replace_at(current, &idx, updated);
        let ghost old_sheet = self.sheet@;
        self.sheet.set_hitboxes(fi, new_hitboxes);
        proof {
            assert(hitbox_names(target) =~= hitbox_names(hs));
            lemma_hitboxes_replaced_keeps(old_sheet, fi as int, target, self.view@);
            lemma_same_names_consistent(old_sheet, self.sheet@, self.view@);
        }
    }

    fn hitbox_starts(&self, fi: usize, names: &MultiSelection<String>) -> (r: Result<Vec<HitboxStart>, DocumentError>)
        requires
            self.sheet.wf(),
            fi < self.sheet@.frames.len(),
        ensures
            ({
                let hs = self.sheet@.frames[fi as int].hitboxes;
                let valid = forall|i: int| 0 <= i < names.keys().len() ==> hitbox_names(hs).contains(#[trigger] names.keys()[i]);
                &&& r.is_ok() <==> valid
                &&& r.is_err() ==> r == Err::<Vec<HitboxStart>, DocumentError>(DocumentError::InvalidHitboxName)
                &&& r matches Ok(v) ==> hitbox_start_views(v@) == hitbox_starts_of(hs, names.keys())
            }),
    {
        let frame = &self.sheet.frames[fi];
        let ghost hs = self.sheet@.frames[fi as int].hitboxes;
        assert(frame@.hitboxes == hs);
        assert(hitbox_names(hs).no_duplicates());
        if !frame.has_hitboxes(names) {
            return Err(DocumentError::InvalidHitboxName);
        }
        let mut starts: Vec<HitboxStart> = Vec::new();
        let mut i: usize = 0;
        while i < names.items.len()
            invariant
                i <= names.items@.len(),
                hs == frame@.hitboxes,
                hitbox_names(hs).no_duplicates(),
                forall|x: int| 0 <= x < names.keys().len() ==> hitbox_names(hs).contains(#[trigger] names.keys()[x]),
                hitbox_start_views(starts@) == hitbox_starts_of(hs, names.keys()).take(i as int),
            decreases names.items.len() - i,
        {
            assert(names.keys()[i as int] == names.items@[i as int]@);
            assert(hitbox_names(hs).contains(names.keys()[i as int]));
            let k = frame.hitbox_index(&names.items[i]).unwrap();
            proof {
                let p = hitbox_position(hs, names.keys()[i as int]);
                assert(hitbox_names(hs)[p] == hitbox_names(hs)[k as int]);
                assert(frame.hitboxes@[k as int]@ == hs[k as int]);
            }
            let rect = frame.hitboxes[k].get_rectangle();
            let ghost before = starts@;
            starts.push(HitboxStart { name: names.items[i].clone(), rectangle: rect });
            assert(hitbox_start_views(starts@) =~= hitbox_start_views(before).push((names.keys()[i as int], rect)));
            assert(hitbox_start_views(starts@) =~= hitbox_starts_of(hs, names.keys()).take(i + 1));
            i += 1;
        }
        assert(hitbox_starts_of(hs, names.keys()).take(i as int) =~= hitbox_starts_of(hs, names.keys()));
        Ok(starts)
    }

    /// Starts resizing the selected hitboxes by handle `axis`.
    pub fn begin_hitbox_scale(&mut self, axis: ResizeAxis) -> (r: Result<(), DocumentError>)
        requires
            old(self).is_coherent(),
        ensures
            begin_hitbox_scale_post(*old(self), *final(self), axis, r),
    {
        let fi = self.workbench_frame_index()?;
        let names = self.selected_hitboxes()?;
        proof {
            let p = workbench_frame(self.view@)->0;
            assert(self.sheet@.frame(p) == self.sheet@.frames[fi as int]);
            assert(self.view@.selection->Some_0->Hitbox_0 == names.keys());
        }
        let starts = match self.hitbox_starts(fi, &names) {
            Ok(v) => v,
            Err(e) => return Err(e),
        };
        self.transient = Some(Transient::HitboxSize(axis, starts));
        Ok(())
    }

    /// Starts moving the selected hitboxes.
    pub fn begin_hitbox_drag(&mut self) -> (r: Result<(), DocumentError>)
        requires
            old(self).is_coherent(),
        ensures
            begin_hitbox_drag_post(*old(self), *final(self), r),
    {
        let fi = self.workbench_frame_index()?;
        let names = self.selected_hitboxes()?;
        proof {
            let p = workbench_frame(self.view@)->0;
            assert(self.sheet@.frame(p) == self.sheet@.frames[fi as int]);
            assert(self.view@.selection->Some_0->Hitbox_0 == names.keys());
        }
        let starts = match self.hitbox_starts(fi, &names) {
            Ok(v) => v,
            Err(e) => return Err(e),
        };
        self.transient = Some(Transient::HitboxPosition(starts));
        Ok(())
    }
}

/// A hitbox moved by a drag: its starting corner displaced, its size kept.
pub open spec fn moved_rect(initial: Seq<(Seq<char>, Rectangle)>, d: Vec2, both_axes: bool, level: int) -> spec_fn(Seq<char>, Rectangle) -> Rectangle {
    |n: Seq<char>, cur: Rectangle| Rectangle {
        top_left: dragged_position(hitbox_start_of(initial, n).top_left, d, both_axes, level),
        size: cur.size,
    }
}

/// A hitbox resized by a drag of its handle `axis` (see `resized`).
pub open spec fn resized_rect(initial: Seq<(Seq<char>, Rectangle)>, axis: ResizeAxis, d: Vec2, keep_aspect: bool, level: int) -> spec_fn(Seq<char>, Rectangle) -> Rectangle {
    |n: Seq<char>, cur: Rectangle| resized(hitbox_start_of(initial, n), axis, d, keep_aspect, level)
}

proof fn lemma_zoom_in_bounds(v: &View)
    requires
        v.wf(),
    ensures
        crate::transient::zoom_level_in_bounds(v.workbench_zoom_level as int),
{
}

fn all_have_hitbox_starts(names: &MultiSelection<String>, initial: &Vec<HitboxStart>) -> (r: bool)
    ensures
        r == forall|i: int| 0 <= i < names.keys().len() ==> has_hitbox_start(hitbox_start_views(initial@), #[trigger] names.keys()[i]),
{
    let mut i: usize = 0;
    while i < names.items.len()
        invariant
            i <= names.items@.len(),
            forall|j: int| 0 <= j < i ==> has_hitbox_start(hitbox_start_views(initial@), #[trigger] names.keys()[j]),
        decreases names.items.len() - i,
    {
        assert(names.keys()[i as int] == names.items@[i as int]@);
        if find_hitbox_start(initial, &names.items[i]).is_none() {
            return false;
        }
        i += 1;
    }
    true
}

impl Document {
    /// Computes, for each selected hitbox, the rectangle a drag gives it.
    fn dragged_rects(
        &self,
        fi: usize,
        names: &MultiSelection<String>,
        initial: &Vec<HitboxStart>,
        resize: Option<(ResizeAxis, bool)>,
        d: Vec2,
        both_axes: bool,
    ) -> (r: Vec<Rectangle>)
        requires
            self.is_coherent(),
            fi < self.sheet@.frames.len(),
            forall|i: int| 0 <= i < names.keys().len() ==> hitbox_names(self.sheet@.frames[fi as int].hitboxes).contains(#[trigger] names.keys()[i]),
            forall|i: int| 0 <= i < names.keys().len() ==> has_hitbox_start(hitbox_start_views(initial@), #[trigger] names.keys()[i]),
        ensures
            r@.len() == names.keys().len(),
            ({
                let hs = self.sheet@.frames[fi as int].hitboxes;
                let level = self.view.workbench_zoom_level as int;
                let f = match resize {
                    Some((axis, keep)) => resized_rect(hitbox_start_views(initial@), axis, d, keep, level),
                    None => moved_rect(hitbox_start_views(initial@), d, both_axes, level),
                };
                forall|i: int| 0 <= i < r@.len() ==> #[trigger] r@[i] == f(names.keys()[i], rectangle_of(hs[hitbox_position(hs, names.keys()[i])]))
            }),
    {
        let ghost hs = self.sheet@.frames[fi as int].hitboxes;
        let ghost level = self.view.workbench_zoom_level as int;
        let ghost f = match resize {
            Some((axis, keep)) => resized_rect(hitbox_start_views(initial@), axis, d, keep, level),
            None => moved_rect(hitbox_start_views(initial@), d, both_axes, level),
        };
        proof {
            lemma_zoom_in_bounds(&self.view);
        }
        let frame = &self.sheet.frames[fi];
        assert(frame@ == self.sheet@.frames[fi as int]);
        let mut rects: Vec<Rectangle> = Vec::new();
        let mut i: usize = 0;
        while i < names.items.len()
            invariant
                i <= names.items@.len(),
                frame@.hitboxes == hs,
                hitbox_names(hs).no_duplicates(),
                crate::transient::zoom_level_in_bounds(self.view.workbench_zoom_level as int),
                level == self.view.workbench_zoom_level as int,
                f == (match resize {
                    Some((axis, keep)) => resized_rect(hitbox_start_views(initial@), axis, d, keep, level),
                    None => moved_rect(hitbox_start_views(initial@), d, both_axes, level),
                }),
                forall|x: int| 0 <= x < names.keys().len() ==> hitbox_names(hs).contains(#[trigger] names.keys()[x]),
                forall|x: int| 0 <= x < names.keys().len() ==> has_hitbox_start(hitbox_start_views(initial@), #[trigger] names.keys()[x]),
                rects@.len() == i,
                forall|x: int| 0 <= x < i ==> #[trigger] rects@[x] == f(names.keys()[x], rectangle_of(hs[hitbox_position(hs, names.keys()[x])])),
            decreases names.items.len() - i,
        {
            let ghost n = names.keys()[i as int];
            assert(n == names.items@[i as int]@);
            assert(hitbox_names(hs).contains(n));
            assert(has_hitbox_start(hitbox_start_views(initial@), n));
            let start = find_hitbox_start(initial, &names.items[i]).unwrap();
            let k = frame.hitbox_index(&names.items[i]).unwrap();
            proof {
                let p = hitbox_position(hs, n);
                assert(hitbox_names(hs)[p] == hitbox_names(hs)[k as int]);
                assert(frame.hitboxes@[k as int]@ == hs[k as int]);
            }
            let cur = frame.hitboxes[k].get_rectangle();
            let rect = match resize {
                Some((axis, keep)) => resize_rectangle(start, axis, d, keep, self.view.workbench_zoom_level),
                None => Rectangle {
                    top_left: drag_position(start.top_left, d, both_axes, self.view.workbench_zoom_level),
                    size: cur.size,
                },
            };
            rects.push(rect);
            i += 1;
        }
        rects
    }

    /// Updates a hitbox move by a displacement of `d` screen pixels (see
    /// `moved_rect`).
    pub fn update_hitbox_drag(&mut self, d: Vec2, both_axes: bool) -> (r: Result<(), DocumentError>)
        requires
            old(self).is_coherent(),
        ensures
            update_hitbox_drag_post(*old(self), *final(self), d, both_axes, r),
    {
        let fi = self.workbench_frame_index()?;
        let names = self.selected_hitboxes()?;
        let initial = match &self.transient {
            Some(Transient::HitboxPosition(v)) => v,
            _ => return Err(DocumentError::NotAdjustingHitboxPosition),
        };
        if !all_have_hitbox_starts(&names, initial) {
            return Err(DocumentError::MissingHitboxPositionData);
        }
        assert(self.sheet@.frames[fi as int] == self.sheet.frames@[fi as int]@);
        if !self.sheet.frames[fi].has_hitboxes(&names) {
            return Err(DocumentError::InvalidHitboxName);
        }
        let rects = self.dragged_rects(fi, &names, initial, None, d, both_axes);
        let ghost f = moved_rect(hitbox_start_views(initial@), d, both_axes, self.view.workbench_zoom_level as int);
        self.apply_hitbox_rects(fi, &names, rects, Ghost(f));
        Ok(())
    }

    /// Updates a hitbox resize by a displacement of `d` screen pixels (see
    /// `resized_rect`).
    pub fn update_hitbox_scale(&mut self, d: Vec2, preserve_aspect_ratio: bool) -> (r: Result<(), DocumentError>)
        requires
            old(self).is_coherent(),
        ensures
            update_hitbox_scale_post(*old(self), *final(self), d, preserve_aspect_ratio, r),
    {
        let fi = self.workbench_frame_index()?;
        let names = self.selected_hitboxes()?;
        let (axis, initial) = match &self.transient {
            Some(Transient::HitboxSize(a, v)) => (*a, v),
            _ => return Err(DocumentError::NotAdjustingHitboxSize),
        };
        if !all_have_hitbox_starts(&names, initial) {
            return Err(DocumentError::MissingHitboxSizeData);
        }
        assert(self.sheet@.frames[fi as int] == self.sheet.frames@[fi as int]@);
        if !self.sheet.frames[fi].has_hitboxes(&names) {
            return Err(DocumentError::InvalidHitboxName);
        }
        let rects = self.dragged_rects(fi, &names, initial, Some((axis, preserve_aspect_ratio)), d, false);
        let ghost f = resized_rect(hitbox_start_views(initial@), axis, d, preserve_aspect_ratio, self.view.workbench_zoom_level as int);
        self.apply_hitbox_rects(fi, &names, rects, Ghost(f));
        Ok(())
    }
}

impl Document {
    /// Updates a keyframe-offset drag by a displacement of `d` screen pixels
    /// (see `offsets_dragged`).
    pub fn update_keyframe_offset_drag(&mut self, d: Vec2, both_axes: bool) -> (r: Result<(), DocumentError>)
        requires
            old(self).is_coherent(),
        ensures
            update_keyframe_offset_drag_post(*old(self), *final(self), d, both_axes, r),
    {
        let ai = self.workbench_animation_index()?;
        let sel = self.selected_keyframes()?;
        let initial = match &self.transient {
            Some(Transient::KeyframePosition(v)) => v,
            _ => return Err(DocumentError::NotAdjustingKeyframePosition),
        };
        if !all_have_starts(&sel, initial) {
            return Err(DocumentError::MissingKeyframePositionData);
        }
        let n = self.sheet.animations[ai].timeline.len();
        let ghost t = self.sheet@.animations[ai as int].timeline;
        assert(self.sheet@.animations[ai as int] == self.sheet.animations@[ai as int]@);
        if !all_below(&sel, n) {
            return Err(DocumentError::InvalidKeyframeIndex);
        }
        proof {
            lemma_zoom_in_bounds(&self.view);
        }
        let level = self.view.workbench_zoom_level;
        let ghost nt = offsets_dragged(t, sel.keys(), initial@, d, both_axes, level as int);
        let timeline = self.sheet.timeline_copy(ai);
        let mut updated: Vec<Keyframe> = Vec::new();
        let mut i: usize = 0;
        while i < sel.items.len()
            invariant
                i <= sel.items@.len(),
                n == t.len(),
                timeline_view(timeline@) == t,
                crate::transient::zoom_level_in_bounds(level as int),
                forall|x: int| 0 <= x < sel.keys().len() ==> #[trigger] sel.keys()[x] < t.len(),
                forall|x: int| 0 <= x < sel.keys().len() ==> has_start(initial@, #[trigger] sel.keys()[x]),
                nt == offsets_dragged(t, sel.keys(), initial@, d, both_axes, level as int),
                updated@.len() == i,
                forall|x: int| 0 <= x < i ==> #[trigger] updated@[x]@ == nt[sel.items@[x] as int],
            decreases sel.items.len() - i,
        {
            let k = sel.items[i];
            assert(sel.keys()[i as int] == k);
            let start = find_start(initial, k).unwrap();
            let mut kf = timeline[k].clone();
            kf.offset = drag_position(start.offset, d, both_axes, level);
            proof {
                assert(sel.keys().contains(k));
                assert(t[k as int] == timeline@[k as int]@);
            }
            updated.push(kf);
            i += 1;
        }
        proof {
            assert forall|x: int| 0 <= x < sel.keys().len() implies #[trigger] updated@[x]@ == nt[sel.keys()[x] as int] by {
                assert(sel.keys()[x] == sel.items@[x]);
            }
            assert forall|j: int| 0 <= j < t.len() && !sel.keys().contains(j as usize) implies #[trigger] nt[j] == t[j] by {}
            lemma_replaced_keyframes(t, timeline@, sel.keys(), updated@, nt);
            lemma_keyframes_wf_same_hitboxes(t, nt);
        }
        let keys: Vec<usize> = sel.items;
        assert(keys@ == crate::selection::key_views(keys@)) by {
            assert(crate::selection::key_views(keys@) =~= keys@);
        }
        let new_timeline = replace_at(timeline, &keys, updated);
        let ghost old_sheet = self.sheet@;
        self.sheet.set_timeline(ai, new_timeline);
        proof {
            lemma_timeline_replaced_keeps(old_sheet, ai as int, nt, self.view@);
            lemma_same_names_consistent(old_sheet, self.sheet@, self.view@);
        }
        Ok(())
    }

    /// Adds a hitbox at `position` to the frame on the workbench, selects it
    /// and starts resizing it by its bottom-right handle.
    pub fn create_hitbox(&mut self, position: Vec2) -> (r: Result<(), DocumentError>)
        requires
            old(self).is_coherent(),
        ensures
            create_hitbox_post(*old(self), *final(self), position, r),
    {
        let fi = self.workbench_frame_index()?;
        let ghost old_sheet = self.sheet@;
        let mut hitboxes = self.sheet.hitboxes_copy(fi);
        let mut frame = Frame { source: self.sheet.frames[fi].source.clone(), hitboxes };
        assert(self.sheet@.frames[fi as int] == self.sheet.frames@[fi as int]@);
        assert(frame@.hitboxes == old_sheet.frames[fi as int].hitboxes);
        let name = frame.add_hitbox();
        let ghost after_add = frame@;
        let rect = Rectangle { top_left: position, size: Size2 { width: 0, height: 0 } };
        let last = frame.hitboxes.len() - 1;
        let ghost before_rect = frame.hitboxes@;
        assert(frame@.hitboxes == hitboxes_view(before_rect));
        assert(hitboxes_view(before_rect) == old_sheet.frames[fi as int].hitboxes.push(before_rect[last as int]@));
        let mut h = frame.hitboxes.remove(last);
        h.geometry = Shape::Rectangle(rect);
        frame.hitboxes.push(h);
        proof {
            assert(frame.hitboxes@ =~= before_rect.remove(last as int).push(h));
            let oh = old_sheet.frames[fi as int].hitboxes;
            assert(hitboxes_view(before_rect).len() == oh.len() + 1);
            assert forall|j: int| 0 <= j < oh.len() implies hitboxes_view(before_rect.remove(last as int))[j] == oh[j] by {
                assert(before_rect.remove(last as int)[j] == before_rect[j]);
                assert(hitboxes_view(before_rect)[j] == oh.push(before_rect[last as int]@)[j]);
            }
            assert(hitboxes_view(before_rect.remove(last as int)) =~= oh);
            assert(hitboxes_view(before_rect)[last as int] == after_add.hitboxes[last as int]);
            assert(before_rect[last as int]@.name == name@);
            assert(hitboxes_view(frame.hitboxes@) =~= old_sheet.frames[fi as int].hitboxes.push(
                HitboxModel { name: name@, geometry: Shape::Rectangle(rect), linked: true, locked: false }));
            assert(hitbox_names(hitboxes_view(frame.hitboxes@)) =~= hitbox_names(old_sheet.frames[fi as int].hitboxes).push(name@));
        }
        self.sheet.set_hitboxes(fi, frame.hitboxes);
        let selection = MultiSelection { items: vec![name.clone()], last_touched_in_range: name.clone() };
        assert(selection.keys() =~= seq![name@]);
        self.view.selection = Some(Selection::Hitbox(selection));
        let start = HitboxStart { name, rectangle: rect };
        let starts = vec![start];
        assert(hitbox_start_views(starts@) =~= seq![(start.name@, rect)]);
        self.transient = Some(Transient::HitboxSize(ResizeAxis::SE, starts));
        proof {
            let pushed = old_sheet.frames[fi as int].hitboxes.push(
                HitboxModel { name: name@, geometry: Shape::Rectangle(rect), linked: true, locked: false });
            assert(hitbox_names(pushed) =~= hitbox_names(old_sheet.frames[fi as int].hitboxes).push(name@));
            assert forall|n: Seq<char>| hitbox_names(old_sheet.frames[fi as int].hitboxes).contains(n) implies #[trigger] hitbox_names(pushed).contains(n) by {
                let j = choose|j: int| 0 <= j < hitbox_names(old_sheet.frames[fi as int].hitboxes).len() && hitbox_names(old_sheet.frames[fi as int].hitboxes)[j] == n;
                assert(hitbox_names(pushed)[j] == n);
            }
            lemma_hitboxes_replaced_keeps(old_sheet, fi as int, pushed, old(self).view@);
            lemma_same_names_consistent(old_sheet, self.sheet@, old(self).view@);
            let p = workbench_frame(self.view@)->0;
            lemma_frame_position(self.sheet@, p, fi as int);
            assert(hitbox_names(self.sheet@.frame(p).hitboxes)[hitbox_names(pushed).len() - 1] == name@);
            assert(self.view@.selection == Some(SelectionModel::Hitbox(seq![name@], name@)));
        }
        Ok(())
    }
}

/// The sheet after deleting the frames `paths`, one after the other.
pub open spec fn without_frames(s: SheetModel, paths: Seq<Seq<char>>) -> SheetModel
    decreases paths.len(),
{
    if paths.len() == 0 {
        s
    } else {
        without_frames(s, paths.drop_last()).without_frame(paths.last())
    }
}

/// The sheet after deleting the animations `names`, one after the other.
pub open spec fn without_animations(s: SheetModel, names: Seq<Seq<char>>) -> SheetModel
    decreases names.len(),
{
    if names.len() == 0 {
        s
    } else {
        let t = without_animations(s, names.drop_last());
        SheetModel { animations: t.animations.filter(crate::sheet::other_animation(names.last())), ..t }
    }
}

/// The hitboxes left after deleting those named `names`, one after the other.
pub open spec fn without_hitboxes(hs: Seq<HitboxModel>, names: Seq<Seq<char>>) -> Seq<HitboxModel>
    decreases names.len(),
{
    if names.len() == 0 {
        hs
    } else {
        without_hitboxes(hs, names.drop_last()).filter(crate::sheet::other_hitbox(names.last()))
    }
}

/// The workbench item after deleting the animations `names`: closed if it
/// was one of them.
pub open spec fn workbench_after_deleting(w: Option<WorkbenchItemModel>, names: Seq<Seq<char>>) -> Option<WorkbenchItemModel> {
    match w {
        Some(WorkbenchItemModel::Animation(n)) => if names.contains(n) { None } else { w },
        _ => w,
    }
}

impl Document {
    /// Deletes what is selected and clears the selection: frames (with the
    /// keyframes that show them), animations (closing the workbench item if it
    /// was one of them), hitboxes of the frame on the workbench, or keyframes
    /// of the animation on the workbench.
    pub fn delete_selection(&mut self) -> (r: Result<(), DocumentError>)
        requires
            old(self).is_coherent(),
        ensures
            delete_selection_post(*old(self), *final(self), r),
    {
        let ghost old_view = self.view@;
        match &self.view.selection {
            None => {
                return Ok(());
            },
            Some(Selection::Frame(paths)) => {
                let paths = paths.duplicate();
                let ghost ps = paths.keys();
                let mut i: usize = 0;
                assert(ps.take(0) =~= seq![]);
                while i < paths.items.len()
                    invariant
                        i <= paths.items@.len(),
                        ps == paths.keys(),
                        self.sheet.wf(),
                        self.sheet@ == without_frames(old(self).sheet@, ps.take(i as int)),
                        self.view == old(self).view,
                        self.history == old(self).history,
                        self.source == old(self).source,
                        self.persistent == old(self).persistent,
                        self.transient == old(self).transient,
                    decreases paths.items.len() - i,
                {
                    self.sheet.delete_frame(&paths.items[i]);
                    assert(ps.take(i + 1).drop_last() =~= ps.take(i as int));
                    assert(ps[i as int] == paths.items@[i as int]@);
                    i += 1;
                }
                assert(ps.take(i as int) =~= ps);
                self.view.selection = None;
            },
            Some(Selection::Animation(names)) => {
                let names = names.duplicate();
                let ghost ns = names.keys();
                let mut i: usize = 0;
                assert(ns.take(0) =~= seq![]);
                while i < names.items.len()
                    invariant
                        i <= names.items@.len(),
                        ns == names.keys(),
                        self.sheet.wf(),
                        self.sheet@ == without_animations(old(self).sheet@, ns.take(i as int)),
                        self.view == old(self).view,
                        self.history == old(self).history,
                        self.source == old(self).source,
                        self.persistent == old(self).persistent,
                        self.transient == old(self).transient,
                    decreases names.items.len() - i,
                {
                    self.sheet.delete_animation(&names.items[i]);
                    assert(ns.take(i + 1).drop_last() =~= ns.take(i as int));
                    assert(ns[i as int] == names.items@[i as int]@);
                    i += 1;
                }
                assert(ns.take(i as int) =~= ns);
                self.view.selection = None;
                let close = match &self.view.workbench_item {
                    Some(WorkbenchItem::Animation(n)) => names.is_selected(n),
                    _ => false,
                };
                if close {
                    self.view.workbench_item = None;
                }
                proof {
                    lemma_without_animations_keeps(old(self).sheet@, ns);
                    match self.view@.workbench_item {
                        Some(WorkbenchItemModel::Animation(n)) => {
                            assert(!ns.contains(n));
                            assert(old(self).sheet@.has_animation(n));
                        },
                        _ => {},
                    }
                }
            },
            Some(Selection::Hitbox(names)) => {
                let names = names.duplicate();
                let fi = self.workbench_frame_index()?;
                let ghost ns = names.keys();
                let mut hitboxes = self.sheet.hitboxes_copy(fi);
                let ghost hs0 = self.sheet@.frames[fi as int].hitboxes;
                assert(self.sheet@.frames[fi as int] == self.sheet.frames@[fi as int]@);
                let mut i: usize = 0;
                assert(ns.take(0) =~= seq![]);
                while i < names.items.len()
                    invariant
                        i <= names.items@.len(),
                        ns == names.keys(),
                        hitbox_names(hs0).no_duplicates(),
                        hitboxes_view(hitboxes@) == without_hitboxes(hs0, ns.take(i as int)),
                        hitbox_names(hitboxes_view(hitboxes@)).no_duplicates(),
                    decreases names.items.len() - i,
                {
                    let ghost before = hitboxes_view(hitboxes@);
                    hitboxes = crate::sheet::hitboxes_without(&hitboxes, &names.items[i]);
                    proof {
                        crate::sheet::lemma_filter_keeps_unique(before, crate::sheet::other_hitbox(ns[i as int]), |h: HitboxModel| h.name);
                        assert(hitbox_names(hitboxes_view(hitboxes@)) =~= before.filter(crate::sheet::other_hitbox(ns[i as int])).map_values(|h: HitboxModel| h.name));
                    }
                    assert(ns.take(i + 1).drop_last() =~= ns.take(i as int));
                    assert(ns[i as int] == names.items@[i as int]@);
                    i += 1;
                }
                assert(ns.take(i as int) =~= ns);
                let ghost old_sheet = self.sheet@;
                self.sheet.set_hitboxes(fi, hitboxes);
                self.view.selection = None;
                proof {
                    lemma_same_names_consistent(old_sheet, self.sheet@, self.view@);
                }
            },
            Some(Selection::Keyframe(keys)) => {
                let keys = keys.duplicate();
                let ai = self.workbench_animation_index()?;
                let timeline = self.sheet.timeline_copy(ai);
                let ghost t = timeline_view(timeline@);
                let (_moved, rest) = split_timeline(timeline, &keys);
                proof {
                    lemma_parts_len(t, keys.keys(), t.len() as int);
                }
                let ghost old_sheet = self.sheet@;
                self.sheet.set_timeline(ai, rest);
                self.view.selection = None;
                proof {
                    lemma_same_names_consistent(old_sheet, self.sheet@, self.view@);
                }
            },
        }
        proof {
            if old_view.selection matches Some(SelectionModel::Frame(_, _)) {
                lemma_without_frames_names(old(self).sheet@, old_view.selection->Some_0->Frame_0);
                assert(forall|n: Seq<char>| old(self).sheet@.has_animation(n) == self.sheet@.has_animation(n));
            }
        }
        Ok(())
    }
}

/// Deleting frames keeps the animation names.
pub proof fn lemma_without_frames_names(s: SheetModel, paths: Seq<Seq<char>>)
    ensures
        animation_names(without_frames(s, paths).animations) == animation_names(s.animations),
    decreases paths.len(),
{
    if paths.len() > 0 {
        lemma_without_frames_names(s, paths.drop_last());
        let t = without_frames(s, paths.drop_last());
        assert(animation_names(t.without_frame(paths.last()).animations) =~= animation_names(t.animations));
    }
}

proof fn lemma_has_animation_member(s: SheetModel, n: Seq<char>)
    ensures
        s.has_animation(n) <==> exists|a: crate::sheet::AnimationModel| s.animations.contains(a) && a.name == n,
{
    if s.has_animation(n) {
        let j = choose|j: int| 0 <= j < animation_names(s.animations).len() && animation_names(s.animations)[j] == n;
        assert(s.animations.contains(s.animations[j]));
    }
    if exists|a: crate::sheet::AnimationModel| s.animations.contains(a) && a.name == n {
        let a = choose|a: crate::sheet::AnimationModel| s.animations.contains(a) && a.name == n;
        let j = choose|j: int| 0 <= j < s.animations.len() && s.animations[j] == a;
        assert(animation_names(s.animations)[j] == n);
    }
}

/// The animations left after deleting `names` are the others, and only
/// those the sheet had.
pub proof fn lemma_without_animations_keeps(s: SheetModel, names: Seq<Seq<char>>)
    ensures
        forall|n: Seq<char>| without_animations(s, names).has_animation(n) <==> s.has_animation(n) && !names.contains(n),
        without_animations(s, names).frames == s.frames,
    decreases names.len(),
{
    if names.len() > 0 {
        let init = names.drop_last();
        lemma_without_animations_keeps(s, init);
        let t = without_animations(s, init);
        let u = without_animations(s, names);
        let last = names.last();
        let p = crate::sheet::other_animation(last);
        assert forall|n: Seq<char>| u.has_animation(n) <==> s.has_animation(n) && !names.contains(n) by {
            lemma_has_animation_member(u, n);
            lemma_has_animation_member(t, n);
            assert(names.contains(n) <==> init.contains(n) || n == last) by {
                if names.contains(n) {
                    let w = choose|w: int| 0 <= w < names.len() && names[w] == n;
                    if w < init.len() {
                        assert(init[w] == n);
                    }
                }
                if init.contains(n) {
                    let w = choose|w: int| 0 <= w < init.len() && init[w] == n;
                    assert(names[w] == n);
                }
                if n == last {
                    assert(names[names.len() - 1] == n);
                }
            }
            if u.has_animation(n) {
                let a = choose|a: crate::sheet::AnimationModel| u.animations.contains(a) && a.name == n;
                t.animations.lemma_filter_contains_rev(p, a);
                assert(t.has_animation(n));
            }
            if t.has_animation(n) && n != last {
                let a = choose|a: crate::sheet::AnimationModel| t.animations.contains(a) && a.name == n;
                let k = choose|k: int| 0 <= k < t.animations.len() && t.animations[k] == a;
                t.animations.lemma_filter_contains(p, k);
                assert(u.animations.contains(a));
            }
        }
    }
}

/// The selection after deleting the frame at `path`: a frame selection loses
/// the path (none where nothing is left); hitbox and keyframe selections,
/// whose entities may be gone, are cleared.
pub open spec fn selection_without_frame(sel: Option<SelectionModel>, path: Seq<char>) -> Option<SelectionModel> {
    match sel {
        Some(SelectionModel::Frame(keys, last)) => {
            let rest = keys.filter(crate::selection::other_key(path));
            if rest.len() == 0 { None } else { Some(SelectionModel::Frame(rest, last)) }
        },
        Some(SelectionModel::Hitbox(_, _)) | Some(SelectionModel::Keyframe(_, _)) => None,
        _ => sel,
    }
}

/// A point moved by `d` times `amplitude`, kept within `i32`.
pub open spec fn nudged(p: Vec2, d: Vec2, amplitude: int) -> Vec2 {
    Vec2 {
        x: crate::transient::clamp_i32(p.x + crate::transient::clamp_i32(d.x * amplitude)),
        y: crate::transient::clamp_i32(p.y + crate::transient::clamp_i32(d.y * amplitude)),
    }
}

pub open spec fn nudged_rect(d: Vec2, amplitude: int) -> spec_fn(Seq<char>, Rectangle) -> Rectangle {
    |n: Seq<char>, cur: Rectangle| Rectangle { top_left: nudged(cur.top_left, d, amplitude), size: cur.size }
}

fn nudge_point(p: Vec2, d: Vec2, large: bool) -> (r: Vec2)
    ensures
        r == nudged(p, d, if large { 10 } else { 1 }),
{
    let a: i64 = if large { 10 } else { 1 };
    let dx = clamp_wide(d.x as i64 * a);
    let dy = clamp_wide(d.y as i64 * a);
    Vec2 { x: clamp_wide(p.x as i64 + dx as i64), y: clamp_wide(p.y as i64 + dy as i64) }
}

fn clamp_wide(v: i64) -> (r: i32)
    ensures
        r == crate::transient::clamp_i32(v as int),
{
    if v > i32::MAX as i64 {
        i32::MAX
    } else if v < i32::MIN as i64 {
        i32::MIN
    } else {
        v as i32
    }
}

impl Document {
    /// Deletes the frame at `path` and every keyframe that shows it, and takes
    /// it out of an active frame selection.
    pub fn delete_frame(&mut self, path: &String) -> (r: Result<(), DocumentError>)
        requires
            old(self).is_coherent(),
        ensures
            delete_frame_post(*old(self), *final(self), *path, r),
    {
        if !self.sheet.has_frame(path) {
            return Err(DocumentError::FrameNotInDocument);
        }
        let ghost old_sheet = self.sheet@;
        self.sheet.delete_frame(path);
        let new_selection = match &self.view.selection {
            Some(Selection::Frame(keys)) => {
                let rest = crate::selection::keys_without(&keys.items, path);
                proof {
                    crate::selection::lemma_filter_no_duplicates(keys.keys(), crate::selection::other_key(path@));
                }
                if rest.len() == 0 {
                    None
                } else {
                    Some(Selection::Frame(MultiSelection { items: rest, last_touched_in_range: keys.last_touched_in_range.clone() }))
                }
            },
            Some(Selection::Animation(s)) => Some(Selection::Animation(s.duplicate())),
            _ => None,
        };
        self.view.selection = new_selection;
        proof {
            assert(animation_names(self.sheet@.animations) =~= animation_names(old_sheet.animations));
            assert(forall|n: Seq<char>| old_sheet.has_animation(n) == self.sheet@.has_animation(n));
            match self.view@.selection {
                Some(SelectionModel::Frame(keys, _)) => {
                    let old_keys = old(self).view@.selection->Some_0->Frame_0;
                    let p = crate::selection::other_key(path@);
                    assert forall|i: int| 0 <= i < keys.len() implies self.sheet@.has_frame(#[trigger] keys[i]) by {
                        old_keys.lemma_filter_contains_rev(p, keys[i]);
                        let j = choose|j: int| 0 <= j < old_keys.len() && old_keys[j] == keys[i];
                        assert(old_sheet.has_frame(old_keys[j]));
                        let fj = choose|fj: int| 0 <= fj < frame_sources(old_sheet.frames).len() && frame_sources(old_sheet.frames)[fj] == keys[i];
                        old_sheet.frames.lemma_filter_contains(other_frame(path@), fj);
                        let f = old_sheet.frames[fj];
                        let k = choose|k: int| 0 <= k < self.sheet@.frames.len() && self.sheet@.frames[k] == f;
                        assert(frame_sources(self.sheet@.frames)[k] == keys[i]);
                    }
                },
                _ => {},
            }
        }
        Ok(())
    }

    /// Starts renaming the animation or hitbox touched last.
    pub fn begin_rename_selection(&mut self)
        requires
            old(self).is_coherent(),
        ensures
            begin_rename_selection_post(*old(self), *final(self)),
    {
        match &self.view.selection {
            Some(Selection::Animation(names)) => {
                self.transient = Some(Transient::Rename(names.last_touched_in_range.clone()));
            },
            Some(Selection::Hitbox(names)) => {
                self.transient = Some(Transient::Rename(names.last_touched_in_range.clone()));
            },
            _ => {},
        }
    }

    /// Commits a rename of the animation or hitbox touched last to the staged
    /// name, refusing a name that another one holds; the renamed entity is
    /// selected, and stays open on the workbench if it was.
    pub fn end_rename_selection(&mut self) -> (r: Result<(), DocumentError>)
        requires
            old(self).is_coherent(),
        ensures
            end_rename_selection_post(*old(self), *final(self), r),
    {
        let new_name = match &self.transient {
            Some(Transient::Rename(n)) => n.clone(),
            _ => return Err(DocumentError::NotRenaming),
        };
        match &self.view.selection {
            Some(Selection::Animation(names)) => {
                let old_name = names.last_touched_in_range.clone();
                if old_name == new_name {
                    return Ok(());
                }
                if self.sheet.has_animation(&new_name) {
                    return Err(DocumentError::AnimationAlreadyExists);
                }
                let ghost old_sheet = self.sheet@;
                match self.sheet.rename_animation(&old_name, &new_name) {
                    Ok(()) => {},
                    Err(e) => return Err(DocumentError::InvalidSheetOperation(e)),
                }
                let selection = MultiSelection { items: vec![new_name.clone()], last_touched_in_range: new_name.clone() };
                assert(selection.keys() =~= seq![new_name@]);
                self.view.selection = Some(Selection::Animation(selection));
                let was_open = match &self.view.workbench_item {
                    Some(WorkbenchItem::Animation(n)) => *n == old_name,
                    _ => false,
                };
                if was_open {
                    self.view.workbench_item = Some(WorkbenchItem::Animation(new_name.clone()));
                }
                proof {
                    let pos = old_sheet.animation_position(old_name@);
                    let names_new = animation_names(self.sheet@.animations);
                    let names_old = animation_names(old_sheet.animations);
                    assert(names_new =~= names_old.update(pos, new_name@));
                    assert(names_new[pos] == new_name@);
                    assert(self.sheet@.has_animation(new_name@));
                    assert(self.sheet@.frames == old_sheet.frames);
                    match self.view@.workbench_item {
                        Some(WorkbenchItemModel::Animation(n)) => {
                            if n != new_name@ {
                                assert(n != old_name@);
                                assert(old_sheet.has_animation(n));
                                let j = choose|j: int| 0 <= j < names_old.len() && names_old[j] == n;
                                assert(j != pos);
                                assert(names_new[j] == n);
                            }
                        },
                        _ => {},
                    }
                }
                Ok(())
            },
            Some(Selection::Hitbox(names)) => {
                let old_name = names.last_touched_in_range.clone();
                if old_name == new_name {
                    return Ok(());
                }
                let fi = self.workbench_frame_index()?;
                assert(self.sheet@.frames[fi as int] == self.sheet.frames@[fi as int]@);
                if self.sheet.frames[fi].has_hitbox(&new_name) {
                    return Err(DocumentError::HitboxAlreadyExists);
                }
                let mut frame = self.sheet.frames[fi].clone();
                let ghost hs = frame@.hitboxes;
                match frame.rename_hitbox(&old_name, &new_name) {
                    Ok(()) => {},
                    Err(e) => return Err(DocumentError::InvalidSheetOperation(e)),
                }
                proof {
                    let i = choose|i: int| 0 <= i < hs.len() && hs[i].name == old_name@ && frame@ == (crate::sheet::FrameModel {
                        hitboxes: hs.update(i, HitboxModel { name: new_name@, ..hs[i] }),
                        ..old(self).sheet@.frames[fi as int]
                    });
                    let p = hitbox_position(hs, old_name@);
                    assert(hitbox_names(hs)[i] == hitbox_names(hs)[p]);
                    let nn = hitbox_names(frame@.hitboxes);
                    assert(nn =~= hitbox_names(hs).update(i, new_name@));
                    assert forall|a: int, b: int| 0 <= a < b < nn.len() implies nn[a] != nn[b] by {
                        if a == i && nn[a] == nn[b] {
                            assert(hitbox_names(hs)[b] == new_name@);
                        } else if b == i && nn[a] == nn[b] {
                            assert(hitbox_names(hs)[a] == new_name@);
                        } else if a != i && b != i {
                            assert(nn[a] == hitbox_names(hs)[a]);
                        }
                    }
                    assert(nn[i] == new_name@);
                    assert(nn.contains(new_name@));
                }
                let ghost renamed = frame@.hitboxes;
                let ghost old_sheet = self.sheet@;
                self.sheet.set_hitboxes(fi, frame.hitboxes);
                assert(self.sheet@.frames[fi as int].hitboxes == renamed);
                let selection = MultiSelection { items: vec![new_name.clone()], last_touched_in_range: new_name.clone() };
                assert(selection.keys() =~= seq![new_name@]);
                self.view.selection = Some(Selection::Hitbox(selection));
                proof {
                    lemma_hitboxes_renamed_consistent(old_sheet, self.sheet@, self.view@, fi as int, new_name@);
                }
                Ok(())
            },
            _ => Ok(()),
        }
    }
}

/// Playback restarts from zero when started at or past the end of a
/// non-looping animation.
pub open spec fn rewinds(a: crate::sheet::AnimationModel, clock: u64, playing: bool) -> bool {
    let d = timeline_duration(a.timeline);
    !playing && a.timeline.len() > 0 && 0 < d <= u64::MAX && !a.is_looping && clock >= d
}

/// Keyframe `i` is the last one to start before `now`.
pub open spec fn is_previous_start(t: Seq<KeyframeModel>, now: nat, i: int) -> bool {
    &&& 0 <= i < t.len()
    &&& start_time(t, i) < now
    &&& forall|j: int| i < j < t.len() ==> #[trigger] start_time(t, j) >= now
}

/// Keyframe `i` is the first one to start after `now`.
pub open spec fn is_next_start(t: Seq<KeyframeModel>, now: nat, i: int) -> bool {
    &&& 0 <= i < t.len()
    &&& start_time(t, i) > now
    &&& forall|j: int| 0 <= j < i ==> #[trigger] start_time(t, j) <= now
}

/// Where snapping back from `now` lands: the start of the last keyframe to
/// start before it, else zero.
pub open spec fn previous_stop(t: Seq<KeyframeModel>, now: nat) -> nat {
    if exists|i: int| is_previous_start(t, now, i) {
        start_time(t, choose|i: int| is_previous_start(t, now, i))
    } else {
        0
    }
}

/// Where snapping forward from `now` lands: the start of the first keyframe
/// to start after it, else the start of the last keyframe.
pub open spec fn next_stop(t: Seq<KeyframeModel>, now: nat) -> nat {
    if exists|i: int| is_next_start(t, now, i) {
        start_time(t, choose|i: int| is_next_start(t, now, i))
    } else {
        start_time(t, t.len() - 1)
    }
}

/// Clock and playback after `delta` milliseconds: a looping animation wraps
/// around, another stops at its end, one without duration stops at zero.
pub open spec fn advanced(s: SheetModel, v: ViewModel, playing: bool, delta: u64) -> (u64, bool) {
    if !playing {
        (v.timeline_clock, false)
    } else {
        let c: u64 = if v.timeline_clock + delta > u64::MAX { u64::MAX } else { (v.timeline_clock + delta) as u64 };
        match workbench_animation(v) {
            Some(n) => if s.has_animation(n) {
                let a = s.animation(n);
                let d = timeline_duration(a.timeline);
                if a.timeline.len() > 0 && 0 < d <= u64::MAX {
                    if a.is_looping {
                        (((c as nat) % d) as u64, true)
                    } else if c >= d {
                        (d as u64, false)
                    } else {
                        (c, true)
                    }
                } else {
                    (0, false)
                }
            } else {
                (c, true)
            },
            None => (c, true),
        }
    }
}

impl Document {
    /// Starts or stops playback; starting at or past the end of an animation
    /// that does not loop rewinds to zero.
    pub fn toggle_playback(&mut self) -> (r: Result<(), DocumentError>)
        requires
            old(self).is_coherent(),
        ensures
            toggle_playback_post(*old(self), *final(self), r),
    {
        let ai = self.workbench_animation_index()?;
        let animation = &self.sheet.animations[ai];
        assert(animation@ == self.sheet@.animations[ai as int]);
        let mut clock = self.view.timeline_clock;
        if !self.persistent.timeline_is_playing {
            match animation.get_duration() {
                Some(d) => {
                    if d > 0 && !animation.is_looping && clock >= d {
                        clock = 0;
                    }
                },
                None => {},
            }
        }
        self.persistent.timeline_is_playing = !self.persistent.timeline_is_playing;
        self.view.timeline_clock = clock;
        Ok(())
    }

    /// Flips whether the animation on the workbench loops.
    pub fn toggle_looping(&mut self) -> (r: Result<(), DocumentError>)
        requires
            old(self).is_coherent(),
        ensures
            toggle_looping_post(*old(self), *final(self), r),
    {
        let ai = self.workbench_animation_index()?;
        let looping = self.sheet.animations[ai].is_looping;
        let ghost old_sheet = self.sheet@;
        self.sheet.set_animation_looping(ai, !looping);
        proof {
            assert(old_sheet.animations[ai as int] == old(self).sheet.animations@[ai as int]@);
            assert(forall|n: Seq<char>| old_sheet.has_animation(n) == self.sheet@.has_animation(n));
            let name = workbench_animation(self.view@)->0;
            lemma_animation_position(self.sheet@, name, ai as int);
            assert(self.sheet@.animation(name).timeline == old_sheet.animation(name).timeline);
        }
        Ok(())
    }

    /// Moves the clock to `new_time` and selects the keyframe shown then.
    pub fn update_timeline_scrub(&mut self, new_time: u64) -> (r: Result<(), DocumentError>)
        requires
            old(self).is_coherent(),
        ensures
            update_timeline_scrub_post(*old(self), *final(self), new_time, r),
    {
        let ai = self.workbench_animation_index()?;
        assert(self.sheet.animations@[ai as int]@ == self.sheet@.animations[ai as int]);
        let index = match self.sheet.animations[ai].get_frame_at(new_time) {
            Some(i) => i,
            None => return Err(DocumentError::NoKeyframeForThisTime),
        };
        let selection = MultiSelection { items: vec![index], last_touched_in_range: index };
        assert(selection.keys() =~= seq![index]);
        let result = self.select_keyframes(&selection);
        assert(result.is_ok());
        self.view.timeline_clock = new_time;
        Ok(())
    }

    fn workbench_timeline_stops(&self, ai: usize) -> (r: Option<Vec<u64>>)
        requires
            self.sheet.wf(),
            ai < self.sheet@.animations.len(),
        ensures
            ({
                let t = self.sheet@.animations[ai as int].timeline;
                match r {
                    Some(v) => t.len() > 0 && timeline_duration(t) <= u64::MAX && v@.len() == t.len()
                        && forall|i: int| 0 <= i < t.len() ==> #[trigger] v@[i] as nat == start_time(t, i),
                    None => t.len() == 0 || timeline_duration(t) > u64::MAX,
                }
            }),
    {
        assert(self.sheet.animations@[ai as int]@ == self.sheet@.animations[ai as int]);
        self.sheet.animations[ai].get_frame_times()
    }

    /// Scrubs to the start of the last keyframe that starts before the clock
    /// (see `previous_stop`); nothing happens on an empty timeline or one too
    /// long to time.
    pub fn snap_to_previous_frame(&mut self) -> (r: Result<(), DocumentError>)
        requires
            old(self).is_coherent(),
        ensures
            snap_to_previous_frame_post(*old(self), *final(self), r),
    {
        let ai = self.workbench_animation_index()?;
        let stops = match self.workbench_timeline_stops(ai) {
            Some(v) => v,
            None => return Ok(()),
        };
        let ghost t = self.sheet@.animations[ai as int].timeline;
        let now = self.view.timeline_clock;
        let mut target: u64 = 0;
        let mut i: usize = stops.len();
        let mut found = false;
        while i > 0 && !found
            invariant
                i <= stops@.len(),
                stops@.len() == t.len(),
                forall|x: int| 0 <= x < t.len() ==> #[trigger] stops@[x] as nat == start_time(t, x),
                !found ==> forall|j: int| i <= j < t.len() ==> #[trigger] start_time(t, j) >= now,
                !found ==> target == 0,
                found ==> i > 0 && is_previous_start(t, now as nat, i - 1) && target as nat == start_time(t, i - 1),
            decreases i + (if found { 0int } else { 1int }),
        {
            if stops[i - 1] < now {
                target = stops[i - 1];
                found = true;
            } else {
                i = i - 1;
            }
        }
        proof {
            if found {
                assert(is_previous_start(t, now as nat, i - 1));
                let c = choose|c: int| is_previous_start(t, now as nat, c);
                if c < i - 1 {
                    assert(start_time(t, i - 1) >= now);
                } else if c > i - 1 {
                    assert(start_time(t, c) >= now);
                }
                assert(c == i - 1);
                assert(previous_stop(t, now as nat) == start_time(t, c));
            } else {
                assert(!exists|c: int| is_previous_start(t, now as nat, c));
            }
            assert(target as nat == previous_stop(t, now as nat));
            let name = workbench_animation(self.view@)->0;
            assert(self.sheet@.animation(name).timeline == t);
        }
        self.update_timeline_scrub(target)
    }

    /// Scrubs to the start of the first keyframe that starts after the clock
    /// (see `next_stop`); nothing happens on an empty timeline or one too long
    /// to time.
    pub fn snap_to_next_frame(&mut self) -> (r: Result<(), DocumentError>)
        requires
            old(self).is_coherent(),
        ensures
            snap_to_next_frame_post(*old(self), *final(self), r),
    {
        let ai = self.workbench_animation_index()?;
        let stops = match self.workbench_timeline_stops(ai) {
            Some(v) => v,
            None => return Ok(()),
        };
        let ghost t = self.sheet@.animations[ai as int].timeline;
        let now = self.view.timeline_clock;
        let mut target: u64 = stops[stops.len() - 1];
        let mut i: usize = 0;
        let mut found = false;
        while i < stops.len() && !found
            invariant
                i <= stops@.len(),
                stops@.len() == t.len(),
                t.len() > 0,
                forall|x: int| 0 <= x < t.len() ==> #[trigger] stops@[x] as nat == start_time(t, x),
                forall|j: int| 0 <= j < i ==> #[trigger] start_time(t, j) <= now,
                !found ==> target as nat == start_time(t, t.len() - 1),
                found ==> i < t.len() && is_next_start(t, now as nat, i as int) && target as nat == start_time(t, i as int),
            decreases t.len() - i + (if found { 0int } else { 1int }),
        {
            if stops[i] > now {
                target = stops[i];
                found = true;
            } else {
                i += 1;
            }
        }
        proof {
            if found {
                let c = choose|c: int| is_next_start(t, now as nat, c);
                if c < i {
                    assert(start_time(t, c) <= now);
                } else if c > i {
                    assert(start_time(t, i as int) <= now);
                }
            } else {
                assert(!exists|c: int| is_next_start(t, now as nat, c));
            }
            assert(target as nat == next_stop(t, now as nat));
        }
        self.update_timeline_scrub(target)
    }
}

/// The timeline with the offsets of the keyframes at `keys` nudged.
pub open spec fn offsets_nudged(t: Seq<KeyframeModel>, keys: Seq<usize>, d: Vec2, amplitude: int) -> Seq<KeyframeModel> {
    Seq::new(t.len(), |j: int| if keys.contains(j as usize) {
        KeyframeModel { offset: nudged(t[j].offset, d, amplitude), ..t[j] }
    } else {
        t[j]
    })
}

impl Document {
    /// Moves the selected hitboxes or keyframe offsets by `direction`, ten
    /// times as far when `large`; other selections are left alone.
    pub fn nudge_selection(&mut self, direction: Vec2, large: bool) -> (r: Result<(), DocumentError>)
        requires
            old(self).is_coherent(),
        ensures
            nudge_selection_post(*old(self), *final(self), direction, large, r),
    {
        let amp: i64 = if large { 10 } else { 1 };
        match &self.view.selection {
            Some(Selection::Hitbox(names)) => {
                let names = names.duplicate();
                let fi = self.workbench_frame_index()?;
                assert(self.sheet@.frames[fi as int] == self.sheet.frames@[fi as int]@);
                if !self.sheet.frames[fi].has_hitboxes(&names) {
                    return Err(DocumentError::InvalidHitboxName);
                }
                let frame = &self.sheet.frames[fi];
                let ghost hs = frame@.hitboxes;
                let ghost f = nudged_rect(direction, if large { 10 } else { 1 });
                let mut rects: Vec<Rectangle> = Vec::new();
                let mut i: usize = 0;
                while i < names.items.len()
                    invariant
                        i <= names.items@.len(),
                        hs == frame@.hitboxes,
                        hitbox_names(hs).no_duplicates(),
                        f == nudged_rect(direction, if large { 10 } else { 1 }),
                        forall|x: int| 0 <= x < names.keys().len() ==> hitbox_names(hs).contains(#[trigger] names.keys()[x]),
                        rects@.len() == i,
                        forall|x: int| 0 <= x < i ==> #[trigger] rects@[x] == f(names.keys()[x], rectangle_of(hs[hitbox_position(hs, names.keys()[x])])),
                    decreases names.items.len() - i,
                {
                    let ghost n = names.keys()[i as int];
                    assert(n == names.items@[i as int]@);
                    assert(hitbox_names(hs).contains(n));
                    let k = frame.hitbox_index(&names.items[i]).unwrap();
                    proof {
                        let p = hitbox_position(hs, n);
                        assert(hitbox_names(hs)[p] == hitbox_names(hs)[k as int]);
                        assert(frame.hitboxes@[k as int]@ == hs[k as int]);
                    }
                    let cur = frame.hitboxes[k].get_rectangle();
                    rects.push(Rectangle { top_left: nudge_point(cur.top_left, direction, large), size: cur.size });
                    i += 1;
                }
                self.apply_hitbox_rects(fi, &names, rects, Ghost(f));
                Ok(())
            },
            Some(Selection::Keyframe(keys)) => {
                let sel = keys.duplicate();
                let ai = self.workbench_animation_index()?;
                let n = self.sheet.animations[ai].timeline.len();
                let ghost t = self.sheet@.animations[ai as int].timeline;
                assert(self.sheet@.animations[ai as int] == self.sheet.animations@[ai as int]@);
                if !all_below(&sel, n) {
                    return Err(DocumentError::InvalidKeyframeIndex);
                }
                let ghost nt = offsets_nudged(t, sel.keys(), direction, if large { 10 } else { 1 });
                let timeline = self.sheet.timeline_copy(ai);
                let mut updated: Vec<Keyframe> = Vec::new();
                let mut i: usize = 0;
                while i < sel.items.len()
                    invariant
                        i <= sel.items@.len(),
                        n == t.len(),
                        timeline_view(timeline@) == t,
                        forall|x: int| 0 <= x < sel.keys().len() ==> #[trigger] sel.keys()[x] < t.len(),
                        nt == offsets_nudged(t, sel.keys(), direction, if large { 10 } else { 1 }),
                        updated@.len() == i,
                        forall|x: int| 0 <= x < i ==> #[trigger] updated@[x]@ == nt[sel.items@[x] as int],
                    decreases sel.items.len() - i,
                {
                    let k = sel.items[i];
                    assert(sel.keys()[i as int] == k);
                    let mut kf = timeline[k].clone();
                    kf.offset = nudge_point(kf.offset, direction, large);
                    proof {
                        assert(sel.keys().contains(k));
                        assert(t[k as int] == timeline@[k as int]@);
                    }
                    updated.push(kf);
                    i += 1;
                }
                proof {
                    assert forall|x: int| 0 <= x < sel.keys().len() implies #[trigger] updated@[x]@ == nt[sel.keys()[x] as int] by {
                        assert(sel.keys()[x] == sel.items@[x]);
                    }
                    assert forall|j: int| 0 <= j < t.len() && !sel.keys().contains(j as usize) implies #[trigger] nt[j] == t[j] by {}
                    lemma_replaced_keyframes(t, timeline@, sel.keys(), updated@, nt);
                    lemma_keyframes_wf_same_hitboxes(t, nt);
                }
                let keys: Vec<usize> = sel.items;
                assert(keys@ == crate::selection::key_views(keys@)) by {
                    assert(crate::selection::key_views(keys@) =~= keys@);
                }
                let new_timeline = replace_at(timeline, &keys, updated);
                let ghost old_sheet = self.sheet@;
                self.sheet.set_timeline(ai, new_timeline);
                proof {
                    lemma_timeline_replaced_keeps(old_sheet, ai as int, nt, self.view@);
                    lemma_same_names_consistent(old_sheet, self.sheet@, self.view@);
                }
                Ok(())
            },
            _ => Ok(()),
        }
    }

    /// Starts editing export settings: a copy of the sheet's, or empty ones.
    pub fn begin_export_as(&mut self)
        ensures
            begin_export_as_post(*old(self), *final(self)),
    {
        let e = match &self.sheet.export_settings {
            Some(e) => e.clone(),
            None => ExportSettings::new(),
        };
        self.persistent.export_settings_edit = Some(e);
    }

    /// Drops the export settings being edited.
    pub fn cancel_export_as(&mut self)
        ensures
            cancel_export_as_post(*old(self), *final(self)),
    {
        self.persistent.export_settings_edit = None;
    }

    /// Replaces one field of the export settings being edited.
    fn edit_export_settings(&mut self, field: u8, value: String, format: Option<ExportFormat>) -> (r: Result<(), DocumentError>)
        ensures
            edit_export_settings_post(*old(self), *final(self), field, value, format, r),
    {
        match &mut self.persistent.export_settings_edit {
            Some(e) => {
                match format {
                    Some(f) => {
                        e.format = f;
                    },
                    None => {
                        if field == 0 {
                            e.texture_destination = value;
                        } else if field == 1 {
                            e.metadata_destination = value;
                        } else {
                            e.metadata_paths_root = value;
                        }
                    },
                }
                Ok(())
            },
            None => Err(DocumentError::NotExporting),
        }
    }

    /// Stores the edited export settings in the sheet and stops editing them.
    pub fn end_export_as(&mut self) -> (r: Result<(), DocumentError>)
        requires
            old(self).is_coherent(),
        ensures
            end_export_as_post(*old(self), *final(self), r),
    {
        match &self.persistent.export_settings_edit {
            Some(e) => {
                let e = e.clone();
                let ghost old_sheet = self.sheet@;
                self.sheet.set_export_settings(e);
                proof {
                    assert(frame_sources(self.sheet@.frames) == frame_sources(old_sheet.frames));
                    lemma_same_names_consistent(old_sheet, self.sheet@, self.view@);
                }
                self.persistent.export_settings_edit = None;
                Ok(())
            },
            None => Err(DocumentError::NotExporting),
        }
    }

    /// Asks to close: allowed at once when saved, else requested.
    pub fn begin_close(&mut self)
        requires
            old(self).wf(),
        ensures
            begin_close_post(*old(self), *final(self)),
    {
        if self.persistent.close_state.is_none() {
            let saved = self.is_saved();
            self.persistent.close_state = Some(if saved { CloseState::Allowed } else { CloseState::Requested });
        }
    }

    /// Withdraws a request to close.
    pub fn cancel_close(&mut self)
        ensures
            cancel_close_post(*old(self), *final(self)),
    {
        self.persistent.close_state = None;
    }

    /// Advances playback by `delta` milliseconds (see `advanced`), then lets a
    /// close that waited for saving go ahead once the document is saved.
    pub fn tick(&mut self, delta: u64)
        requires
            old(self).wf(),
        ensures
            final(self).wf(),
            final(self).sheet == old(self).sheet,
            final(self).history == old(self).history,
            final(self).source == old(self).source,
            final(self).transient == old(self).transient,
            final(self).persistent.export_settings_edit == old(self).persistent.export_settings_edit,
            final(self).persistent.disk_version == old(self).persistent.disk_version,
            ({
                let (clock, playing) = advanced(old(self).sheet@, old(self).view@, old(self).persistent.timeline_is_playing, delta);
                &&& final(self).view@ == (ViewModel { timeline_clock: clock, ..old(self).view@ })
                &&& final(self).persistent.timeline_is_playing == playing
            }),
            final(self).persistent.close_state == (if old(self).persistent.close_state == Some(CloseState::Saving) && old(self).is_saved_spec() {
                Some(CloseState::Allowed)
            } else {
                old(self).persistent.close_state
            }),
    {
        if self.persistent.timeline_is_playing {
            let c = if self.view.timeline_clock > u64::MAX - delta { u64::MAX } else { self.view.timeline_clock + delta };
            self.view.timeline_clock = c;
            match &self.view.workbench_item {
                Some(WorkbenchItem::Animation(name)) => {
                    match self.sheet.get_animation(name) {
                        Some(animation) => {
                            match animation.get_duration() {
                                Some(d) => {
                                    if d > 0 {
                                        if animation.is_looping {
                                            self.view.timeline_clock = c % d;
                                        } else if c >= d {
                                            self.persistent.timeline_is_playing = false;
                                            self.view.timeline_clock = d;
                                        }
                                    } else {
                                        self.persistent.timeline_is_playing = false;
                                        self.view.timeline_clock = 0;
                                    }
                                },
                                None => {
                                    self.persistent.timeline_is_playing = false;
                                    self.view.timeline_clock = 0;
                                },
                            }
                        },
                        None => {},
                    }
                },
                _ => {},
            }
        }
        if self.persistent.close_state == Some(CloseState::Saving) {
            if self.is_saved() {
                self.persistent.close_state = Some(CloseState::Allowed);
            }
        }
    }
}

/// `n` is `sel` with each key once: same keys as a set, same anchor, and the
/// same list where `sel` repeats none.
pub open spec fn normalizes<K: SelectionKey>(sel: MultiSelection<K>, n: MultiSelection<K>) -> bool {
    &&& n.wf()
    &&& n.last() == sel.last()
    &&& forall|k: K::V| n.contains(k) <==> sel.contains(k)
    &&& sel.wf() ==> n.keys() == sel.keys()
}

/// Only the view changed, to the view model `v`.
pub open spec fn view_became(old: Document, new: Document, v: ViewModel) -> bool {
    &&& new.view@ == v
    &&& new.sheet == old.sheet
    &&& new.transient == old.transient
    &&& new.persistent == old.persistent
    &&& new.history == old.history
    &&& new.source == old.source
}

/// What running the handler of command `c` does, going from `old` to `new`
/// with result `r`: when it succeeds, on which error it fails, and what it
/// makes of the sheet, the view, the interaction and the untracked state.
/// The commands that cannot fail have `r.is_ok()`.
pub open spec fn handled(old: Document, c: DocumentCommand, new: Document, r: Result<(), DocumentError>) -> bool {
    match c {
        DocumentCommand::MarkAsSaved(v) => r.is_ok() && new == (Document {
            persistent: Persistent { disk_version: v, ..old.persistent },
            ..old
        }),
        DocumentCommand::EndImport(p) => r.is_ok() && new.view == old.view && new.transient == old.transient
            && new.persistent == old.persistent && new.history == old.history && new.source == old.source
            && new.sheet@ == (if old.sheet@.has_frame(p@) {
                old.sheet@
            } else {
                SheetModel { frames: old.sheet@.frames.push(crate::sheet::new_frame_model(p@)), ..old.sheet@ }
            }),
        DocumentCommand::BeginExportAs => r.is_ok() && begin_export_as_post(old, new),
        DocumentCommand::CancelExportAs => r.is_ok() && cancel_export_as_post(old, new),
        DocumentCommand::EndSetExportTextureDestination(d) => edit_export_settings_post(old, new, 0, d, None, r),
        DocumentCommand::EndSetExportMetadataDestination(d) => edit_export_settings_post(old, new, 1, d, None, r),
        DocumentCommand::EndSetExportMetadataPathsRoot(d) => edit_export_settings_post(old, new, 2, d, None, r),
        DocumentCommand::EndSetExportFormat(f) => exists|v: String, g: ExportFormat|
            g@ == f@ && #[trigger] edit_export_settings_post(old, new, 0, v, Some(g), r),
        DocumentCommand::EndExportAs => end_export_as_post(old, new, r),
        DocumentCommand::SwitchToContentTab(t) => r.is_ok() && view_became(old, new, ViewModel { content_tab: t, ..old.view@ }),
        DocumentCommand::ClearSelection => r.is_ok() && clear_selection_post(old, new),
        DocumentCommand::SelectFrames(sel) => exists|n: MultiSelection<String>|
            normalizes(sel, n) && #[trigger] select_frames_post(old, new, n, r),
        DocumentCommand::SelectAnimations(sel) => exists|n: MultiSelection<String>|
            normalizes(sel, n) && #[trigger] select_animations_post(old, new, n, r),
        DocumentCommand::SelectHitboxes(sel) => exists|n: MultiSelection<String>|
            normalizes(sel, n) && #[trigger] select_hitboxes_post(old, new, n, r),
        DocumentCommand::SelectKeyframes(sel) => exists|n: MultiSelection<usize>|
            normalizes(sel, n) && #[trigger] select_keyframes_post(old, new, n, r),
        DocumentCommand::EditFrame(p) => edit_frame_post(old, new, p, r),
        DocumentCommand::EditAnimation(n) => edit_animation_post(old, new, n, r),
        DocumentCommand::CreateAnimation => create_animation_post(old, new, r),
        DocumentCommand::DeleteFrame(p) => delete_frame_post(old, new, p, r),
        DocumentCommand::BeginFramesDrag => r.is_ok() && new == (Document {
            transient: Some(Transient::ContentFramesDrag),
            ..old
        }),
        DocumentCommand::InsertKeyframesBefore(paths, i) => insert_keyframes_before_post(old, new, paths, i, r),
        DocumentCommand::ReorderKeyframes(i) => reorder_keyframes_post(old, new, i, r),
        DocumentCommand::BeginKeyframeDurationDrag(clock, i) => begin_keyframe_duration_drag_post(old, new, i, clock, r),
        DocumentCommand::UpdateKeyframeDurationDrag(clock, minimum) => update_keyframe_duration_drag_post(old, new, clock, minimum, r),
        DocumentCommand::BeginKeyframeDrag => r.is_ok() && begin_keyframe_drag_post(old, new),
        DocumentCommand::BeginKeyframeOffsetDrag => begin_keyframe_offset_drag_post(old, new, r),
        DocumentCommand::UpdateKeyframeOffsetDrag(d, both) => update_keyframe_offset_drag_post(old, new, d, both, r),
        DocumentCommand::WorkbenchZoomIn => r.is_ok() && view_became(old, new, ViewModel {
            workbench_zoom_level: zoomed_in(old.view.workbench_zoom_level as int, WORKBENCH_ZOOM_MAX as int) as i32,
            ..old.view@
        }),
        DocumentCommand::WorkbenchZoomOut => r.is_ok() && view_became(old, new, ViewModel {
            workbench_zoom_level: zoomed_out(old.view.workbench_zoom_level as int, WORKBENCH_ZOOM_MIN as int) as i32,
            ..old.view@
        }),
        DocumentCommand::WorkbenchResetZoom => r.is_ok() && view_became(old, new, ViewModel { workbench_zoom_level: 1, ..old.view@ }),
        DocumentCommand::WorkbenchCenter => r.is_ok() && view_became(old, new, ViewModel {
            workbench_offset: Vec2 { x: 0, y: 0 },
            ..old.view@
        }),
        DocumentCommand::Pan(d) => r.is_ok() && view_became(old, new, ViewModel {
            workbench_offset: Vec2 {
                x: saturated(old.view.workbench_offset.x + d.x),
                y: saturated(old.view.workbench_offset.y + d.y),
            },
            ..old.view@
        }),
        DocumentCommand::CreateHitbox(p) => create_hitbox_post(old, new, p, r),
        DocumentCommand::BeginHitboxScale(axis) => begin_hitbox_scale_post(old, new, axis, r),
        DocumentCommand::UpdateHitboxScale(d, keep) => update_hitbox_scale_post(old, new, d, keep, r),
        DocumentCommand::BeginHitboxDrag => begin_hitbox_drag_post(old, new, r),
        DocumentCommand::UpdateHitboxDrag(d, both) => update_hitbox_drag_post(old, new, d, both, r),
        DocumentCommand::TogglePlayback => toggle_playback_post(old, new, r),
        DocumentCommand::SnapToPreviousFrame => snap_to_previous_frame_post(old, new, r),
        DocumentCommand::SnapToNextFrame => snap_to_next_frame_post(old, new, r),
        DocumentCommand::ToggleLooping => toggle_looping_post(old, new, r),
        DocumentCommand::TimelineZoomIn => r.is_ok() && view_became(old, new, ViewModel {
            timeline_zoom_level: zoomed_in(old.view.timeline_zoom_level as int, TIMELINE_ZOOM_MAX as int) as i32,
            ..old.view@
        }),
        DocumentCommand::TimelineZoomOut => r.is_ok() && view_became(old, new, ViewModel {
            timeline_zoom_level: zoomed_out(old.view.timeline_zoom_level as int, TIMELINE_ZOOM_MIN as int) as i32,
            ..old.view@
        }),
        DocumentCommand::TimelineResetZoom => r.is_ok() && view_became(old, new, ViewModel { timeline_zoom_level: 1, ..old.view@ }),
        DocumentCommand::BeginScrub => r.is_ok() && new == (Document { transient: Some(Transient::TimelineScrub), ..old }),
        DocumentCommand::UpdateScrub(t) => update_timeline_scrub_post(old, new, t, r),
        DocumentCommand::NudgeSelection(d, large) => nudge_selection_post(old, new, d, large, r),
        DocumentCommand::DeleteSelection => delete_selection_post(old, new, r),
        DocumentCommand::BeginRenameSelection => r.is_ok() && begin_rename_selection_post(old, new),
        DocumentCommand::UpdateRenameSelection(n) => r.is_ok() && new.sheet == old.sheet && new.view == old.view
            && new.persistent == old.persistent && new.history == old.history && new.source == old.source
            && (new.transient matches Some(Transient::Rename(m)) && m@ == n@),
        DocumentCommand::EndRenameSelection => end_rename_selection_post(old, new, r),
        DocumentCommand::Close => r.is_ok() && begin_close_post(old, new),
        DocumentCommand::CloseAfterSaving => r.is_ok() && new == (Document {
            persistent: Persistent { close_state: Some(CloseState::Saving), ..old.persistent },
            ..old
        }),
        DocumentCommand::CloseWithoutSaving => r.is_ok() && new == (Document {
            persistent: Persistent { close_state: Some(CloseState::Allowed), ..old.persistent },
            ..old
        }),
        DocumentCommand::CancelClose => r.is_ok() && cancel_close_post(old, new),
        DocumentCommand::EndFramesDrag
        | DocumentCommand::EndKeyframeDurationDrag
        | DocumentCommand::EndKeyframeDrag
        | DocumentCommand::EndKeyframeOffsetDrag
        | DocumentCommand::EndHitboxScale
        | DocumentCommand::EndHitboxDrag
        | DocumentCommand::EndScrub => r.is_ok() && new == old,
    }
}

impl Document {
    /// Runs the handler of `command` (see `handled`). On failure nothing changes.
    fn apply_command(&mut self, command: &DocumentCommand) -> (r: Result<(), DocumentError>)
        requires
            old(self).wf(),
        ensures
            final(self).is_coherent(),
            final(self).history == old(self).history,
            final(self).source == old(self).source,
            r.is_err() ==> *final(self) == *old(self),
            handled(*old(self), *command, *final(self), r),
    {
        match command {
            DocumentCommand::MarkAsSaved(v) => {
                self.persistent.disk_version = *v;
                Ok(())
            },
            DocumentCommand::EndImport(path) => {
                let ghost old_sheet = self.sheet@;
                self.sheet.add_frame(path);
                proof {
                    assert forall|p: Seq<char>| old_sheet.has_frame(p) implies self.sheet@.has_frame(p) by {
                        if !old_sheet.has_frame(path@) {
                            let j = choose|j: int| 0 <= j < frame_sources(old_sheet.frames).len() && frame_sources(old_sheet.frames)[j] == p;
                            assert(frame_sources(self.sheet@.frames)[j] == p);
                        }
                    }
                    assert forall|q: Seq<char>| old_sheet.has_frame(q) implies self.sheet@.has_frame(q) && self.sheet@.frame(q) == old_sheet.frame(q) by {
                        let pa = old_sheet.frame_position(q);
                        assert(old_sheet.frames[pa].source == q);
                        assert(self.sheet@.frames[pa] == old_sheet.frames[pa]);
                        lemma_frame_position(self.sheet@, q, pa);
                    }
                    assert(self.sheet@.animations == old_sheet.animations);
                    lemma_same_names_consistent(old_sheet, self.sheet@, self.view@);
                }
                Ok(())
            },
            DocumentCommand::BeginExportAs => {
                self.begin_export_as();
                Ok(())
            },
            DocumentCommand::CancelExportAs => {
                self.cancel_export_as();
                Ok(())
            },
            DocumentCommand::EndSetExportTextureDestination(d) => self.edit_export_settings(0, d.clone(), None),
            DocumentCommand::EndSetExportMetadataDestination(d) => self.edit_export_settings(1, d.clone(), None),
            DocumentCommand::EndSetExportMetadataPathsRoot(d) => self.edit_export_settings(2, d.clone(), None),
            DocumentCommand::EndSetExportFormat(f) => {
                let v = String::new();
                let g = f.clone();
                let ghost gv = v;
                let ghost gg = g;
                let r = self.edit_export_settings(0, v, Some(g));
                assert(edit_export_settings_post(*old(self), *self, 0, gv, Some(gg), r));
                r
            },
            DocumentCommand::EndExportAs => self.end_export_as(),
            DocumentCommand::SwitchToContentTab(t) => {
                self.view.content_tab = *t;
                Ok(())
            },
            DocumentCommand::ClearSelection => {
                self.clear_selection();
                Ok(())
            },
            DocumentCommand::SelectFrames(sel) => {
                let n = sel.normalized();
                let r = self.select_frames(&n);
                assert(normalizes(*sel, n) && select_frames_post(*old(self), *self, n, r));
                r
            },
            DocumentCommand::SelectAnimations(sel) => {
                let n = sel.normalized();
                let r = self.select_animations(&n);
                assert(normalizes(*sel, n) && select_animations_post(*old(self), *self, n, r));
                r
            },
            DocumentCommand::SelectHitboxes(sel) => {
                let n = sel.normalized();
                let r = self.select_hitboxes(&n);
                assert(normalizes(*sel, n) && select_hitboxes_post(*old(self), *self, n, r));
                r
            },
            DocumentCommand::SelectKeyframes(sel) => {
                let n = sel.normalized();
                let r = self.select_keyframes(&n);
                assert(normalizes(*sel, n) && select_keyframes_post(*old(self), *self, n, r));
                r
            },
            DocumentCommand::EditFrame(p) => self.edit_frame(p),
            DocumentCommand::EditAnimation(n) => self.edit_animation(n),
            DocumentCommand::CreateAnimation => self.create_animation(),
            DocumentCommand::DeleteFrame(p) => self.delete_frame(p),
            DocumentCommand::BeginFramesDrag => {
                self.transient = Some(Transient::ContentFramesDrag);
                Ok(())
            },
            DocumentCommand::InsertKeyframesBefore(paths, i) => self.insert_keyframes_before(paths, *i),
            DocumentCommand::ReorderKeyframes(i) => self.reorder_keyframes(*i),
            DocumentCommand::BeginKeyframeDurationDrag(clock, i) => self.begin_keyframe_duration_drag(*i, *clock),
            DocumentCommand::UpdateKeyframeDurationDrag(clock, minimum) => self.update_keyframe_duration_drag(*clock, *minimum),
            DocumentCommand::BeginKeyframeDrag => {
                self.begin_keyframe_drag();
                Ok(())
            },
            DocumentCommand::BeginKeyframeOffsetDrag => self.begin_keyframe_offset_drag(),
            DocumentCommand::UpdateKeyframeOffsetDrag(d, both) => self.update_keyframe_offset_drag(*d, *both),
            DocumentCommand::WorkbenchZoomIn => {
                self.view.workbench_zoom_in();
                Ok(())
            },
            DocumentCommand::WorkbenchZoomOut => {
                self.view.workbench_zoom_out();
                Ok(())
            },
            DocumentCommand::WorkbenchResetZoom => {
                self.view.workbench_reset_zoom();
                Ok(())
            },
            DocumentCommand::WorkbenchCenter => {
                self.view.workbench_center();
                Ok(())
            },
            DocumentCommand::Pan(d) => {
                self.view.pan(*d);
                Ok(())
            },
            DocumentCommand::CreateHitbox(p) => self.create_hitbox(*p),
            DocumentCommand::BeginHitboxScale(axis) => self.begin_hitbox_scale(*axis),
            DocumentCommand::UpdateHitboxScale(d, keep) => self.update_hitbox_scale(*d, *keep),
            DocumentCommand::BeginHitboxDrag => self.begin_hitbox_drag(),
            DocumentCommand::UpdateHitboxDrag(d, both) => self.update_hitbox_drag(*d, *both),
            DocumentCommand::TogglePlayback => self.toggle_playback(),
            DocumentCommand::SnapToPreviousFrame => self.snap_to_previous_frame(),
            DocumentCommand::SnapToNextFrame => self.snap_to_next_frame(),
            DocumentCommand::ToggleLooping => self.toggle_looping(),
            DocumentCommand::TimelineZoomIn => {
                self.view.timeline_zoom_in();
                Ok(())
            },
            DocumentCommand::TimelineZoomOut => {
                self.view.timeline_zoom_out();
                Ok(())
            },
            DocumentCommand::TimelineResetZoom => {
                self.view.timeline_reset_zoom();
                Ok(())
            },
            DocumentCommand::BeginScrub => {
                self.transient = Some(Transient::TimelineScrub);
                Ok(())
            },
            DocumentCommand::UpdateScrub(t) => self.update_timeline_scrub(*t),
            DocumentCommand::NudgeSelection(d, large) => self.nudge_selection(*d, *large),
            DocumentCommand::DeleteSelection => self.delete_selection(),
            DocumentCommand::BeginRenameSelection => {
                self.begin_rename_selection();
                Ok(())
            },
            DocumentCommand::UpdateRenameSelection(n) => {
                self.transient = Some(Transient::Rename(n.clone()));
                Ok(())
            },
            DocumentCommand::EndRenameSelection => self.end_rename_selection(),
            DocumentCommand::Close => {
                self.begin_close();
                Ok(())
            },
            DocumentCommand::CloseAfterSaving => {
                self.persistent.close_state = Some(CloseState::Saving);
                Ok(())
            },
            DocumentCommand::CloseWithoutSaving => {
                self.persistent.close_state = Some(CloseState::Allowed);
                Ok(())
            },
            DocumentCommand::CancelClose => {
                self.cancel_close();
                Ok(())
            },
            DocumentCommand::EndFramesDrag
            | DocumentCommand::EndKeyframeDurationDrag
            | DocumentCommand::EndKeyframeDrag
            | DocumentCommand::EndKeyframeOffsetDrag
            | DocumentCommand::EndHitboxScale
            | DocumentCommand::EndHitboxDrag
            | DocumentCommand::EndScrub => Ok(()),
        }
    }

    /// Applies `command`: runs its handler, ends the interaction in progress
    /// unless the command keeps it, then records the result in the history
    /// (see `HistoryModel::recorded`) when no interaction is in progress. A
    /// command that fails changes nothing.
    pub fn process_command(&mut self, command: DocumentCommand) -> (r: Result<(), DocumentError>)
        requires
            old(self).wf(),
        ensures
            final(self).wf(),
            final(self).source == old(self).source,
            r.is_err() ==> *final(self) == *old(self),
            r.is_ok() && !keeps_transient(command) ==> final(self).transient is None,
            exists|mid: Document| #[trigger] handled(*old(self), command, mid, r) && final(self).sheet == mid.sheet
                && final(self).view == mid.view && final(self).persistent == mid.persistent
                && (keeps_transient(command) ==> final(self).transient == mid.transient),
            r.is_ok() && final(self).transient is None && old(self).history_model().records_new_entry(
                final(self).sheet@,
                final(self).view@,
            ) ==> final(self).history_commands()[final(self).history_model().index] == Some(command),
            r.is_ok() ==> final(self).history_model() == (if final(self).transient is None {
                old(self).history_model().recorded(final(self).sheet@, final(self).view@)
            } else {
                old(self).history_model()
            }),
    {
        let result = self.apply_command(&command);
        let ghost mid = *self;
        if result.is_err() {
            assert(handled(*old(self), command, mid, result));
            return result;
        }
        if !command.is_transient_command() {
            self.transient = None;
        }
        let ghost c = command;
        let ghost keeps = keeps_transient(command);
        self.record_command(command);
        assert(self.transient is None && old(self).history_model().records_new_entry(self.sheet@, self.view@)
            ==> self.history_commands()[self.history_model().index] == Some(c));
        assert(handled(*old(self), c, mid, result));
        assert(self.sheet == mid.sheet && self.view == mid.view && self.persistent == mid.persistent);
        assert(keeps ==> self.transient == mid.transient);
        result
    }
}

impl Document {
    pub fn is_dragging_content_frames(&self) -> (r: bool)
        ensures
            r == (self.transient matches Some(Transient::ContentFramesDrag)),
    {
        matches!(self.transient, Some(Transient::ContentFramesDrag))
    }

    pub fn is_dragging_timeline_frames(&self) -> (r: bool)
        ensures
            r == (self.transient matches Some(Transient::TimelineFrameDrag)),
    {
        matches!(self.transient, Some(Transient::TimelineFrameDrag))
    }

    pub fn is_positioning_hitbox(&self) -> (r: bool)
        ensures
            r == (self.transient matches Some(Transient::HitboxPosition(_))),
    {
        matches!(self.transient, Some(Transient::HitboxPosition(_)))
    }

    pub fn is_sizing_hitbox(&self) -> (r: bool)
        ensures
            r == (self.transient matches Some(Transient::HitboxSize(_, _))),
    {
        matches!(self.transient, Some(Transient::HitboxSize(_, _)))
    }

    pub fn is_scrubbing_timeline(&self) -> (r: bool)
        ensures
            r == (self.transient matches Some(Transient::TimelineScrub)),
    {
        matches!(self.transient, Some(Transient::TimelineScrub))
    }

    pub fn is_adjusting_frame_duration(&self) -> (r: bool)
        ensures
            r == (self.transient matches Some(Transient::KeyframeDuration(_))),
    {
        matches!(self.transient, Some(Transient::KeyframeDuration(_)))
    }

    pub fn is_moving_keyframe(&self) -> (r: bool)
        ensures
            r == (self.transient matches Some(Transient::KeyframePosition(_))),
    {
        matches!(self.transient, Some(Transient::KeyframePosition(_)))
    }

    /// Whether frame `path` is in the frame selection.
    pub fn is_frame_selected(&self, path: &String) -> (r: bool)
        ensures
            r == (self.view@.selection matches Some(SelectionModel::Frame(keys, _)) && keys.contains(path@)),
    {
        match &self.view.selection {
            Some(Selection::Frame(s)) => s.is_selected(path),
            _ => false,
        }
    }

    /// Whether animation `name` is in the animation selection.
    pub fn is_animation_selected(&self, name: &String) -> (r: bool)
        ensures
            r == (self.view@.selection matches Some(SelectionModel::Animation(keys, _)) && keys.contains(name@)),
    {
        match &self.view.selection {
            Some(Selection::Animation(s)) => s.is_selected(name),
            _ => false,
        }
    }

    /// Whether hitbox `name` is in the hitbox selection.
    pub fn is_hitbox_selected(&self, name: &String) -> (r: bool)
        ensures
            r == (self.view@.selection matches Some(SelectionModel::Hitbox(keys, _)) && keys.contains(name@)),
    {
        match &self.view.selection {
            Some(Selection::Hitbox(s)) => s.is_selected(name),
            _ => false,
        }
    }

    /// Whether keyframe `index` is in the keyframe selection.
    pub fn is_keyframe_selected(&self, index: usize) -> (r: bool)
        ensures
            r == (self.view@.selection matches Some(SelectionModel::Keyframe(keys, _)) && keys.contains(index)),
    {
        match &self.view.selection {
            Some(Selection::Keyframe(s)) => s.is_selected(&index),
            _ => false,
        }
    }

    /// Starts dragging keyframes along the timeline.
    pub fn begin_keyframe_drag(&mut self)
        ensures
            begin_keyframe_drag_post(*old(self), *final(self)),
    {
        self.transient = Some(Transient::TimelineFrameDrag);
    }
}

/// A command that changes the content, applied with no interaction in
/// progress, is undone exactly: undo brings back the sheet from before it and
/// the view recorded with that sheet. The requirements are what
/// `process_command` and `undo` ensure.
pub proof fn lemma_undo_after_change(before: Document, after: Document, undone: Document)
    requires
        before.wf(),
        before.transient is None,
        after.transient is None,
        after.sheet@ != before.sheet@,
        after.history_model() == before.history_model().recorded(after.sheet@, after.view@),
        undone.history_model() == after.history_model().undone(),
        after.history_model().index > 0 ==> undone.sheet@ == undone.history_model().current().sheet
            && undone.view@ == undone.history_model().current().view,
    ensures
        undone.sheet@ == before.sheet@,
        undone.view@ == before.history_model().current().view,
{
    before.history.lemma_model_wf();
    crate::history::lemma_undo_restores(before.history_model(), after.sheet@, after.view@);
    crate::history::lemma_redo_after_undo(before.history_model(), after.sheet@, after.view@);
}

/// Redo after that undo brings back the document as the command left it:
/// its sheet, its view and its history.
pub proof fn lemma_redo_after_undo_of_change(before: Document, after: Document, undone: Document, redone: Document)
    requires
        before.wf(),
        before.transient is None,
        after.transient is None,
        after.sheet@ != before.sheet@,
        after.history_model() == before.history_model().recorded(after.sheet@, after.view@),
        undone.history_model() == after.history_model().undone(),
        redone.history_model() == undone.history_model().redone(),
        undone.history_model().index + 1 < undone.history_model().entries.len() ==> redone.sheet@
            == redone.history_model().current().sheet && redone.view@ == redone.history_model().current().view,
    ensures
        redone.history_model() == after.history_model(),
        redone.sheet@ == after.sheet@,
        redone.view@ == after.view@,
{
    before.history.lemma_model_wf();
    crate::history::lemma_redo_after_undo(before.history_model(), after.sheet@, after.view@);
}

/// What `Document::clear_selection` ensures, from the document before to the one after.
pub open spec fn clear_selection_post(old: Document, new: Document) -> bool {
    &&& new.view@ == (ViewModel { selection: None, ..old.view@ })
    &&& new.view.wf()
    &&& view_consistent(new.sheet@, new.view@)
    &&& new.sheet == old.sheet
    &&& new.transient == old.transient
    &&& new.persistent == old.persistent
    &&& new.history == old.history
    &&& new.source == old.source
}

/// What `Document::select_frames` ensures, from the document before to the one after.
pub open spec fn select_frames_post(old: Document, new: Document, paths: MultiSelection<String>, r: Result<(), DocumentError>) -> bool {
    &&& r.is_ok() <==> (forall|i: int| 0 <= i < paths.keys().len() ==> old.sheet@.has_frame(#[trigger] paths.keys()[i]))
    &&& r.is_err() ==> r == Err::<(), DocumentError>(DocumentError::FrameNotInDocument)
            && new == old
    &&& r.is_ok() ==> new.view@ == (ViewModel {
            selection: frames_selection(paths.keys(), paths.last()),
            ..old.view@
        })
    &&& new.view.wf()
    &&& view_consistent(new.sheet@, new.view@)
    &&& new.sheet == old.sheet
    &&& new.transient == old.transient
    &&& new.persistent == old.persistent
    &&& new.history == old.history
    &&& new.source == old.source
}

/// What `Document::select_animations` ensures, from the document before to the one after.
pub open spec fn select_animations_post(old: Document, new: Document, names: MultiSelection<String>, r: Result<(), DocumentError>) -> bool {
    &&& r.is_ok() <==> (forall|i: int| 0 <= i < names.keys().len() ==> old.sheet@.has_animation(#[trigger] names.keys()[i]))
    &&& r.is_err() ==> r == Err::<(), DocumentError>(DocumentError::AnimationNotInDocument)
            && new == old
    &&& r.is_ok() ==> new.view@ == (ViewModel {
            selection: animations_selection(names.keys(), names.last()),
            ..old.view@
        })
    &&& new.view.wf()
    &&& view_consistent(new.sheet@, new.view@)
    &&& new.sheet == old.sheet
    &&& new.transient == old.transient
    &&& new.persistent == old.persistent
    &&& new.history == old.history
    &&& new.source == old.source
}

/// What `Document::select_hitboxes` ensures, from the document before to the one after.
pub open spec fn select_hitboxes_post(old: Document, new: Document, names: MultiSelection<String>, r: Result<(), DocumentError>) -> bool {
    &&& workbench_frame(old.view@) is None ==> r == Err::<(), DocumentError>(
            DocumentError::NotEditingAnyFrame,
        )
    &&& r.is_ok() <==> workbench_frame(old.view@) is Some && old.sheet@.has_frame(
            workbench_frame(old.view@)->0,
        ) && (forall|i: int| 0 <= i < names.keys().len() ==> hitbox_names(old.sheet@.frame(workbench_frame(old.view@)->0).hitboxes).contains(#[trigger] names.keys()[i]))
    &&& r.is_err() ==> new == old
    &&& r.is_ok() ==> new.view@ == (ViewModel {
            selection: hitboxes_selection(names.keys(), names.last()),
            ..old.view@
        })
    &&& new.view.wf()
    &&& view_consistent(new.sheet@, new.view@)
    &&& new.sheet == old.sheet
    &&& new.transient == old.transient
    &&& new.persistent == old.persistent
    &&& new.history == old.history
    &&& new.source == old.source
}

/// What `Document::select_keyframes` ensures, from the document before to the one after.
pub open spec fn select_keyframes_post(old: Document, new: Document, indexes: MultiSelection<usize>, r: Result<(), DocumentError>) -> bool {
    &&& indexes.keys().len() == 0 ==> r.is_ok() && new.view@ == (ViewModel {
            selection: None,
            ..old.view@
        })
    &&& indexes.keys().len() > 0 && workbench_animation(old.view@) is None ==> r
            == Err::<(), DocumentError>(DocumentError::NotEditingAnyAnimation)
    &&& indexes.keys().len() > 0 && workbench_animation(old.view@) is Some ==> ({
            let t = old.sheet@.animation(workbench_animation(old.view@)->0).timeline;
            let k = indexes.last() as int;
            let valid = (forall|i: int| 0 <= i < indexes.keys().len() ==> #[trigger] indexes.keys()[i] < t.len())
                && k < t.len();
            &&& r.is_ok() <==> valid
            &&& r.is_err() ==> r == Err::<(), DocumentError>(DocumentError::InvalidKeyframeIndex)
            &&& r.is_ok() ==> new.view@ == (ViewModel {
                selection: Some(SelectionModel::Keyframe(indexes.keys(), indexes.last())),
                timeline_clock: snapped_clock(
                    old.view.timeline_clock,
                    old.persistent.timeline_is_playing,
                    t,
                    k,
                ),
                ..old.view@
            })
        })
    &&& r.is_err() ==> new == old
    &&& new.view.wf()
    &&& view_consistent(new.sheet@, new.view@)
    &&& new.sheet == old.sheet
    &&& new.transient == old.transient
    &&& new.persistent == old.persistent
    &&& new.history == old.history
    &&& new.source == old.source
}

/// What `Document::edit_frame` ensures, from the document before to the one after.
pub open spec fn edit_frame_post(old: Document, new: Document, path: String, r: Result<(), DocumentError>) -> bool {
    &&& r.is_ok() <==> old.sheet@.has_frame(path@)
    &&& r.is_err() ==> r == Err::<(), DocumentError>(DocumentError::FrameNotInDocument)
            && new == old
    &&& r.is_ok() ==> new.view@ == (ViewModel {
            workbench_item: Some(WorkbenchItemModel::Frame(path@)),
            workbench_offset: Vec2 { x: 0, y: 0 },
            selection: selection_kept_on_edit(old.view@.selection),
            ..old.view@
        })
    &&& new.view.wf()
    &&& view_consistent(new.sheet@, new.view@)
    &&& new.sheet == old.sheet
    &&& new.transient == old.transient
    &&& new.persistent == old.persistent
    &&& new.history == old.history
    &&& new.source == old.source
}

/// What `Document::edit_animation` ensures, from the document before to the one after.
pub open spec fn edit_animation_post(old: Document, new: Document, name: String, r: Result<(), DocumentError>) -> bool {
    &&& r.is_ok() <==> old.sheet@.has_animation(name@)
    &&& r.is_err() ==> r == Err::<(), DocumentError>(DocumentError::AnimationNotInDocument)
            && new == old
    &&& r.is_ok() ==> new.view@ == (ViewModel {
            workbench_item: Some(WorkbenchItemModel::Animation(name@)),
            workbench_offset: Vec2 { x: 0, y: 0 },
            timeline_clock: 0,
            selection: selection_kept_on_edit(old.view@.selection),
            ..old.view@
        }) && !new.persistent.timeline_is_playing
            && new.persistent.export_settings_edit == old.persistent.export_settings_edit
            && new.persistent.close_state == old.persistent.close_state
            && new.persistent.disk_version == old.persistent.disk_version
    &&& new.view.wf()
    &&& view_consistent(new.sheet@, new.view@)
    &&& new.sheet == old.sheet
    &&& new.transient == old.transient
    &&& new.history == old.history
    &&& new.source == old.source
}

/// What `Document::create_animation` ensures, from the document before to the one after.
pub open spec fn create_animation_post(old: Document, new: Document, r: Result<(), DocumentError>) -> bool {
    &&& r.is_ok()
    &&& new.is_coherent()
    &&& ({
            let name = first_free_name("New Animation"@, animation_names(old.sheet@.animations));
            &&& new.sheet@ == (SheetModel {
                animations: old.sheet@.animations.push(new_animation_model(name)),
                ..old.sheet@
            })
            &&& new.view@ == (ViewModel {
                selection: Some(SelectionModel::Animation(seq![name], name)),
                workbench_item: Some(WorkbenchItemModel::Animation(name)),
                workbench_offset: Vec2 { x: 0, y: 0 },
                timeline_clock: 0,
                ..old.view@
            })
            &&& new.transient matches Some(Transient::Rename(n)) && n@ == name
        })
    &&& !new.persistent.timeline_is_playing
    &&& new.history == old.history
    &&& new.source == old.source
}

/// What `Document::reorder_keyframes` ensures, from the document before to the one after.
pub open spec fn reorder_keyframes_post(old: Document, new: Document, new_index: usize, r: Result<(), DocumentError>) -> bool {
    &&& new.is_coherent()
    &&& new.history == old.history
    &&& new.source == old.source
    &&& new.transient == old.transient
    &&& new.persistent == old.persistent
    &&& r.is_err() ==> new == old
    &&& !(old.view@.selection matches Some(SelectionModel::Keyframe(keys, _)) && keys.len() > 0)
            ==> r == Err::<(), DocumentError>(DocumentError::NoKeyframeSelected)
    &&& (old.view@.selection matches Some(SelectionModel::Keyframe(keys, _)) && keys.len() > 0)
            && workbench_animation(old.view@) is None ==> r == Err::<(), DocumentError>(DocumentError::NotEditingAnyAnimation)
    &&& (old.view@.selection matches Some(SelectionModel::Keyframe(keys, _)) && keys.len() > 0)
            && workbench_animation(old.view@) is Some ==> ({
            let keys = old.view@.selection->Some_0->Keyframe_0;
            let name = workbench_animation(old.view@)->0;
            let t = old.sheet@.animation(name).timeline;
            let valid = (forall|i: int| 0 <= i < keys.len() ==> #[trigger] keys[i] < t.len())
                && new_index <= t.len();
            let ins = reorder_insert_index(t, keys, new_index as int);
            let count = moved_part(t, keys, t.len() as int).len();
            let nt = reordered(t, keys, new_index as int);
            &&& r.is_ok() <==> valid
            &&& !valid ==> r == Err::<(), DocumentError>(DocumentError::InvalidSheetOperation(SheetError::InvalidFrameIndex))
            &&& r.is_ok() ==> new.sheet@ == old.sheet@.with_timeline(
                old.sheet@.animation_position(name),
                nt,
            ) && new.view@ == (ViewModel {
                selection: Some(SelectionModel::Keyframe(index_range(ins, count as int), (ins + count - 1) as usize)),
                timeline_clock: if start_time(nt, ins) <= u64::MAX { start_time(nt, ins) as u64 } else { old.view.timeline_clock },
                ..old.view@
            })
        })
}

/// What `Document::insert_keyframes_before` ensures, from the document before to the one after.
pub open spec fn insert_keyframes_before_post(old: Document, new: Document, paths: Vec<String>, index: usize, r: Result<(), DocumentError>) -> bool {
    &&& new.is_coherent()
    &&& new.history == old.history
    &&& new.source == old.source
    &&& new.transient == old.transient
    &&& new.persistent == old.persistent
    &&& r.is_err() ==> new == old
    &&& workbench_animation(old.view@) is None ==> r == Err::<(), DocumentError>(DocumentError::NotEditingAnyAnimation)
    &&& workbench_animation(old.view@) is Some ==> ({
            let name = workbench_animation(old.view@)->0;
            let t = old.sheet@.animation(name).timeline;
            let ps = crate::names::string_views(paths@);
            let m = ps.len();
            let nt = t.take(index as int) + ps.map_values(|p: Seq<char>| new_keyframe_model(p)) + t.skip(index as int);
            let frames_ok = forall|i: int| 0 <= i < m ==> old.sheet@.has_frame(#[trigger] ps[i]);
            let fits = index <= t.len() && t.len() + m <= usize::MAX;
            &&& r.is_ok() <==> frames_ok && fits
            &&& !frames_ok ==> r == Err::<(), DocumentError>(DocumentError::FrameNotInDocument)
            &&& frames_ok && !fits ==> r == Err::<(), DocumentError>(DocumentError::InvalidSheetOperation(SheetError::InvalidFrameIndex))
            &&& r.is_ok() ==> new.sheet@ == old.sheet@.with_timeline(
                old.sheet@.animation_position(name), nt)
                && new.view@ == (ViewModel {
                    selection: if m == 0 { None } else {
                        Some(SelectionModel::Keyframe(index_range(index as int, m as int), (index + m - 1) as usize))
                    },
                    timeline_clock: if m == 0 { old.view.timeline_clock } else {
                        snapped_clock(old.view.timeline_clock, old.persistent.timeline_is_playing, nt, index + m - 1)
                    },
                    ..old.view@
                })
        })
}

/// What `Document::begin_keyframe_duration_drag` ensures, from the document before to the one after.
pub open spec fn begin_keyframe_duration_drag_post(old: Document, new: Document, frame_being_dragged: usize, reference_clock: u32, r: Result<(), DocumentError>) -> bool {
    &&& new.is_coherent()
    &&& new.sheet == old.sheet
    &&& new.view == old.view
    &&& new.history == old.history
    &&& new.source == old.source
    &&& new.persistent == old.persistent
    &&& r.is_err() ==> new == old
    &&& workbench_animation(old.view@) is None ==> r == Err::<(), DocumentError>(DocumentError::NotEditingAnyAnimation)
    &&& workbench_animation(old.view@) is Some && !(old.view@.selection matches Some(SelectionModel::Keyframe(_, _)))
            ==> r == Err::<(), DocumentError>(DocumentError::NoKeyframeSelected)
    &&& workbench_animation(old.view@) is Some ==> (old.view@.selection matches Some(SelectionModel::Keyframe(keys, _)) ==> ({
            let t = old.sheet@.animation(workbench_animation(old.view@)->0).timeline;
            let valid = forall|i: int| 0 <= i < keys.len() ==> #[trigger] keys[i] < t.len();
            &&& r.is_ok() <==> valid
            &&& !valid ==> r == Err::<(), DocumentError>(DocumentError::InvalidKeyframeIndex)
            &&& r.is_ok() ==> (new.transient matches Some(Transient::KeyframeDuration(kd))
                && kd.initial@ == starts_of(t, keys) && kd.frame_being_dragged == frame_being_dragged
                && kd.reference_clock == reference_clock)
        }))
}

/// What `Document::begin_keyframe_offset_drag` ensures, from the document before to the one after.
pub open spec fn begin_keyframe_offset_drag_post(old: Document, new: Document, r: Result<(), DocumentError>) -> bool {
    &&& new.is_coherent()
    &&& new.sheet == old.sheet
    &&& new.view == old.view
    &&& new.history == old.history
    &&& new.source == old.source
    &&& new.persistent == old.persistent
    &&& r.is_err() ==> new == old
    &&& workbench_animation(old.view@) is None ==> r == Err::<(), DocumentError>(DocumentError::NotEditingAnyAnimation)
    &&& workbench_animation(old.view@) is Some && !(old.view@.selection matches Some(SelectionModel::Keyframe(_, _)))
            ==> r == Err::<(), DocumentError>(DocumentError::NoKeyframeSelected)
    &&& workbench_animation(old.view@) is Some ==> (old.view@.selection matches Some(SelectionModel::Keyframe(keys, _)) ==> ({
            let t = old.sheet@.animation(workbench_animation(old.view@)->0).timeline;
            let valid = forall|i: int| 0 <= i < keys.len() ==> #[trigger] keys[i] < t.len();
            &&& r.is_ok() <==> valid
            &&& !valid ==> r == Err::<(), DocumentError>(DocumentError::InvalidKeyframeIndex)
            &&& r.is_ok() ==> (new.transient matches Some(Transient::KeyframePosition(v))
                && v@ == starts_of(t, keys))
        }))
}

/// What `Document::update_keyframe_duration_drag` ensures, from the document before to the one after.
pub open spec fn update_keyframe_duration_drag_post(old: Document, new: Document, clock_at_cursor: u32, minimum_duration: u32, r: Result<(), DocumentError>) -> bool {
    &&& new.is_coherent()
    &&& new.history == old.history
    &&& new.source == old.source
    &&& new.persistent == old.persistent
    &&& new.transient == old.transient
    &&& r.is_err() ==> new == old
    &&& workbench_animation(old.view@) is None ==> r == Err::<(), DocumentError>(DocumentError::NotEditingAnyAnimation)
    &&& workbench_animation(old.view@) is Some && !(old.view@.selection matches Some(SelectionModel::Keyframe(_, _)))
            ==> r == Err::<(), DocumentError>(DocumentError::NoKeyframeSelected)
    &&& workbench_animation(old.view@) is Some ==> ((old.view@.selection matches Some(SelectionModel::Keyframe(_, _)))
            ==> (!(old.transient matches Some(Transient::KeyframeDuration(_)))
            ==> r == Err::<(), DocumentError>(DocumentError::NotAdjustingKeyframeDuration)))
    &&& workbench_animation(old.view@) is Some ==> (old.view@.selection matches Some(SelectionModel::Keyframe(keys, last))
            ==> (old.transient matches Some(Transient::KeyframeDuration(kd)) ==> ({
            let name = workbench_animation(old.view@)->0;
            let t = old.sheet@.animation(name).timeline;
            let in_range = forall|i: int| 0 <= i < keys.len() ==> #[trigger] keys[i] < t.len();
            let started = forall|i: int| 0 <= i < keys.len() ==> has_start(kd.initial@, #[trigger] keys[i]);
            let share = duration_share(clock_at_cursor, kd.reference_clock, count_upto(keys, kd.frame_being_dragged));
            let nt = durations_dragged(t, keys, kd.initial@, share, minimum_duration);
            &&& r.is_ok() <==> in_range && started && last < t.len()
            &&& !in_range ==> r == Err::<(), DocumentError>(DocumentError::InvalidKeyframeIndex)
            &&& in_range && !started ==> r == Err::<(), DocumentError>(DocumentError::MissingKeyframeDurationData)
            &&& in_range && started && last >= t.len() ==> r == Err::<(), DocumentError>(DocumentError::InvalidKeyframeIndex)
            &&& r.is_ok() ==> new.sheet@ == old.sheet@.with_timeline(old.sheet@.animation_position(name), nt)
                && new.view@ == (ViewModel {
                    timeline_clock: if start_time(nt, last as int) <= u64::MAX { start_time(nt, last as int) as u64 } else { old.view.timeline_clock },
                    ..old.view@
                })
        })))
}

/// What `Document::begin_hitbox_scale` ensures, from the document before to the one after.
pub open spec fn begin_hitbox_scale_post(old: Document, new: Document, axis: ResizeAxis, r: Result<(), DocumentError>) -> bool {
    &&& new.is_coherent()
    &&& new.sheet == old.sheet
    &&& new.view == old.view
    &&& new.history == old.history
    &&& new.source == old.source
    &&& new.persistent == old.persistent
    &&& r.is_err() ==> new == old
    &&& workbench_frame(old.view@) is None ==> r == Err::<(), DocumentError>(DocumentError::NotEditingAnyFrame)
    &&& workbench_frame(old.view@) is Some && !old.sheet@.has_frame(workbench_frame(old.view@)->0)
            ==> r == Err::<(), DocumentError>(DocumentError::FrameNotInDocument)
    &&& workbench_frame(old.view@) is Some && old.sheet@.has_frame(workbench_frame(old.view@)->0)
            ==> (old.view@.selection matches Some(SelectionModel::Hitbox(names, _)) ==> ({
            let hs = old.sheet@.frame(workbench_frame(old.view@)->0).hitboxes;
            let valid = forall|i: int| 0 <= i < names.len() ==> hitbox_names(hs).contains(#[trigger] names[i]);
            &&& r.is_ok() <==> valid
            &&& !valid ==> r == Err::<(), DocumentError>(DocumentError::InvalidHitboxName)
            &&& r.is_ok() ==> (new.transient matches Some(Transient::HitboxSize(a, v))
                && a == axis && hitbox_start_views(v@) == hitbox_starts_of(hs, names))
        }))
    &&& workbench_frame(old.view@) is Some && old.sheet@.has_frame(workbench_frame(old.view@)->0)
            && !(old.view@.selection matches Some(SelectionModel::Hitbox(_, _)))
            ==> r == Err::<(), DocumentError>(DocumentError::NoHitboxSelected)
}

/// What `Document::begin_hitbox_drag` ensures, from the document before to the one after.
pub open spec fn begin_hitbox_drag_post(old: Document, new: Document, r: Result<(), DocumentError>) -> bool {
    &&& new.is_coherent()
    &&& new.sheet == old.sheet
    &&& new.view == old.view
    &&& new.history == old.history
    &&& new.source == old.source
    &&& new.persistent == old.persistent
    &&& r.is_err() ==> new == old
    &&& workbench_frame(old.view@) is None ==> r == Err::<(), DocumentError>(DocumentError::NotEditingAnyFrame)
    &&& workbench_frame(old.view@) is Some && !old.sheet@.has_frame(workbench_frame(old.view@)->0)
            ==> r == Err::<(), DocumentError>(DocumentError::FrameNotInDocument)
    &&& workbench_frame(old.view@) is Some && old.sheet@.has_frame(workbench_frame(old.view@)->0)
            ==> (old.view@.selection matches Some(SelectionModel::Hitbox(names, _)) ==> ({
            let hs = old.sheet@.frame(workbench_frame(old.view@)->0).hitboxes;
            let valid = forall|i: int| 0 <= i < names.len() ==> hitbox_names(hs).contains(#[trigger] names[i]);
            &&& r.is_ok() <==> valid
            &&& !valid ==> r == Err::<(), DocumentError>(DocumentError::InvalidHitboxName)
            &&& r.is_ok() ==> (new.transient matches Some(Transient::HitboxPosition(v))
                && hitbox_start_views(v@) == hitbox_starts_of(hs, names))
        }))
    &&& workbench_frame(old.view@) is Some && old.sheet@.has_frame(workbench_frame(old.view@)->0)
            && !(old.view@.selection matches Some(SelectionModel::Hitbox(_, _)))
            ==> r == Err::<(), DocumentError>(DocumentError::NoHitboxSelected)
}

/// What `Document::update_hitbox_drag` ensures, from the document before to the one after.
pub open spec fn update_hitbox_drag_post(old: Document, new: Document, d: Vec2, both_axes: bool, r: Result<(), DocumentError>) -> bool {
    &&& new.is_coherent()
    &&& new.view == old.view
    &&& new.history == old.history
    &&& new.source == old.source
    &&& new.persistent == old.persistent
    &&& new.transient == old.transient
    &&& r.is_err() ==> new == old
    &&& workbench_frame(old.view@) is None ==> r == Err::<(), DocumentError>(DocumentError::NotEditingAnyFrame)
    &&& workbench_frame(old.view@) is Some && !old.sheet@.has_frame(workbench_frame(old.view@)->0)
            ==> r == Err::<(), DocumentError>(DocumentError::FrameNotInDocument)
    &&& workbench_frame(old.view@) is Some && old.sheet@.has_frame(workbench_frame(old.view@)->0) ==> ({
            let p = workbench_frame(old.view@)->0;
            let hs = old.sheet@.frame(p).hitboxes;
            &&& !(old.view@.selection matches Some(SelectionModel::Hitbox(_, _))) ==> r == Err::<(), DocumentError>(DocumentError::NoHitboxSelected)
            &&& (old.view@.selection matches Some(SelectionModel::Hitbox(_, _))) && !(old.transient matches Some(Transient::HitboxPosition(_)))
                ==> r == Err::<(), DocumentError>(DocumentError::NotAdjustingHitboxPosition)
            &&& old.view@.selection matches Some(SelectionModel::Hitbox(names, _)) ==> (old.transient matches Some(Transient::HitboxPosition(init)) ==> ({
                let iv = hitbox_start_views(init@);
                let started = forall|i: int| 0 <= i < names.len() ==> has_hitbox_start(iv, #[trigger] names[i]);
                let exist = forall|i: int| 0 <= i < names.len() ==> hitbox_names(hs).contains(#[trigger] names[i]);
                &&& r.is_ok() <==> started && exist
                &&& !started ==> r == Err::<(), DocumentError>(DocumentError::MissingHitboxPositionData)
                &&& started && !exist ==> r == Err::<(), DocumentError>(DocumentError::InvalidHitboxName)
                &&& r.is_ok() ==> new.sheet@ == old.sheet@.with_frame(p, crate::sheet::FrameModel {
                    hitboxes: hitboxes_updated(hs, names, moved_rect(iv, d, both_axes, old.view.workbench_zoom_level as int)),
                    ..old.sheet@.frame(p)
                })
            }))
        })
}

/// What `Document::update_hitbox_scale` ensures, from the document before to the one after.
pub open spec fn update_hitbox_scale_post(old: Document, new: Document, d: Vec2, preserve_aspect_ratio: bool, r: Result<(), DocumentError>) -> bool {
    &&& new.is_coherent()
    &&& new.view == old.view
    &&& new.history == old.history
    &&& new.source == old.source
    &&& new.persistent == old.persistent
    &&& new.transient == old.transient
    &&& r.is_err() ==> new == old
    &&& workbench_frame(old.view@) is None ==> r == Err::<(), DocumentError>(DocumentError::NotEditingAnyFrame)
    &&& workbench_frame(old.view@) is Some && !old.sheet@.has_frame(workbench_frame(old.view@)->0)
            ==> r == Err::<(), DocumentError>(DocumentError::FrameNotInDocument)
    &&& workbench_frame(old.view@) is Some && old.sheet@.has_frame(workbench_frame(old.view@)->0) ==> ({
            let p = workbench_frame(old.view@)->0;
            let hs = old.sheet@.frame(p).hitboxes;
            &&& !(old.view@.selection matches Some(SelectionModel::Hitbox(_, _))) ==> r == Err::<(), DocumentError>(DocumentError::NoHitboxSelected)
            &&& (old.view@.selection matches Some(SelectionModel::Hitbox(_, _))) && !(old.transient matches Some(Transient::HitboxSize(_, _)))
                ==> r == Err::<(), DocumentError>(DocumentError::NotAdjustingHitboxSize)
            &&& old.view@.selection matches Some(SelectionModel::Hitbox(names, _)) ==> (old.transient matches Some(Transient::HitboxSize(axis, init)) ==> ({
                let iv = hitbox_start_views(init@);
                let started = forall|i: int| 0 <= i < names.len() ==> has_hitbox_start(iv, #[trigger] names[i]);
                let exist = forall|i: int| 0 <= i < names.len() ==> hitbox_names(hs).contains(#[trigger] names[i]);
                &&& r.is_ok() <==> started && exist
                &&& !started ==> r == Err::<(), DocumentError>(DocumentError::MissingHitboxSizeData)
                &&& started && !exist ==> r == Err::<(), DocumentError>(DocumentError::InvalidHitboxName)
                &&& r.is_ok() ==> new.sheet@ == old.sheet@.with_frame(p, crate::sheet::FrameModel {
                    hitboxes: hitboxes_updated(hs, names, resized_rect(iv, axis, d, preserve_aspect_ratio, old.view.workbench_zoom_level as int)),
                    ..old.sheet@.frame(p)
                })
            }))
        })
}

/// What `Document::update_keyframe_offset_drag` ensures, from the document before to the one after.
pub open spec fn update_keyframe_offset_drag_post(old: Document, new: Document, d: Vec2, both_axes: bool, r: Result<(), DocumentError>) -> bool {
    &&& new.is_coherent()
    &&& new.view == old.view
    &&& new.history == old.history
    &&& new.source == old.source
    &&& new.persistent == old.persistent
    &&& new.transient == old.transient
    &&& r.is_err() ==> new == old
    &&& workbench_animation(old.view@) is None ==> r == Err::<(), DocumentError>(DocumentError::NotEditingAnyAnimation)
    &&& workbench_animation(old.view@) is Some ==> ({
            let name = workbench_animation(old.view@)->0;
            let t = old.sheet@.animation(name).timeline;
            &&& !(old.view@.selection matches Some(SelectionModel::Keyframe(_, _))) ==> r == Err::<(), DocumentError>(DocumentError::NoKeyframeSelected)
            &&& (old.view@.selection matches Some(SelectionModel::Keyframe(_, _))) && !(old.transient matches Some(Transient::KeyframePosition(_)))
                ==> r == Err::<(), DocumentError>(DocumentError::NotAdjustingKeyframePosition)
            &&& old.view@.selection matches Some(SelectionModel::Keyframe(keys, _)) ==> (old.transient matches Some(Transient::KeyframePosition(init)) ==> ({
                let started = forall|i: int| 0 <= i < keys.len() ==> has_start(init@, #[trigger] keys[i]);
                let in_range = forall|i: int| 0 <= i < keys.len() ==> #[trigger] keys[i] < t.len();
                &&& old.sheet@.has_animation(name) ==> (r.is_ok() <==> started && in_range)
                &&& !started ==> r == Err::<(), DocumentError>(DocumentError::MissingKeyframePositionData)
                &&& started && !in_range && old.sheet@.has_animation(name) ==> r == Err::<(), DocumentError>(DocumentError::InvalidKeyframeIndex)
                &&& r.is_ok() ==> new.sheet@ == old.sheet@.with_timeline(old.sheet@.animation_position(name),
                    offsets_dragged(t, keys, init@, d, both_axes, old.view.workbench_zoom_level as int))
            }))
        })
}

/// What `Document::create_hitbox` ensures, from the document before to the one after.
pub open spec fn create_hitbox_post(old: Document, new: Document, position: Vec2, r: Result<(), DocumentError>) -> bool {
    &&& new.is_coherent()
    &&& new.history == old.history
    &&& new.source == old.source
    &&& new.persistent == old.persistent
    &&& r.is_err() ==> new == old
    &&& workbench_frame(old.view@) is None ==> r == Err::<(), DocumentError>(DocumentError::NotEditingAnyFrame)
    &&& workbench_frame(old.view@) is Some ==> ({
            let p = workbench_frame(old.view@)->0;
            let f = old.sheet@.frame(p);
            let name = first_free_name("New Hitbox"@, hitbox_names(f.hitboxes));
            let rect = Rectangle { top_left: position, size: Size2 { width: 0, height: 0 } };
            &&& r.is_ok() <==> old.sheet@.has_frame(p)
            &&& r.is_err() ==> r == Err::<(), DocumentError>(DocumentError::FrameNotInDocument)
            &&& r.is_ok() ==> new.sheet@ == old.sheet@.with_frame(p, crate::sheet::FrameModel {
                hitboxes: f.hitboxes.push(HitboxModel { name, geometry: Shape::Rectangle(rect), linked: true, locked: false }),
                ..f
            }) && new.view@ == (ViewModel {
                selection: Some(SelectionModel::Hitbox(seq![name], name)),
                ..old.view@
            }) && (new.transient matches Some(Transient::HitboxSize(axis, v))
                && axis == ResizeAxis::SE && hitbox_start_views(v@) == seq![(name, rect)])
        })
}

/// What `Document::delete_selection` ensures, from the document before to the one after.
pub open spec fn delete_selection_post(old: Document, new: Document, r: Result<(), DocumentError>) -> bool {
    &&& new.is_coherent()
    &&& new.history == old.history
    &&& new.source == old.source
    &&& new.persistent == old.persistent
    &&& new.transient == old.transient
    &&& r.is_err() ==> new == old
    &&& r.is_ok() ==> new.view@.selection is None
    &&& match old.view@.selection {
            None => r.is_ok() && new.sheet@ == old.sheet@ && new.view@ == old.view@,
            Some(SelectionModel::Frame(paths, _)) => r.is_ok()
                && new.sheet@ == without_frames(old.sheet@, paths)
                && new.view@ == (ViewModel { selection: None, ..old.view@ }),
            Some(SelectionModel::Animation(names, _)) => r.is_ok()
                && new.sheet@ == without_animations(old.sheet@, names)
                && new.view@ == (ViewModel {
                    selection: None,
                    workbench_item: workbench_after_deleting(old.view@.workbench_item, names),
                    ..old.view@
                }),
            Some(SelectionModel::Hitbox(names, _)) => match workbench_frame(old.view@) {
                None => r == Err::<(), DocumentError>(DocumentError::NotEditingAnyFrame),
                Some(p) => if old.sheet@.has_frame(p) {
                    r.is_ok() && new.sheet@ == old.sheet@.with_frame(p, crate::sheet::FrameModel {
                        hitboxes: without_hitboxes(old.sheet@.frame(p).hitboxes, names),
                        ..old.sheet@.frame(p)
                    }) && new.view@ == (ViewModel { selection: None, ..old.view@ })
                } else {
                    r == Err::<(), DocumentError>(DocumentError::FrameNotInDocument)
                },
            },
            Some(SelectionModel::Keyframe(keys, _)) => match workbench_animation(old.view@) {
                None => r == Err::<(), DocumentError>(DocumentError::NotEditingAnyAnimation),
                Some(n) => {
                    let t = old.sheet@.animation(n).timeline;
                    r.is_ok() && new.sheet@ == old.sheet@.with_timeline(
                        old.sheet@.animation_position(n),
                        rest_part(t, keys, t.len() as int),
                    ) && new.view@ == (ViewModel { selection: None, ..old.view@ })
                },
            },
        }
}

/// What `Document::delete_frame` ensures, from the document before to the one after.
pub open spec fn delete_frame_post(old: Document, new: Document, path: String, r: Result<(), DocumentError>) -> bool {
    &&& new.is_coherent()
    &&& new.history == old.history
    &&& new.source == old.source
    &&& new.persistent == old.persistent
    &&& new.transient == old.transient
    &&& r.is_ok() <==> old.sheet@.has_frame(path@)
    &&& r.is_err() ==> r == Err::<(), DocumentError>(DocumentError::FrameNotInDocument) && new == old
    &&& r.is_ok() ==> new.sheet@ == old.sheet@.without_frame(path@)
            && new.view@ == (ViewModel {
                selection: selection_without_frame(old.view@.selection, path@),
                ..old.view@
            })
}

/// What `Document::begin_rename_selection` ensures, from the document before to the one after.
pub open spec fn begin_rename_selection_post(old: Document, new: Document) -> bool {
    &&& new.is_coherent()
    &&& new.sheet == old.sheet
    &&& new.view == old.view
    &&& new.history == old.history
    &&& new.source == old.source
    &&& new.persistent == old.persistent
    &&& match old.view@.selection {
            Some(SelectionModel::Animation(_, last)) => new.transient matches Some(Transient::Rename(n)) && n@ == last,
            Some(SelectionModel::Hitbox(_, last)) => new.transient matches Some(Transient::Rename(n)) && n@ == last,
            _ => new.transient == old.transient,
        }
}

/// What `Document::end_rename_selection` ensures, from the document before to the one after.
pub open spec fn end_rename_selection_post(old: Document, new: Document, r: Result<(), DocumentError>) -> bool {
    &&& new.is_coherent()
    &&& new.history == old.history
    &&& new.source == old.source
    &&& new.persistent == old.persistent
    &&& new.transient == old.transient
    &&& r.is_err() ==> new == old
    &&& !(old.transient matches Some(Transient::Rename(_))) ==> r == Err::<(), DocumentError>(DocumentError::NotRenaming)
    &&& old.transient matches Some(Transient::Rename(new_name)) ==> match old.view@.selection {
            Some(SelectionModel::Animation(_, old_name)) => if old_name == new_name@ {
                r.is_ok() && new == old
            } else if old.sheet@.has_animation(new_name@) {
                r == Err::<(), DocumentError>(DocumentError::AnimationAlreadyExists)
            } else if new_name@.len() > MAX_ANIMATION_NAME_LENGTH {
                r == Err::<(), DocumentError>(DocumentError::InvalidSheetOperation(SheetError::AnimationNameTooLong))
            } else if !old.sheet@.has_animation(old_name) {
                r == Err::<(), DocumentError>(DocumentError::InvalidSheetOperation(SheetError::AnimationNotFound))
            } else {
                r.is_ok() && new.sheet@ == old.sheet@.with_animation(
                    old_name,
                    crate::sheet::AnimationModel { name: new_name@, ..old.sheet@.animation(old_name) },
                ) && new.view@ == (ViewModel {
                    selection: Some(SelectionModel::Animation(seq![new_name@], new_name@)),
                    workbench_item: if old.view@.workbench_item == Some(WorkbenchItemModel::Animation(old_name)) {
                        Some(WorkbenchItemModel::Animation(new_name@))
                    } else {
                        old.view@.workbench_item
                    },
                    ..old.view@
                })
            },
            Some(SelectionModel::Hitbox(_, old_name)) => if old_name == new_name@ {
                r.is_ok() && new == old
            } else {
                match workbench_frame(old.view@) {
                    None => r == Err::<(), DocumentError>(DocumentError::NotEditingAnyFrame),
                    Some(p) => if !old.sheet@.has_frame(p) {
                        r == Err::<(), DocumentError>(DocumentError::FrameNotInDocument)
                    } else {
                        let hs = old.sheet@.frame(p).hitboxes;
                        if hitbox_names(hs).contains(new_name@) {
                            r == Err::<(), DocumentError>(DocumentError::HitboxAlreadyExists)
                        } else if new_name@.len() > MAX_HITBOX_NAME_LENGTH {
                            r == Err::<(), DocumentError>(DocumentError::InvalidSheetOperation(SheetError::HitboxNameTooLong))
                        } else if !hitbox_names(hs).contains(old_name) {
                            r == Err::<(), DocumentError>(DocumentError::InvalidSheetOperation(SheetError::HitboxNotFound))
                        } else {
                            r.is_ok() && new.view@ == (ViewModel {
                                selection: Some(SelectionModel::Hitbox(seq![new_name@], new_name@)),
                                ..old.view@
                            }) && new.sheet@ == old.sheet@.with_frame(p, crate::sheet::FrameModel {
                                hitboxes: hs.update(hitbox_position(hs, old_name), HitboxModel { name: new_name@, ..hs[hitbox_position(hs, old_name)] }),
                                ..old.sheet@.frame(p)
                            })
                        }
                    },
                }
            },
            _ => r.is_ok() && new == old,
        }
}

/// What `Document::toggle_playback` ensures, from the document before to the one after.
pub open spec fn toggle_playback_post(old: Document, new: Document, r: Result<(), DocumentError>) -> bool {
    &&& new.is_coherent()
    &&& new.sheet == old.sheet
    &&& new.history == old.history
    &&& new.source == old.source
    &&& new.transient == old.transient
    &&& r.is_err() ==> new == old
    &&& workbench_animation(old.view@) is None ==> r == Err::<(), DocumentError>(DocumentError::NotEditingAnyAnimation)
    &&& workbench_animation(old.view@) is Some ==> r.is_ok() && ({
            let a = old.sheet@.animation(workbench_animation(old.view@)->0);
            &&& new.persistent.timeline_is_playing == !old.persistent.timeline_is_playing
            &&& new.view@ == (ViewModel {
                timeline_clock: if rewinds(a, old.view.timeline_clock, old.persistent.timeline_is_playing) { 0 } else { old.view.timeline_clock },
                ..old.view@
            })
            &&& new.persistent.export_settings_edit == old.persistent.export_settings_edit
            &&& new.persistent.close_state == old.persistent.close_state
            &&& new.persistent.disk_version == old.persistent.disk_version
        })
}

/// What `Document::toggle_looping` ensures, from the document before to the one after.
pub open spec fn toggle_looping_post(old: Document, new: Document, r: Result<(), DocumentError>) -> bool {
    &&& new.is_coherent()
    &&& new.view == old.view
    &&& new.history == old.history
    &&& new.source == old.source
    &&& new.transient == old.transient
    &&& new.persistent == old.persistent
    &&& r.is_err() ==> new == old
    &&& workbench_animation(old.view@) is None ==> r == Err::<(), DocumentError>(DocumentError::NotEditingAnyAnimation)
    &&& workbench_animation(old.view@) is Some ==> r.is_ok() && ({
            let n = workbench_animation(old.view@)->0;
            let a = old.sheet@.animation(n);
            new.sheet@ == old.sheet@.with_animation(n, crate::sheet::AnimationModel { is_looping: !a.is_looping, ..a })
        })
}

/// What `Document::update_timeline_scrub` ensures, from the document before to the one after.
pub open spec fn update_timeline_scrub_post(old: Document, new: Document, new_time: u64, r: Result<(), DocumentError>) -> bool {
    &&& new.is_coherent()
    &&& new.sheet == old.sheet
    &&& new.history == old.history
    &&& new.source == old.source
    &&& new.transient == old.transient
    &&& new.persistent == old.persistent
    &&& r.is_err() ==> new == old
    &&& workbench_animation(old.view@) is None ==> r == Err::<(), DocumentError>(DocumentError::NotEditingAnyAnimation)
    &&& workbench_animation(old.view@) is Some ==> ({
            let a = old.sheet@.animation(workbench_animation(old.view@)->0);
            &&& r.is_ok() <==> keyframe_at(a, new_time as nat) is Some
            &&& r.is_err() ==> r == Err::<(), DocumentError>(DocumentError::NoKeyframeForThisTime)
            &&& r.is_ok() ==> new.view@ == (ViewModel {
                selection: Some(SelectionModel::Keyframe(seq![keyframe_at(a, new_time as nat)->0 as usize], keyframe_at(a, new_time as nat)->0 as usize)),
                timeline_clock: new_time,
                ..old.view@
            })
        })
}

/// What `Document::snap_to_previous_frame` ensures, from the document before to the one after.
pub open spec fn snap_to_previous_frame_post(old: Document, new: Document, r: Result<(), DocumentError>) -> bool {
    &&& new.is_coherent()
    &&& new.sheet == old.sheet
    &&& new.history == old.history
    &&& new.source == old.source
    &&& new.transient == old.transient
    &&& new.persistent == old.persistent
    &&& r.is_err() ==> new == old
    &&& workbench_animation(old.view@) is None ==> r == Err::<(), DocumentError>(DocumentError::NotEditingAnyAnimation)
    &&& workbench_animation(old.view@) is Some ==> ({
            let a = old.sheet@.animation(workbench_animation(old.view@)->0);
            let stop = previous_stop(a.timeline, old.view.timeline_clock as nat);
            &&& a.timeline.len() == 0 || timeline_duration(a.timeline) > u64::MAX ==> r.is_ok() && new == old
            &&& a.timeline.len() > 0 && timeline_duration(a.timeline) <= u64::MAX ==> (
                (r.is_ok() <==> keyframe_at(a, stop) is Some)
                && (r.is_ok() ==> new.view@ == (ViewModel {
                    selection: Some(SelectionModel::Keyframe(seq![keyframe_at(a, stop)->0 as usize], keyframe_at(a, stop)->0 as usize)),
                    timeline_clock: stop as u64,
                    ..old.view@
                })))
        })
}

/// What `Document::snap_to_next_frame` ensures, from the document before to the one after.
pub open spec fn snap_to_next_frame_post(old: Document, new: Document, r: Result<(), DocumentError>) -> bool {
    &&& new.is_coherent()
    &&& new.sheet == old.sheet
    &&& new.history == old.history
    &&& new.source == old.source
    &&& new.transient == old.transient
    &&& new.persistent == old.persistent
    &&& r.is_err() ==> new == old
    &&& workbench_animation(old.view@) is None ==> r == Err::<(), DocumentError>(DocumentError::NotEditingAnyAnimation)
    &&& workbench_animation(old.view@) is Some ==> ({
            let a = old.sheet@.animation(workbench_animation(old.view@)->0);
            let stop = next_stop(a.timeline, old.view.timeline_clock as nat);
            &&& a.timeline.len() == 0 || timeline_duration(a.timeline) > u64::MAX ==> r.is_ok() && new == old
            &&& a.timeline.len() > 0 && timeline_duration(a.timeline) <= u64::MAX ==> (
                (r.is_ok() <==> keyframe_at(a, stop) is Some)
                && (r.is_ok() ==> new.view@ == (ViewModel {
                    selection: Some(SelectionModel::Keyframe(seq![keyframe_at(a, stop)->0 as usize], keyframe_at(a, stop)->0 as usize)),
                    timeline_clock: stop as u64,
                    ..old.view@
                })))
        })
}

/// What `Document::nudge_selection` ensures, from the document before to the one after.
pub open spec fn nudge_selection_post(old: Document, new: Document, direction: Vec2, large: bool, r: Result<(), DocumentError>) -> bool {
    &&& new.is_coherent()
    &&& new.view == old.view
    &&& new.history == old.history
    &&& new.source == old.source
    &&& new.transient == old.transient
    &&& new.persistent == old.persistent
    &&& r.is_err() ==> new == old
    &&& ({
            let amp: int = if large { 10 } else { 1 };
            match old.view@.selection {
                Some(SelectionModel::Hitbox(names, _)) => match workbench_frame(old.view@) {
                    None => r == Err::<(), DocumentError>(DocumentError::NotEditingAnyFrame),
                    Some(p) => if !old.sheet@.has_frame(p) {
                        r == Err::<(), DocumentError>(DocumentError::FrameNotInDocument)
                    } else {
                        let hs = old.sheet@.frame(p).hitboxes;
                        let exist = forall|i: int| 0 <= i < names.len() ==> hitbox_names(hs).contains(#[trigger] names[i]);
                        &&& r.is_ok() <==> exist
                        &&& !exist ==> r == Err::<(), DocumentError>(DocumentError::InvalidHitboxName)
                        &&& r.is_ok() ==> new.sheet@ == old.sheet@.with_frame(p, crate::sheet::FrameModel {
                            hitboxes: hitboxes_updated(hs, names, nudged_rect(direction, amp)),
                            ..old.sheet@.frame(p)
                        })
                    },
                },
                Some(SelectionModel::Keyframe(keys, _)) => match workbench_animation(old.view@) {
                    None => r == Err::<(), DocumentError>(DocumentError::NotEditingAnyAnimation),
                    Some(n) => if !old.sheet@.has_animation(n) {
                        r == Err::<(), DocumentError>(DocumentError::AnimationNotInDocument)
                    } else {
                        let t = old.sheet@.animation(n).timeline;
                        let in_range = forall|i: int| 0 <= i < keys.len() ==> #[trigger] keys[i] < t.len();
                        &&& r.is_ok() <==> in_range
                        &&& !in_range ==> r == Err::<(), DocumentError>(DocumentError::InvalidKeyframeIndex)
                        &&& r.is_ok() ==> new.sheet@ == old.sheet@.with_timeline(
                            old.sheet@.animation_position(n), offsets_nudged(t, keys, direction, amp))
                    },
                },
                _ => r.is_ok() && new == old,
            }
        })
}

/// What `Document::begin_export_as` ensures, from the document before to the one after.
pub open spec fn begin_export_as_post(old: Document, new: Document) -> bool {
    &&& new.sheet == old.sheet
    &&& new.view == old.view
    &&& new.history == old.history
    &&& new.source == old.source
    &&& new.transient == old.transient
    &&& new.persistent.close_state == old.persistent.close_state
    &&& new.persistent.timeline_is_playing == old.persistent.timeline_is_playing
    &&& new.persistent.disk_version == old.persistent.disk_version
    &&& new.persistent.export_settings_edit matches Some(e) && (match old.sheet@.export_settings {
            Some(x) => e@ == x,
            None => e@ == ExportSettings::new_spec(),
        })
}

/// What `Document::cancel_export_as` ensures, from the document before to the one after.
pub open spec fn cancel_export_as_post(old: Document, new: Document) -> bool {
    &&& new.sheet == old.sheet
    &&& new.view == old.view
    &&& new.history == old.history
    &&& new.source == old.source
    &&& new.transient == old.transient
    &&& new.persistent.close_state == old.persistent.close_state
    &&& new.persistent.timeline_is_playing == old.persistent.timeline_is_playing
    &&& new.persistent.disk_version == old.persistent.disk_version
    &&& new.persistent.export_settings_edit is None
}

/// What `Document::edit_export_settings` ensures, from the document before to the one after.
pub open spec fn edit_export_settings_post(old: Document, new: Document, field: u8, value: String, format: Option<ExportFormat>, r: Result<(), DocumentError>) -> bool {
    &&& new.sheet == old.sheet
    &&& new.view == old.view
    &&& new.history == old.history
    &&& new.source == old.source
    &&& new.transient == old.transient
    &&& new.persistent.close_state == old.persistent.close_state
    &&& new.persistent.timeline_is_playing == old.persistent.timeline_is_playing
    &&& new.persistent.disk_version == old.persistent.disk_version
    &&& r.is_ok() <==> old.persistent.export_settings_edit is Some
    &&& r.is_err() ==> r == Err::<(), DocumentError>(DocumentError::NotExporting) && new == old
    &&& old.persistent.export_settings_edit matches Some(e) ==> (new.persistent.export_settings_edit matches Some(n) && n@ == (match format {
            Some(f) => crate::sheet::ExportSettingsModel { format: f@, ..e@ },
            None => if field == 0 {
                crate::sheet::ExportSettingsModel { texture_destination: value@, ..e@ }
            } else if field == 1 {
                crate::sheet::ExportSettingsModel { metadata_destination: value@, ..e@ }
            } else {
                crate::sheet::ExportSettingsModel { metadata_paths_root: value@, ..e@ }
            },
        }))
}

/// What `Document::end_export_as` ensures, from the document before to the one after.
pub open spec fn end_export_as_post(old: Document, new: Document, r: Result<(), DocumentError>) -> bool {
    &&& new.is_coherent()
    &&& new.view == old.view
    &&& new.history == old.history
    &&& new.source == old.source
    &&& new.transient == old.transient
    &&& new.persistent.close_state == old.persistent.close_state
    &&& new.persistent.timeline_is_playing == old.persistent.timeline_is_playing
    &&& new.persistent.disk_version == old.persistent.disk_version
    &&& r.is_ok() <==> old.persistent.export_settings_edit is Some
    &&& r.is_err() ==> r == Err::<(), DocumentError>(DocumentError::NotExporting) && new == old
    &&& old.persistent.export_settings_edit matches Some(e) ==> new.sheet@ == (SheetModel {
            export_settings: Some(e@),
            ..old.sheet@
        }) && new.persistent.export_settings_edit is None
}

/// What `Document::begin_close` ensures, from the document before to the one after.
pub open spec fn begin_close_post(old: Document, new: Document) -> bool {
    &&& new.wf()
    &&& new.sheet == old.sheet
    &&& new.view == old.view
    &&& new.history == old.history
    &&& new.source == old.source
    &&& new.transient == old.transient
    &&& new.persistent.export_settings_edit == old.persistent.export_settings_edit
    &&& new.persistent.timeline_is_playing == old.persistent.timeline_is_playing
    &&& new.persistent.disk_version == old.persistent.disk_version
    &&& new.persistent.close_state == (if old.persistent.close_state is None {
            Some(if old.is_saved_spec() { CloseState::Allowed } else { CloseState::Requested })
        } else {
            old.persistent.close_state
        })
}

/// What `Document::cancel_close` ensures, from the document before to the one after.
pub open spec fn cancel_close_post(old: Document, new: Document) -> bool {
    &&& new.sheet == old.sheet
    &&& new.view == old.view
    &&& new.history == old.history
    &&& new.source == old.source
    &&& new.transient == old.transient
    &&& new.persistent.export_settings_edit == old.persistent.export_settings_edit
    &&& new.persistent.timeline_is_playing == old.persistent.timeline_is_playing
    &&& new.persistent.disk_version == old.persistent.disk_version
    &&& new.persistent.close_state is None
}

/// What `Document::begin_keyframe_drag` ensures, from the document before to the one after.
pub open spec fn begin_keyframe_drag_post(old: Document, new: Document) -> bool {
    &&& new.transient == Some(Transient::TimelineFrameDrag)
    &&& new.sheet == old.sheet
    &&& new.view == old.view
    &&& new.history == old.history
    &&& new.persistent == old.persistent
    &&& new.source == old.source
}


/// No frame at `p` and no keyframe showing it.
pub open spec fn frame_gone(s: SheetModel, p: Seq<char>) -> bool {
    &&& !s.has_frame(p)
    &&& forall|a: int, j: int| 0 <= a < s.animations.len() && 0 <= j < s.animations[a].timeline.len()
        ==> (#[trigger] s.animations[a].timeline[j]).frame != p
}

/// Deleting the frame at `p` leaves no frame at `p` and no keyframe, in any
/// animation, that shows it; deleting another frame keeps that so.
pub proof fn lemma_without_frame_gone(s: SheetModel, p: Seq<char>, q: Seq<char>)
    ensures
        frame_gone(s.without_frame(p), p),
        frame_gone(s, q) ==> frame_gone(s.without_frame(p), q),
{
    let t = s.without_frame(p);
    if t.has_frame(p) {
        let i = choose|i: int| 0 <= i < frame_sources(t.frames).len() && frame_sources(t.frames)[i] == p;
        s.frames.lemma_filter_pred(other_frame(p), i);
    }
    assert forall|a: int, j: int| 0 <= a < t.animations.len() && 0 <= j < t.animations[a].timeline.len()
        implies (#[trigger] t.animations[a].timeline[j]).frame != p by {
        s.animations[a].timeline.lemma_filter_pred(crate::sheet::other_keyframe(p), j);
    }
    if frame_gone(s, q) {
        if t.has_frame(q) {
            let i = choose|i: int| 0 <= i < frame_sources(t.frames).len() && frame_sources(t.frames)[i] == q;
            s.frames.lemma_filter_contains_rev(other_frame(p), t.frames[i]);
            let k = choose|k: int| 0 <= k < s.frames.len() && s.frames[k] == t.frames[i];
            assert(frame_sources(s.frames)[k] == q);
        }
        assert forall|a: int, j: int| 0 <= a < t.animations.len() && 0 <= j < t.animations[a].timeline.len()
            implies (#[trigger] t.animations[a].timeline[j]).frame != q by {
            let tl = s.animations[a].timeline;
            tl.lemma_filter_contains_rev(crate::sheet::other_keyframe(p), t.animations[a].timeline[j]);
            let k = choose|k: int| 0 <= k < tl.len() && tl[k] == t.animations[a].timeline[j];
            assert(s.animations[a].timeline[k].frame != q);
        }
    }
}

/// Deleting the frames `paths`, one after the other, leaves none of them and
/// no keyframe that shows one.
pub proof fn lemma_without_frames_gone(s: SheetModel, paths: Seq<Seq<char>>, p: Seq<char>)
    requires
        paths.contains(p),
    ensures
        frame_gone(without_frames(s, paths), p),
    decreases paths.len(),
{
    let init = paths.drop_last();
    let t = without_frames(s, init);
    if paths.last() == p {
        lemma_without_frame_gone(t, p, p);
    } else {
        let w = choose|w: int| 0 <= w < paths.len() && paths[w] == p;
        assert(init[w] == p);
        lemma_without_frames_gone(s, init, p);
        lemma_without_frame_gone(t, paths.last(), p);
    }
}

/// The version never goes down, and a command recorded with no interaction
/// in progress changes it exactly when it changes the sheet. The requirements
/// are what `process_command` ensures; the counter must not have reached its
/// largest value.
pub proof fn lemma_document_version(before: Document, after: Document)
    requires
        before.wf(),
        before.transient is None,
        after.transient is None,
        after.history_model() == before.history_model().recorded(after.sheet@, after.view@),
        before.history_model().next_version < u64::MAX,
    ensures
        after.history_model().next_version >= before.history_model().next_version,
        (after.history_model().current().version != before.history_model().current().version)
            <==> (after.sheet@ != before.sheet@),
{
    before.history.lemma_model_wf();
    crate::history::lemma_version_tracks_content(before.history_model(), after.sheet@, after.view@);
}

} // verus!
