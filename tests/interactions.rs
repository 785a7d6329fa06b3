use tiger::document::{CloseState, Document, DocumentCommand, DocumentError};
use tiger::names::{decimal_string, first_free_name_string};
use tiger::selection::MultiSelection;
use tiger::sheet::{Animation, Frame, Hitbox, Keyframe, Rectangle, Shape, Sheet, SheetError, Size2, Vec2};
use tiger::transient::{
    clock_at_position, drag_position, resize_rectangle, KeyframeDuration, ResizeAxis, Transient,
};

fn s(v: &str) -> String {
    v.to_string()
}

fn doc_with_animation(frames: &[&str]) -> Document {
    let mut d = Document::new(&s("sheet.tiger"));
    for p in frames {
        d.process_command(DocumentCommand::EndImport(s(p))).unwrap();
    }
    d.process_command(DocumentCommand::CreateAnimation).unwrap();
    d.process_command(DocumentCommand::EndRenameSelection).unwrap();
    let paths: Vec<String> = frames.iter().map(|p| s(p)).collect();
    d.process_command(DocumentCommand::InsertKeyframesBefore(paths, 0)).unwrap();
    d
}

#[test]
fn nudging_keyframes_moves_offsets() {
    let mut d = doc_with_animation(&["a.png", "b.png"]);
    d.process_command(DocumentCommand::SelectKeyframes(MultiSelection::new(vec![1]))).unwrap();
    d.process_command(DocumentCommand::NudgeSelection(Vec2 { x: 1, y: -1 }, true)).unwrap();
    assert_eq!(d.sheet.animations[0].timeline[1].offset, Vec2 { x: 10, y: -10 });
    assert_eq!(d.sheet.animations[0].timeline[0].offset, Vec2 { x: 0, y: 0 });
    d.process_command(DocumentCommand::NudgeSelection(Vec2 { x: 0, y: 1 }, false)).unwrap();
    assert_eq!(d.sheet.animations[0].timeline[1].offset, Vec2 { x: 10, y: -9 });
}

#[test]
fn offset_drag_divides_by_zoom_and_locks_axis() {
    let mut d = doc_with_animation(&["a.png"]);
    d.process_command(DocumentCommand::WorkbenchZoomIn).unwrap();
    d.process_command(DocumentCommand::SelectKeyframes(MultiSelection::new(vec![0]))).unwrap();
    d.process_command(DocumentCommand::BeginKeyframeOffsetDrag).unwrap();
    d.process_command(DocumentCommand::UpdateKeyframeOffsetDrag(Vec2 { x: -5, y: 3 }, false)).unwrap();
    assert_eq!(d.sheet.animations[0].timeline[0].offset, Vec2 { x: -3, y: 0 });
    d.process_command(DocumentCommand::UpdateKeyframeOffsetDrag(Vec2 { x: 5, y: 3 }, true)).unwrap();
    assert_eq!(d.sheet.animations[0].timeline[0].offset, Vec2 { x: 2, y: 1 });
}

#[test]
fn drag_and_resize_arithmetic() {
    let start = Vec2 { x: 10, y: 10 };
    assert_eq!(drag_position(start, Vec2 { x: 7, y: 1 }, false, 2), Vec2 { x: 13, y: 10 });
    assert_eq!(drag_position(start, Vec2 { x: 7, y: 1 }, true, -2), Vec2 { x: 24, y: 12 });
    let r = Rectangle { top_left: Vec2 { x: 0, y: 0 }, size: Size2 { width: 20, height: 10 } };
    let se = resize_rectangle(r, ResizeAxis::SE, Vec2 { x: 5, y: 1 }, false, 1);
    assert_eq!(se, Rectangle { top_left: Vec2 { x: 0, y: 0 }, size: Size2 { width: 25, height: 11 } });
    let kept = resize_rectangle(r, ResizeAxis::SE, Vec2 { x: 10, y: 1 }, true, 1);
    assert_eq!(kept.size, Size2 { width: 30, height: 15 });
    let ne = resize_rectangle(r, ResizeAxis::NE, Vec2 { x: 10, y: 0 }, true, 1);
    assert_eq!(ne, Rectangle { top_left: Vec2 { x: 0, y: -5 }, size: Size2 { width: 30, height: 15 } });
    let flipped = resize_rectangle(r, ResizeAxis::W, Vec2 { x: 30, y: 0 }, false, 1);
    assert_eq!(flipped, Rectangle { top_left: Vec2 { x: 20, y: 0 }, size: Size2 { width: 10, height: 10 } });
    assert_eq!(clock_at_position(-40, 1), 0);
    assert_eq!(clock_at_position(41, 2), 20);
    assert_eq!(clock_at_position(41, -4), 164);
}

#[test]
fn playback_loops_or_stops() {
    let mut d = doc_with_animation(&["a.png", "b.png"]);
    d.process_command(DocumentCommand::TogglePlayback).unwrap();
    assert!(d.is_timeline_playing());
    assert_eq!(d.view.timeline_clock, 100);
    d.tick(250);
    assert_eq!(d.view.timeline_clock, 150);
    d.process_command(DocumentCommand::ToggleLooping).unwrap();
    assert!(!d.sheet.animations[0].is_looping);
    d.tick(500);
    assert_eq!(d.view.timeline_clock, 200);
    assert!(!d.is_timeline_playing());
    d.process_command(DocumentCommand::TogglePlayback).unwrap();
    assert_eq!(d.view.timeline_clock, 0);
    assert!(d.is_timeline_playing());
}

#[test]
fn selecting_keyframe_snaps_clock_to_its_start() {
    let mut d = doc_with_animation(&["a.png", "b.png", "c.png"]);
    d.process_command(DocumentCommand::SelectKeyframes(MultiSelection::new(vec![2]))).unwrap();
    assert_eq!(d.view.timeline_clock, 200);
    d.process_command(DocumentCommand::UpdateScrub(250)).unwrap();
    d.process_command(DocumentCommand::SelectKeyframes(MultiSelection::new(vec![2]))).unwrap();
    assert_eq!(d.view.timeline_clock, 250);
    d.process_command(DocumentCommand::SnapToPreviousFrame).unwrap();
    assert_eq!(d.view.timeline_clock, 200);
    d.process_command(DocumentCommand::SnapToPreviousFrame).unwrap();
    assert_eq!(d.view.timeline_clock, 100);
    assert_eq!(
        d.process_command(DocumentCommand::SelectKeyframes(MultiSelection::new(vec![3]))),
        Err(DocumentError::InvalidKeyframeIndex)
    );
}

#[test]
fn inserting_unknown_frame_is_refused() {
    let mut d = doc_with_animation(&["a.png"]);
    assert_eq!(
        d.process_command(DocumentCommand::InsertKeyframesBefore(vec![s("z.png")], 0)),
        Err(DocumentError::FrameNotInDocument)
    );
    assert_eq!(
        d.process_command(DocumentCommand::InsertKeyframesBefore(vec![s("a.png")], 5)),
        Err(DocumentError::InvalidSheetOperation(SheetError::InvalidFrameIndex))
    );
    assert_eq!(d.sheet.animations[0].timeline.len(), 1);
}

#[test]
fn rename_too_long_is_refused() {
    let mut d = doc_with_animation(&[]);
    d.process_command(DocumentCommand::SelectAnimations(MultiSelection::new(vec![s("New Animation")]))).unwrap();
    d.process_command(DocumentCommand::BeginRenameSelection).unwrap();
    d.process_command(DocumentCommand::UpdateRenameSelection("x".repeat(33))).unwrap();
    assert_eq!(
        d.process_command(DocumentCommand::EndRenameSelection),
        Err(DocumentError::InvalidSheetOperation(SheetError::AnimationNameTooLong))
    );
    d.process_command(DocumentCommand::UpdateRenameSelection("é".repeat(32))).unwrap();
    d.process_command(DocumentCommand::EndRenameSelection).unwrap();
    assert_eq!(d.sheet.animations[0].name, "é".repeat(32));
}

#[test]
fn export_settings_edit_and_commit() {
    let mut d = doc_with_animation(&[]);
    assert_eq!(
        d.process_command(DocumentCommand::EndSetExportTextureDestination(s("/out.png"))),
        Err(DocumentError::NotExporting)
    );
    d.process_command(DocumentCommand::BeginExportAs).unwrap();
    d.process_command(DocumentCommand::EndSetExportTextureDestination(s("/out.png"))).unwrap();
    d.process_command(DocumentCommand::EndExportAs).unwrap();
    assert_eq!(d.sheet.export_settings.as_ref().unwrap().texture_destination, s("/out.png"));
    assert!(d.persistent.export_settings_edit.is_none());
}

#[test]
fn closing_waits_for_saving() {
    let mut d = Document::new(&s("sheet.tiger"));
    d.process_command(DocumentCommand::Close).unwrap();
    assert_eq!(d.persistent.close_state, Some(CloseState::Allowed));
    d.process_command(DocumentCommand::CancelClose).unwrap();
    d.process_command(DocumentCommand::EndImport(s("a.png"))).unwrap();
    d.process_command(DocumentCommand::Close).unwrap();
    assert_eq!(d.persistent.close_state, Some(CloseState::Requested));
    d.process_command(DocumentCommand::CloseAfterSaving).unwrap();
    d.tick(10);
    assert_eq!(d.persistent.close_state, Some(CloseState::Saving));
    let v = d.get_version();
    d.process_command(DocumentCommand::MarkAsSaved(v)).unwrap();
    assert!(d.is_saved());
    d.tick(10);
    assert_eq!(d.persistent.close_state, Some(CloseState::Allowed));
}

#[test]
fn paths_relative_and_back() {
    let mut sheet = Sheet::new();
    sheet.frames.push(Frame { source: s("/art/hero/idle.png"), hitboxes: vec![] });
    let rel = sheet.with_relative_paths(&s("/art")).unwrap();
    assert_eq!(rel.frames[0].source, s("hero/idle.png"));
    let abs = rel.with_absolute_paths(&s("/art"));
    assert_eq!(abs.frames[0].source, s("/art/hero/idle.png"));
    let mut relative_only = Sheet::new();
    relative_only.frames.push(Frame { source: s("idle.png"), hitboxes: vec![] });
    assert_eq!(relative_only.with_relative_paths(&s("/art")).err(), Some(SheetError::AbsoluteToRelativePath));
    let mut bad_export = Sheet::new();
    bad_export.export_settings = Some(tiger::sheet::ExportSettings::new());
    assert_eq!(bad_export.with_relative_paths(&s("/art")).err(), Some(SheetError::AbsoluteToRelativePath));
    assert!(Sheet::new().with_relative_paths(&s("/art")).unwrap() == Sheet::new());
}

#[test]
fn well_formedness_check_finds_repeats() {
    let mut sheet = Sheet::new();
    sheet.frames.push(Frame { source: s("a.png"), hitboxes: vec![] });
    assert!(sheet.is_well_formed());
    let h = Hitbox {
        name: s("h"),
        geometry: Shape::Rectangle(Rectangle { top_left: Vec2 { x: 0, y: 0 }, size: Size2 { width: 1, height: 1 } }),
        linked: true,
        locked: false,
    };
    sheet.frames[0].hitboxes.push(h.clone());
    assert!(sheet.is_well_formed());
    sheet.frames[0].hitboxes.push(h);
    assert!(!sheet.is_well_formed());
    sheet.frames[0].hitboxes.pop();
    sheet.frames.push(Frame { source: s("a.png"), hitboxes: vec![] });
    assert!(!sheet.is_well_formed());
}

#[test]
fn generated_names_count_in_decimal() {
    assert_eq!(decimal_string(0), s("0"));
    assert_eq!(decimal_string(1205), s("1205"));
    let mut taken: Vec<String> = vec![s("New Animation")];
    for i in 2..=11 {
        taken.push(format!("New Animation {}", i));
    }
    assert_eq!(first_free_name_string("New Animation", &taken), s("New Animation 12"));
    assert_eq!(first_free_name_string("New Animation", &vec![]), s("New Animation"));
}

#[test]
fn hitbox_selection_and_deletion() {
    let mut d = Document::new(&s("sheet.tiger"));
    d.process_command(DocumentCommand::EndImport(s("a.png"))).unwrap();
    assert_eq!(
        d.process_command(DocumentCommand::CreateHitbox(Vec2 { x: 0, y: 0 })),
        Err(DocumentError::NotEditingAnyFrame)
    );
    d.process_command(DocumentCommand::EditFrame(s("a.png"))).unwrap();
    d.process_command(DocumentCommand::CreateHitbox(Vec2 { x: 0, y: 0 })).unwrap();
    d.process_command(DocumentCommand::CreateHitbox(Vec2 { x: 4, y: 4 })).unwrap();
    let names: Vec<String> = d.sheet.frames[0].hitboxes.iter().map(|h| h.name.clone()).collect();
    assert_eq!(names, vec![s("New Hitbox"), s("New Hitbox 2")]);
    d.process_command(DocumentCommand::SelectHitboxes(MultiSelection::new(vec![s("New Hitbox")]))).unwrap();
    d.process_command(DocumentCommand::NudgeSelection(Vec2 { x: 1, y: 0 }, false)).unwrap();
    assert_eq!(d.sheet.frames[0].hitboxes[0].get_position(), Vec2 { x: 1, y: 0 });
    d.process_command(DocumentCommand::DeleteSelection).unwrap();
    assert_eq!(d.sheet.frames[0].hitboxes.len(), 1);
    assert_eq!(d.sheet.frames[0].hitboxes[0].name, s("New Hitbox 2"));
    assert_eq!(
        d.process_command(DocumentCommand::SelectHitboxes(MultiSelection::new(vec![s("New Hitbox")]))),
        Err(DocumentError::InvalidHitboxName)
    );
}

#[test]
fn hitboxes_move_from_frames_to_keyframes() {
    let h = Hitbox {
        name: s("body"),
        geometry: Shape::Rectangle(Rectangle { top_left: Vec2 { x: 1, y: 2 }, size: Size2 { width: 3, height: 4 } }),
        linked: false,
        locked: true,
    };
    let mut sheet = Sheet::new();
    sheet.frames.push(Frame { source: s("a.png"), hitboxes: vec![h] });
    let mut k = Keyframe::new(&s("a.png"));
    k.offset = Vec2 { x: 10, y: 20 };
    let lost = Keyframe::new(&s("gone.png"));
    sheet.animations.push(Animation { name: s("idle"), timeline: vec![k, lost], is_looping: true });
    let migrated = sheet.with_hitboxes_on_keyframes();
    assert!(migrated.frames[0].hitboxes.is_empty());
    let moved = &migrated.animations[0].timeline[0].hitboxes;
    assert_eq!(moved.len(), 1);
    assert_eq!(moved[0].name, s("body"));
    assert!(moved[0].linked && !moved[0].locked);
    assert_eq!(
        moved[0].get_rectangle(),
        Rectangle { top_left: Vec2 { x: 11, y: 22 }, size: Size2 { width: 3, height: 4 } }
    );
    assert!(migrated.animations[0].timeline[1].hitboxes.is_empty());
}

#[test]
fn updates_without_recorded_starts_are_refused() {
    let mut d = doc_with_animation(&["a.png"]);
    d.process_command(DocumentCommand::SelectKeyframes(MultiSelection::new(vec![0]))).unwrap();
    d.transient = Some(Transient::KeyframeDuration(KeyframeDuration {
        initial: vec![],
        frame_being_dragged: 0,
        reference_clock: 0,
    }));
    assert_eq!(
        d.process_command(DocumentCommand::UpdateKeyframeDurationDrag(50, 0)),
        Err(DocumentError::MissingKeyframeDurationData)
    );
    d.transient = Some(Transient::KeyframePosition(vec![]));
    assert_eq!(
        d.process_command(DocumentCommand::UpdateKeyframeOffsetDrag(Vec2 { x: 1, y: 1 }, true)),
        Err(DocumentError::MissingKeyframePositionData)
    );
    d.transient = Some(Transient::TimelineScrub);
    assert_eq!(
        d.process_command(DocumentCommand::UpdateKeyframeDurationDrag(50, 0)),
        Err(DocumentError::NotAdjustingKeyframeDuration)
    );
    let mut e = Document::new(&s("sheet.tiger"));
    e.process_command(DocumentCommand::EndImport(s("a.png"))).unwrap();
    e.process_command(DocumentCommand::EditFrame(s("a.png"))).unwrap();
    e.process_command(DocumentCommand::CreateHitbox(Vec2 { x: 0, y: 0 })).unwrap();
    e.transient = Some(Transient::HitboxPosition(vec![]));
    assert_eq!(
        e.process_command(DocumentCommand::UpdateHitboxDrag(Vec2 { x: 1, y: 1 }, true)),
        Err(DocumentError::MissingHitboxPositionData)
    );
    e.transient = Some(Transient::HitboxSize(ResizeAxis::N, vec![]));
    assert_eq!(
        e.process_command(DocumentCommand::UpdateHitboxScale(Vec2 { x: 1, y: 1 }, true)),
        Err(DocumentError::MissingHitboxSizeData)
    );
    assert_eq!(
        e.process_command(DocumentCommand::UpdateHitboxDrag(Vec2 { x: 1, y: 1 }, true)),
        Err(DocumentError::NotAdjustingHitboxPosition)
    );
}

#[test]
fn queries_report_interaction_and_selection() {
    let mut d = doc_with_animation(&["a.png", "b.png"]);
    assert!(d.is_keyframe_selected(1));
    assert!(!d.is_keyframe_selected(2));
    d.process_command(DocumentCommand::BeginScrub).unwrap();
    assert!(d.is_scrubbing_timeline());
    assert!(!d.is_moving_keyframe());
    d.process_command(DocumentCommand::BeginKeyframeDrag).unwrap();
    assert!(d.is_dragging_timeline_frames());
    d.process_command(DocumentCommand::SelectFrames(MultiSelection::new(vec![s("b.png")]))).unwrap();
    assert!(d.is_frame_selected(&s("b.png")));
    assert!(!d.is_frame_selected(&s("a.png")));
    assert!(!d.is_dragging_timeline_frames());
    let times = d.sheet.animations[0].get_frame_times().unwrap();
    assert_eq!(times, vec![0, 100]);
    assert_eq!(d.sheet.animations[0].get_duration(), Some(200));
    assert_eq!(d.sheet.animations[0].get_frame(1).unwrap().frame, s("b.png"));
    assert!(d.sheet.animations[0].get_frame(2).is_none());
}

#[test]
fn export_settings_paths_relative_and_back() {
    let e = tiger::sheet::ExportSettings {
        format: tiger::sheet::ExportFormat::Template(s("/w/t.template")),
        texture_destination: s("/w/out/sheet.png"),
        metadata_destination: s("/w/out/sheet.json"),
        metadata_paths_root: s("/w/out"),
    };
    let rel = e.with_relative_paths(&s("/w")).unwrap();
    assert_eq!(rel.texture_destination, s("out/sheet.png"));
    let abs = rel.with_absolute_paths(&s("/w"));
    assert_eq!(abs.metadata_destination, s("/w/out/sheet.json"));
}

#[test]
fn switching_workbench_item_drops_its_selection() {
    let mut d = doc_with_animation(&["a.png", "b.png"]);
    assert!(d.is_keyframe_selected(0));
    d.process_command(DocumentCommand::EditFrame(s("a.png"))).unwrap();
    assert!(d.view.selection.is_none());
    d.process_command(DocumentCommand::CreateHitbox(Vec2 { x: 0, y: 0 })).unwrap();
    assert!(d.is_hitbox_selected(&s("New Hitbox")));
    d.process_command(DocumentCommand::EditFrame(s("b.png"))).unwrap();
    assert!(d.view.selection.is_none());
    d.process_command(DocumentCommand::EditAnimation(s("New Animation"))).unwrap();
    d.process_command(DocumentCommand::SelectKeyframes(MultiSelection::new(vec![1]))).unwrap();
    d.process_command(DocumentCommand::DeleteFrame(s("b.png"))).unwrap();
    assert!(d.view.selection.is_none());
    assert_eq!(d.sheet.animations[0].timeline.len(), 1);
}
