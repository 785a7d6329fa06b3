use tiger::document::{Document, DocumentCommand, DocumentError};
use tiger::selection::MultiSelection;
use tiger::sheet::{Sheet, Vec2};
use tiger::view::{Selection, WorkbenchItem};

fn s(v: &str) -> String {
    v.to_string()
}

fn doc_with_frames(paths: &[&str]) -> Document {
    let mut d = Document::new(&s("sheet.tiger"));
    for p in paths {
        d.process_command(DocumentCommand::EndImport(s(p))).unwrap();
    }
    d
}

fn animation_names(sheet: &Sheet) -> Vec<String> {
    sheet.animations.iter().map(|a| a.name.clone()).collect()
}

fn keyframe_selection(d: &Document) -> (Vec<usize>, usize) {
    match &d.view.selection {
        Some(Selection::Keyframe(k)) => (k.items.clone(), k.last_touched_in_range),
        _ => panic!("expected a keyframe selection"),
    }
}

#[test]
fn creating_animations_numbers_their_names() {
    let mut d = doc_with_frames(&[]);
    for _ in 0..3 {
        d.process_command(DocumentCommand::CreateAnimation).unwrap();
        d.process_command(DocumentCommand::EndRenameSelection).unwrap();
    }
    assert_eq!(
        animation_names(&d.sheet),
        vec![s("New Animation"), s("New Animation 2"), s("New Animation 3")]
    );
}

#[test]
fn created_animation_takes_first_free_number() {
    let mut d = doc_with_frames(&[]);
    for _ in 0..3 {
        d.process_command(DocumentCommand::CreateAnimation).unwrap();
    }
    d.process_command(DocumentCommand::SelectAnimations(MultiSelection::new(vec![s("New Animation 2")])))
        .unwrap();
    d.process_command(DocumentCommand::DeleteSelection).unwrap();
    d.process_command(DocumentCommand::CreateAnimation).unwrap();
    assert_eq!(
        animation_names(&d.sheet),
        vec![s("New Animation"), s("New Animation 3"), s("New Animation 2")]
    );
}

#[test]
fn shift_click_selects_range_from_anchor() {
    let all = vec![s("a"), s("b"), s("c"), s("d"), s("e")];
    let current = MultiSelection::new(vec![s("a"), s("b"), s("c")]);
    assert_eq!(current.last_touched_in_range, s("c"));
    let r = MultiSelection::process(s("e"), true, false, &all, Some(&current));
    assert_eq!(r.items, vec![s("c"), s("d"), s("e")]);
    assert_eq!(r.last_touched_in_range, s("e"));
}

#[test]
fn ctrl_click_toggles_and_plain_click_replaces() {
    let all = vec![s("a"), s("b"), s("c")];
    let current = MultiSelection::new(vec![s("a"), s("b")]);
    let off = MultiSelection::process(s("a"), false, true, &all, Some(&current));
    assert_eq!(off.items, vec![s("b")]);
    assert_eq!(off.last_touched_in_range, s("a"));
    let on = MultiSelection::process(s("c"), false, true, &all, Some(&current));
    assert_eq!(on.items, vec![s("a"), s("b"), s("c")]);
    let plain = MultiSelection::process(s("b"), false, false, &all, Some(&current));
    assert_eq!(plain.items, vec![s("b")]);
}

#[test]
fn new_selection_drops_repeated_keys() {
    let m = MultiSelection::new(vec![3usize, 1, 3, 2]);
    assert_eq!(m.items, vec![3, 1, 2]);
    assert_eq!(m.last_touched_in_range, 2);
}

fn doc_with_animation(frames: &[&str]) -> Document {
    let mut d = doc_with_frames(frames);
    d.process_command(DocumentCommand::CreateAnimation).unwrap();
    d.process_command(DocumentCommand::EndRenameSelection).unwrap();
    let paths: Vec<String> = frames.iter().map(|p| s(p)).collect();
    d.process_command(DocumentCommand::InsertKeyframesBefore(paths, 0)).unwrap();
    d
}

#[test]
fn duration_drag_on_single_keyframe() {
    let mut d = doc_with_animation(&["a.png", "b.png"]);
    d.process_command(DocumentCommand::SelectKeyframes(MultiSelection::new(vec![0]))).unwrap();
    assert_eq!(d.sheet.animations[0].timeline[0].duration, 100);
    d.process_command(DocumentCommand::BeginKeyframeDurationDrag(500, 0)).unwrap();
    d.process_command(DocumentCommand::UpdateKeyframeDurationDrag(560, 10)).unwrap();
    assert_eq!(d.sheet.animations[0].timeline[0].duration, 160);
    assert_eq!(d.sheet.animations[0].timeline[1].duration, 100);
    d.process_command(DocumentCommand::UpdateKeyframeDurationDrag(300, 10)).unwrap();
    assert_eq!(d.sheet.animations[0].timeline[0].duration, 10);
    d.process_command(DocumentCommand::EndKeyframeDurationDrag).unwrap();
    assert!(d.transient.is_none());
}

#[test]
fn duration_drag_shares_delta_among_earlier_keyframes() {
    let mut d = doc_with_animation(&["a.png", "b.png", "c.png"]);
    d.process_command(DocumentCommand::SelectKeyframes(MultiSelection::new(vec![0, 1]))).unwrap();
    d.process_command(DocumentCommand::BeginKeyframeDurationDrag(200, 1)).unwrap();
    d.process_command(DocumentCommand::UpdateKeyframeDurationDrag(300, 0)).unwrap();
    assert_eq!(d.sheet.animations[0].timeline[0].duration, 150);
    assert_eq!(d.sheet.animations[0].timeline[1].duration, 150);
    assert_eq!(d.sheet.animations[0].timeline[2].duration, 100);
    assert_eq!(d.view.timeline_clock, 150);
}

#[test]
fn deleting_frame_removes_keyframes_and_selection() {
    let mut d = doc_with_frames(&["a.png", "b.png"]);
    for _ in 0..2 {
        d.process_command(DocumentCommand::CreateAnimation).unwrap();
        d.process_command(DocumentCommand::EndRenameSelection).unwrap();
        d.process_command(DocumentCommand::InsertKeyframesBefore(vec![s("a.png"), s("b.png"), s("a.png")], 0))
            .unwrap();
    }
    d.process_command(DocumentCommand::SelectFrames(MultiSelection::new(vec![s("b.png"), s("a.png")])))
        .unwrap();
    d.process_command(DocumentCommand::DeleteFrame(s("a.png"))).unwrap();
    assert_eq!(d.sheet.frames.len(), 1);
    for a in d.sheet.animations.iter() {
        assert_eq!(a.timeline.len(), 1);
        assert_eq!(a.timeline[0].frame, s("b.png"));
    }
    match &d.view.selection {
        Some(Selection::Frame(f)) => assert_eq!(f.items, vec![s("b.png")]),
        _ => panic!("expected a frame selection"),
    }
}

#[test]
fn deleting_selected_frames_removes_their_keyframes() {
    let mut d = doc_with_animation(&["a.png", "b.png"]);
    d.process_command(DocumentCommand::SelectFrames(MultiSelection::new(vec![s("a.png")]))).unwrap();
    d.process_command(DocumentCommand::DeleteSelection).unwrap();
    assert_eq!(d.sheet.frames.len(), 1);
    assert_eq!(d.sheet.animations[0].timeline.len(), 1);
    assert!(d.view.selection.is_none());
}

#[test]
fn workbench_zoom_clamps() {
    let mut d = doc_with_frames(&[]);
    assert_eq!(d.view.workbench_zoom_level, 1);
    let mut levels = vec![];
    for _ in 0..8 {
        d.process_command(DocumentCommand::WorkbenchZoomIn).unwrap();
        levels.push(d.view.workbench_zoom_level);
    }
    assert_eq!(levels, vec![2, 4, 8, 16, 32, 32, 32, 32]);
    d.process_command(DocumentCommand::WorkbenchResetZoom).unwrap();
    let mut levels = vec![];
    for _ in 0..4 {
        d.process_command(DocumentCommand::WorkbenchZoomOut).unwrap();
        levels.push(d.view.workbench_zoom_level);
    }
    assert_eq!(levels, vec![-2, -4, -4, -4]);
    d.process_command(DocumentCommand::WorkbenchZoomIn).unwrap();
    assert_eq!(d.view.workbench_zoom_level, -2);
    d.process_command(DocumentCommand::WorkbenchZoomIn).unwrap();
    assert_eq!(d.view.workbench_zoom_level, 1);
}

#[test]
fn timeline_zoom_clamps() {
    let mut d = doc_with_frames(&[]);
    for _ in 0..5 {
        d.process_command(DocumentCommand::TimelineZoomIn).unwrap();
    }
    assert_eq!(d.view.timeline_zoom_level, 4);
    for _ in 0..6 {
        d.process_command(DocumentCommand::TimelineZoomOut).unwrap();
    }
    assert_eq!(d.view.timeline_zoom_level, -4);
}

#[test]
fn history_keeps_the_most_recent_hundred_entries() {
    let mut d = doc_with_frames(&[]);
    for i in 0..150 {
        d.process_command(DocumentCommand::EndImport(format!("frame_{}.png", i))).unwrap();
    }
    assert_eq!(d.history_len(), 100);
    assert_eq!(d.history_index(), 99);
    assert_eq!(d.get_version(), 150);
    for _ in 0..200 {
        d.undo().unwrap();
    }
    assert_eq!(d.history_index(), 0);
    assert_eq!(d.sheet.frames.len(), 51);
    assert_eq!(d.get_version(), 51);
}

#[test]
fn undo_and_redo_restore_states() {
    let mut d = doc_with_frames(&["a.png"]);
    let before = d.sheet.clone();
    d.process_command(DocumentCommand::EndImport(s("b.png"))).unwrap();
    let after = d.sheet.clone();
    assert!(before != after);
    d.undo().unwrap();
    assert!(d.sheet == before);
    d.redo().unwrap();
    assert!(d.sheet == after);
}

#[test]
fn version_changes_only_with_content() {
    let mut d = doc_with_frames(&["a.png"]);
    let v = d.get_version();
    d.process_command(DocumentCommand::WorkbenchZoomIn).unwrap();
    assert_eq!(d.get_version(), v);
    d.process_command(DocumentCommand::EndImport(s("b.png"))).unwrap();
    assert_eq!(d.get_version(), v + 1);
}

#[test]
fn view_changes_merge_into_one_entry() {
    let mut d = doc_with_frames(&["a.png"]);
    let len = d.history_len();
    d.process_command(DocumentCommand::EditFrame(s("a.png"))).unwrap();
    assert_eq!(d.history_len(), len + 1);
    d.process_command(DocumentCommand::WorkbenchZoomIn).unwrap();
    d.process_command(DocumentCommand::WorkbenchZoomIn).unwrap();
    assert_eq!(d.history_len(), len + 1);
}

#[test]
fn undo_refused_during_interaction() {
    let mut d = doc_with_frames(&["a.png"]);
    d.process_command(DocumentCommand::BeginFramesDrag).unwrap();
    assert_eq!(d.undo(), Err(DocumentError::UndoOperationNowAllowed));
    assert_eq!(d.redo(), Err(DocumentError::UndoOperationNowAllowed));
}

#[test]
fn failed_command_changes_nothing() {
    let mut d = doc_with_frames(&["a.png"]);
    let sheet = d.sheet.clone();
    let len = d.history_len();
    assert_eq!(
        d.process_command(DocumentCommand::SelectFrames(MultiSelection::new(vec![s("z.png")]))),
        Err(DocumentError::FrameNotInDocument)
    );
    assert_eq!(
        d.process_command(DocumentCommand::EditAnimation(s("nope"))),
        Err(DocumentError::AnimationNotInDocument)
    );
    assert_eq!(d.process_command(DocumentCommand::ReorderKeyframes(0)), Err(DocumentError::NoKeyframeSelected));
    assert_eq!(d.process_command(DocumentCommand::EndRenameSelection), Err(DocumentError::NotRenaming));
    assert!(d.sheet == sheet);
    assert_eq!(d.history_len(), len);
    assert!(d.view.selection.is_none());
}

#[test]
fn stray_command_ends_interaction() {
    let mut d = doc_with_frames(&["a.png"]);
    d.process_command(DocumentCommand::BeginScrub).unwrap();
    assert!(d.transient.is_some());
    d.process_command(DocumentCommand::Pan(Vec2 { x: 3, y: 4 })).unwrap();
    assert!(d.transient.is_some());
    d.process_command(DocumentCommand::ClearSelection).unwrap();
    assert!(d.transient.is_none());
    assert_eq!(d.view.workbench_offset, Vec2 { x: 3, y: 4 });
}

#[test]
fn reorder_moves_selected_keyframes() {
    let mut d = doc_with_animation(&["a.png", "b.png", "c.png", "d.png"]);
    d.process_command(DocumentCommand::SelectKeyframes(MultiSelection::new(vec![0, 2]))).unwrap();
    d.process_command(DocumentCommand::ReorderKeyframes(4)).unwrap();
    let order: Vec<String> = d.sheet.animations[0].timeline.iter().map(|k| k.frame.clone()).collect();
    assert_eq!(order, vec![s("b.png"), s("d.png"), s("a.png"), s("c.png")]);
    assert_eq!(keyframe_selection(&d), (vec![2, 3], 3));
    assert_eq!(d.view.timeline_clock, 200);
}

#[test]
fn scrub_selects_keyframe_under_clock() {
    let mut d = doc_with_animation(&["a.png", "b.png", "c.png"]);
    d.process_command(DocumentCommand::BeginScrub).unwrap();
    d.process_command(DocumentCommand::UpdateScrub(150)).unwrap();
    assert_eq!(keyframe_selection(&d), (vec![1], 1));
    assert_eq!(d.view.timeline_clock, 150);
    d.process_command(DocumentCommand::UpdateScrub(320)).unwrap();
    assert_eq!(keyframe_selection(&d), (vec![0], 0));
    d.process_command(DocumentCommand::EndScrub).unwrap();
    d.process_command(DocumentCommand::SnapToNextFrame).unwrap();
    assert_eq!(d.view.timeline_clock, 200);
}

#[test]
fn rename_animation_follows_workbench() {
    let mut d = doc_with_frames(&[]);
    d.process_command(DocumentCommand::CreateAnimation).unwrap();
    d.process_command(DocumentCommand::UpdateRenameSelection(s("walk"))).unwrap();
    d.process_command(DocumentCommand::EndRenameSelection).unwrap();
    assert_eq!(animation_names(&d.sheet), vec![s("walk")]);
    match &d.view.workbench_item {
        Some(WorkbenchItem::Animation(n)) => assert_eq!(n, "walk"),
        _ => panic!("expected the animation on the workbench"),
    }
    d.process_command(DocumentCommand::CreateAnimation).unwrap();
    d.process_command(DocumentCommand::UpdateRenameSelection(s("walk"))).unwrap();
    assert_eq!(
        d.process_command(DocumentCommand::EndRenameSelection),
        Err(DocumentError::AnimationAlreadyExists)
    );
}

#[test]
fn hitbox_created_then_resized_and_moved() {
    let mut d = doc_with_frames(&["a.png"]);
    d.process_command(DocumentCommand::EditFrame(s("a.png"))).unwrap();
    d.process_command(DocumentCommand::CreateHitbox(Vec2 { x: 5, y: 6 })).unwrap();
    d.process_command(DocumentCommand::UpdateHitboxScale(Vec2 { x: 10, y: 20 }, false)).unwrap();
    d.process_command(DocumentCommand::EndHitboxScale).unwrap();
    let h = &d.sheet.frames[0].hitboxes[0];
    assert_eq!(h.name, s("New Hitbox"));
    let r = h.get_rectangle();
    assert_eq!((r.top_left.x, r.top_left.y, r.size.width, r.size.height), (5, 6, 10, 20));
    d.process_command(DocumentCommand::BeginHitboxDrag).unwrap();
    d.process_command(DocumentCommand::UpdateHitboxDrag(Vec2 { x: 7, y: 2 }, false)).unwrap();
    d.process_command(DocumentCommand::EndHitboxDrag).unwrap();
    let r = d.sheet.frames[0].hitboxes[0].get_rectangle();
    assert_eq!((r.top_left.x, r.top_left.y, r.size.width, r.size.height), (12, 6, 10, 20));
}

#[test]
fn history_keeps_commands_for_undo_and_redo() {
    let mut d = doc_with_frames(&["a.png"]);
    d.process_command(DocumentCommand::EndImport(s("b.png"))).unwrap();
    assert!(matches!(d.get_undo_command(), Some(DocumentCommand::EndImport(p)) if p == "b.png"));
    assert!(d.get_redo_command().is_none());
    d.undo().unwrap();
    assert!(matches!(d.get_redo_command(), Some(DocumentCommand::EndImport(p)) if p == "b.png"));
    assert!(d.transient.is_none());
    d.redo().unwrap();
    assert!(d.get_redo_command().is_none());
    assert_eq!(d.sheet.frames.len(), 2);
}
