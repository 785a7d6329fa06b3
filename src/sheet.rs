//! The content model: frames, animations, keyframes and hitboxes, and the
//! structural edits on them.

use vstd::prelude::*;
use vstd::string::*;

use crate::names::{all_distinct, first_free_name, first_free_name_string, string_views};
use crate::selection::MultiSelection;
use crate::paths::{joined_path, relative_path};

verus! {

/// Longest name, in characters, that an animation may have.
pub const MAX_ANIMATION_NAME_LENGTH: usize = 32;

/// Longest name, in characters, that a hitbox may have.
pub const MAX_HITBOX_NAME_LENGTH: usize = 32;

/// Duration, in milliseconds, of a newly created keyframe.
pub const DEFAULT_KEYFRAME_DURATION: u32 = 100;

/// Errors of the sheet model.
#[derive(Clone, Copy, Debug, PartialEq, Eq, Structural)]
pub enum SheetError {
    AnimationNotFound,
    HitboxNotFound,
    AnimationNameTooLong,
    HitboxNameTooLong,
    AbsoluteToRelativePath,
    InvalidFrameIndex,
}

/// A point or a displacement in pixels.
#[derive(Clone, Copy, Debug, PartialEq, Eq, Structural)]
pub struct Vec2 {
    pub x: i32,
    pub y: i32,
}

/// A width and a height in pixels.
#[derive(Clone, Copy, Debug, PartialEq, Eq, Structural)]
pub struct Size2 {
    pub width: u32,
    pub height: u32,
}

/// An axis-aligned rectangle: integer top-left corner and unsigned size.
#[derive(Clone, Copy, Debug, PartialEq, Eq, Structural)]
pub struct Rectangle {
    pub top_left: Vec2,
    pub size: Size2,
}

/// Hitbox geometry. A closed set of shapes, with room for more.
#[derive(Clone, Copy, Debug, PartialEq, Eq, Structural)]
pub enum Shape {
    Rectangle(Rectangle),
}

/// A named rectangle used as gameplay metadata. A `linked` hitbox follows
/// future structural edits; a `locked` one is left out of selection and resizing.
#[derive(Debug)]
pub struct Hitbox {
    pub name: String,
    pub geometry: Shape,
    pub linked: bool,
    pub locked: bool,
}

/// One entry of an animation's timeline.
#[derive(Debug)]
pub struct Keyframe {
    pub frame: String,
    pub duration: u32,
    pub offset: Vec2,
    pub hitboxes: Vec<Hitbox>,
}

/// One source image of the sheet, with the hitboxes defined on it directly.
#[derive(Debug)]
pub struct Frame {
    pub source: String,
    pub hitboxes: Vec<Hitbox>,
}

/// A named, ordered timeline of keyframes.
#[derive(Debug)]
pub struct Animation {
    pub name: String,
    pub timeline: Vec<Keyframe>,
    pub is_looping: bool,
}

/// How a sheet is exported.
#[derive(Debug)]
pub enum ExportFormat {
    Template(String),
}

/// Where and how a sheet is exported.
#[derive(Debug)]
pub struct ExportSettings {
    pub format: ExportFormat,
    pub texture_destination: String,
    pub metadata_destination: String,
    pub metadata_paths_root: String,
}

/// The content being edited: frames, animations and export settings.
#[derive(Debug)]
pub struct Sheet {
    pub frames: Vec<Frame>,
    pub animations: Vec<Animation>,
    pub export_settings: Option<ExportSettings>,
}

pub ghost struct HitboxModel {
    pub name: Seq<char>,
    pub geometry: Shape,
    pub linked: bool,
    pub locked: bool,
}

pub ghost struct KeyframeModel {
    pub frame: Seq<char>,
    pub duration: u32,
    pub offset: Vec2,
    pub hitboxes: Seq<HitboxModel>,
}

pub ghost struct FrameModel {
    pub source: Seq<char>,
    pub hitboxes: Seq<HitboxModel>,
}

pub ghost struct AnimationModel {
    pub name: Seq<char>,
    pub timeline: Seq<KeyframeModel>,
    pub is_looping: bool,
}

pub ghost enum ExportFormatModel {
    Template(Seq<char>),
}

pub ghost struct ExportSettingsModel {
    pub format: ExportFormatModel,
    pub texture_destination: Seq<char>,
    pub metadata_destination: Seq<char>,
    pub metadata_paths_root: Seq<char>,
}

pub ghost struct SheetModel {
    pub frames: Seq<FrameModel>,
    pub animations: Seq<AnimationModel>,
    pub export_settings: Option<ExportSettingsModel>,
}

pub open spec fn hitboxes_view(v: Seq<Hitbox>) -> Seq<HitboxModel> {
    v.map_values(|h: Hitbox| h@)
}

pub open spec fn timeline_view(v: Seq<Keyframe>) -> Seq<KeyframeModel> {
    v.map_values(|k: Keyframe| k@)
}

pub open spec fn frames_view(v: Seq<Frame>) -> Seq<FrameModel> {
    v.map_values(|f: Frame| f@)
}

pub open spec fn animations_view(v: Seq<Animation>) -> Seq<AnimationModel> {
    v.map_values(|a: Animation| a@)
}

pub open spec fn export_settings_view(e: Option<ExportSettings>) -> Option<ExportSettingsModel> {
    match e {
        Some(s) => Some(s@),
        None => None,
    }
}

impl View for Hitbox {
    type V = HitboxModel;

    open spec fn view(&self) -> HitboxModel {
        HitboxModel {
            name: self.name@,
            geometry: self.geometry,
            linked: self.linked,
            locked: self.locked,
        }
    }
}

impl View for Keyframe {
    type V = KeyframeModel;

    open spec fn view(&self) -> KeyframeModel {
        KeyframeModel {
            frame: self.frame@,
            duration: self.duration,
            offset: self.offset,
            hitboxes: hitboxes_view(self.hitboxes@),
        }
    }
}

impl View for Frame {
    type V = FrameModel;

    open spec fn view(&self) -> FrameModel {
        FrameModel { source: self.source@, hitboxes: hitboxes_view(self.hitboxes@) }
    }
}

impl View for Animation {
    type V = AnimationModel;

    open spec fn view(&self) -> AnimationModel {
        AnimationModel {
            name: self.name@,
            timeline: timeline_view(self.timeline@),
            is_looping: self.is_looping,
        }
    }
}

impl View for ExportFormat {
    type V = ExportFormatModel;

    open spec fn view(&self) -> ExportFormatModel {
        match self {
            ExportFormat::Template(p) => ExportFormatModel::Template(p@),
        }
    }
}

impl View for ExportSettings {
    type V = ExportSettingsModel;

    open spec fn view(&self) -> ExportSettingsModel {
        ExportSettingsModel {
            format: self.format@,
            texture_destination: self.texture_destination@,
            metadata_destination: self.metadata_destination@,
            metadata_paths_root: self.metadata_paths_root@,
        }
    }
}

impl View for Sheet {
    type V = SheetModel;

    open spec fn view(&self) -> SheetModel {
        SheetModel {
            frames: frames_view(self.frames@),
            animations: animations_view(self.animations@),
            export_settings: export_settings_view(self.export_settings),
        }
    }
}

impl Clone for Hitbox {
    fn clone(&self) -> (r: Self)
        ensures
            r@ == self@,
    {
        Hitbox {
            name: self.name.clone(),
            geometry: self.geometry,
            linked: self.linked,
            locked: self.locked,
        }
    }
}

impl Clone for Keyframe {
    fn clone(&self) -> (r: Self)
        ensures
            r@ == self@,
    {
        let hitboxes = self.hitboxes.clone();
        assert(hitboxes_view(hitboxes@) =~= hitboxes_view(self.hitboxes@));
        Keyframe {
            frame: self.frame.clone(),
            duration: self.duration,
            offset: self.offset,
            hitboxes,
        }
    }
}

impl Clone for Frame {
    fn clone(&self) -> (r: Self)
        ensures
            r@ == self@,
    {
        let hitboxes = self.hitboxes.clone();
        assert(hitboxes_view(hitboxes@) =~= hitboxes_view(self.hitboxes@));
        Frame { source: self.source.clone(), hitboxes }
    }
}

impl Clone for Animation {
    fn clone(&self) -> (r: Self)
        ensures
            r@ == self@,
    {
        let timeline = self.timeline.clone();
        assert(timeline_view(timeline@) =~= timeline_view(self.timeline@));
        Animation { name: self.name.clone(), timeline, is_looping: self.is_looping }
    }
}

impl Clone for ExportFormat {
    fn clone(&self) -> (r: Self)
        ensures
            r@ == self@,
    {
        match self {
            ExportFormat::Template(p) => ExportFormat::Template(p.clone()),
        }
    }
}

impl Clone for ExportSettings {
    fn clone(&self) -> (r: Self)
        ensures
            r@ == self@,
    {
        ExportSettings {
            format: self.format.clone(),
            texture_destination: self.texture_destination.clone(),
            metadata_destination: self.metadata_destination.clone(),
            metadata_paths_root: self.metadata_paths_root.clone(),
        }
    }
}

impl Clone for Sheet {
    fn clone(&self) -> (r: Self)
        ensures
            r@ == self@,
    {
        let frames = self.frames.clone();
        assert(frames_view(frames@) =~= frames_view(self.frames@));
        let animations = self.animations.clone();
        assert(animations_view(animations@) =~= animations_view(self.animations@));
        let export_settings = match &self.export_settings {
            Some(e) => Some(e.clone()),
            None => None,
        };
        Sheet { frames, animations, export_settings }
    }
}

impl PartialEq for Hitbox {
    fn eq(&self, o: &Hitbox) -> (r: bool)
        ensures
            r == (self@ == o@),
    {
        self.name == o.name && self.geometry == o.geometry && self.linked == o.linked
            && self.locked == o.locked
    }
}

impl vstd::std_specs::cmp::PartialEqSpecImpl for Hitbox {
    open spec fn obeys_eq_spec() -> bool {
        true
    }

    open spec fn eq_spec(&self, o: &Hitbox) -> bool {
        self@ == o@
    }
}

impl PartialEq for Keyframe {
    fn eq(&self, o: &Keyframe) -> (r: bool)
        ensures
            r == (self@ == o@),
    {
        let same_hitboxes = self.hitboxes == o.hitboxes;
        assert(same_hitboxes ==> hitboxes_view(self.hitboxes@) =~= hitboxes_view(o.hitboxes@));
        assert(hitboxes_view(self.hitboxes@) == hitboxes_view(o.hitboxes@) ==> same_hitboxes) by {
            if hitboxes_view(self.hitboxes@) == hitboxes_view(o.hitboxes@) {
                assert(self.hitboxes@.len() == hitboxes_view(self.hitboxes@).len());
                assert(o.hitboxes@.len() == hitboxes_view(o.hitboxes@).len());
                assert(self.hitboxes@.len() == hitboxes_view(self.hitboxes@).len());
                assert forall|i: int| 0 <= i < self.hitboxes@.len() implies self.hitboxes@[i]@
                    == o.hitboxes@[i]@ by {
                    assert(hitboxes_view(self.hitboxes@)[i] == hitboxes_view(o.hitboxes@)[i]);
                }
            }
        }
        self.frame == o.frame && self.duration == o.duration && self.offset == o.offset
            && same_hitboxes
    }
}

impl vstd::std_specs::cmp::PartialEqSpecImpl for Keyframe {
    open spec fn obeys_eq_spec() -> bool {
        true
    }

    open spec fn eq_spec(&self, o: &Keyframe) -> bool {
        self@ == o@
    }
}

impl PartialEq for Frame {
    fn eq(&self, o: &Frame) -> (r: bool)
        ensures
            r == (self@ == o@),
    {
        let same_hitboxes = self.hitboxes == o.hitboxes;
        assert(same_hitboxes ==> hitboxes_view(self.hitboxes@) =~= hitboxes_view(o.hitboxes@));
        assert(hitboxes_view(self.hitboxes@) == hitboxes_view(o.hitboxes@) ==> same_hitboxes) by {
            if hitboxes_view(self.hitboxes@) == hitboxes_view(o.hitboxes@) {
                assert(self.hitboxes@.len() == hitboxes_view(self.hitboxes@).len());
                assert(o.hitboxes@.len() == hitboxes_view(o.hitboxes@).len());
                assert forall|i: int| 0 <= i < self.hitboxes@.len() implies self.hitboxes@[i]@
                    == o.hitboxes@[i]@ by {
                    assert(hitboxes_view(self.hitboxes@)[i] == hitboxes_view(o.hitboxes@)[i]);
                }
            }
        }
        self.source == o.source && same_hitboxes
    }
}

impl vstd::std_specs::cmp::PartialEqSpecImpl for Frame {
    open spec fn obeys_eq_spec() -> bool {
        true
    }

    open spec fn eq_spec(&self, o: &Frame) -> bool {
        self@ == o@
    }
}

impl PartialEq for Animation {
    fn eq(&self, o: &Animation) -> (r: bool)
        ensures
            r == (self@ == o@),
    {
        let same_timeline = self.timeline == o.timeline;
        assert(same_timeline ==> timeline_view(self.timeline@) =~= timeline_view(o.timeline@));
        assert(timeline_view(self.timeline@) == timeline_view(o.timeline@) ==> same_timeline) by {
            if timeline_view(self.timeline@) == timeline_view(o.timeline@) {
                assert(self.timeline@.len() == timeline_view(self.timeline@).len());
                assert(o.timeline@.len() == timeline_view(o.timeline@).len());
                assert forall|i: int| 0 <= i < self.timeline@.len() implies self.timeline@[i]@
                    == o.timeline@[i]@ by {
                    assert(timeline_view(self.timeline@)[i] == timeline_view(o.timeline@)[i]);
                }
            }
        }
        self.name == o.name && self.is_looping == o.is_looping && same_timeline
    }
}

impl vstd::std_specs::cmp::PartialEqSpecImpl for Animation {
    open spec fn obeys_eq_spec() -> bool {
        true
    }

    open spec fn eq_spec(&self, o: &Animation) -> bool {
        self@ == o@
    }
}

impl PartialEq for ExportFormat {
    fn eq(&self, o: &ExportFormat) -> (r: bool)
        ensures
            r == (self@ == o@),
    {
        let ExportFormat::Template(a) = self;
        let ExportFormat::Template(b) = o;
        assert(self@ == o@ ==> a@ == b@) by {
            if self@ == o@ {
                assert(self@->Template_0 == o@->Template_0);
            }
        }
        *a == *b
    }
}

impl vstd::std_specs::cmp::PartialEqSpecImpl for ExportFormat {
    open spec fn obeys_eq_spec() -> bool {
        true
    }

    open spec fn eq_spec(&self, o: &ExportFormat) -> bool {
        self@ == o@
    }
}

impl PartialEq for ExportSettings {
    fn eq(&self, o: &ExportSettings) -> (r: bool)
        ensures
            r == (self@ == o@),
    {
        self.format == o.format && self.texture_destination == o.texture_destination
            && self.metadata_destination == o.metadata_destination && self.metadata_paths_root
            == o.metadata_paths_root
    }
}

impl vstd::std_specs::cmp::PartialEqSpecImpl for ExportSettings {
    open spec fn obeys_eq_spec() -> bool {
        true
    }

    open spec fn eq_spec(&self, o: &ExportSettings) -> bool {
        self@ == o@
    }
}

impl PartialEq for Sheet {
    fn eq(&self, o: &Sheet) -> (r: bool)
        ensures
            r == (self@ == o@),
    {
        let same_frames = self.frames == o.frames;
        assert(same_frames ==> frames_view(self.frames@) =~= frames_view(o.frames@));
        assert(frames_view(self.frames@) == frames_view(o.frames@) ==> same_frames) by {
            if frames_view(self.frames@) == frames_view(o.frames@) {
                assert(self.frames@.len() == frames_view(self.frames@).len());
                assert(o.frames@.len() == frames_view(o.frames@).len());
                assert forall|i: int| 0 <= i < self.frames@.len() implies self.frames@[i]@
                    == o.frames@[i]@ by {
                    assert(frames_view(self.frames@)[i] == frames_view(o.frames@)[i]);
                }
            }
        }
        let same_animations = self.animations == o.animations;
        assert(same_animations ==> animations_view(self.animations@) =~= animations_view(
            o.animations@,
        ));
        assert(animations_view(self.animations@) == animations_view(o.animations@)
            ==> same_animations) by {
            if animations_view(self.animations@) == animations_view(o.animations@) {
                assert(self.animations@.len() == animations_view(self.animations@).len());
                assert(o.animations@.len() == animations_view(o.animations@).len());
                assert forall|i: int| 0 <= i < self.animations@.len() implies self.animations@[i]@
                    == o.animations@[i]@ by {
                    assert(animations_view(self.animations@)[i] == animations_view(
                        o.animations@,
                    )[i]);
                }
            }
        }
        let same_export = match (&self.export_settings, &o.export_settings) {
            (Some(a), Some(b)) => a == b,
            (None, None) => true,
            _ => false,
        };
        same_frames && same_animations && same_export
    }
}

impl vstd::std_specs::cmp::PartialEqSpecImpl for Sheet {
    open spec fn obeys_eq_spec() -> bool {
        true
    }

    open spec fn eq_spec(&self, o: &Sheet) -> bool {
        self@ == o@
    }
}

pub open spec fn frame_sources(frames: Seq<FrameModel>) -> Seq<Seq<char>> {
    frames.map_values(|f: FrameModel| f.source)
}

pub open spec fn animation_names(animations: Seq<AnimationModel>) -> Seq<Seq<char>> {
    animations.map_values(|a: AnimationModel| a.name)
}

pub open spec fn hitbox_names(hitboxes: Seq<HitboxModel>) -> Seq<Seq<char>> {
    hitboxes.map_values(|h: HitboxModel| h.name)
}

/// Keeps the frames whose source is not `path`.
pub open spec fn other_frame(path: Seq<char>) -> spec_fn(FrameModel) -> bool {
    |f: FrameModel| f.source != path
}

/// Keeps the keyframes that do not show `path`.
pub open spec fn other_keyframe(path: Seq<char>) -> spec_fn(KeyframeModel) -> bool {
    |k: KeyframeModel| k.frame != path
}

/// Keeps the animations not named `name`.
pub open spec fn other_animation(name: Seq<char>) -> spec_fn(AnimationModel) -> bool {
    |a: AnimationModel| a.name != name
}

/// Keeps the hitboxes not named `name`.
pub open spec fn other_hitbox(name: Seq<char>) -> spec_fn(HitboxModel) -> bool {
    |h: HitboxModel| h.name != name
}

/// An animation with the keyframes that show `path` taken out.
pub open spec fn without_keyframes_of(a: AnimationModel, path: Seq<char>) -> AnimationModel {
    AnimationModel { timeline: a.timeline.filter(other_keyframe(path)), ..a }
}

/// Every animation with the keyframes that show `path` taken out.
pub open spec fn strip_keyframes(animations: Seq<AnimationModel>, path: Seq<char>) -> Seq<
    AnimationModel,
> {
    animations.map_values(|a: AnimationModel| without_keyframes_of(a, path))
}

/// A fresh frame for the image at `path`.
pub open spec fn new_frame_model(path: Seq<char>) -> FrameModel {
    FrameModel { source: path, hitboxes: seq![] }
}

/// A fresh, empty, looping animation.
pub open spec fn new_animation_model(name: Seq<char>) -> AnimationModel {
    AnimationModel { name, timeline: seq![], is_looping: true }
}

/// A fresh keyframe showing `path`.
pub open spec fn new_keyframe_model(path: Seq<char>) -> KeyframeModel {
    KeyframeModel {
        frame: path,
        duration: DEFAULT_KEYFRAME_DURATION,
        offset: Vec2 { x: 0, y: 0 },
        hitboxes: seq![],
    }
}

impl SheetModel {
    /// Frame sources, animation names and hitbox names are unique in their scope.
    pub open spec fn wf(self) -> bool {
        &&& frame_sources(self.frames).no_duplicates()
        &&& animation_names(self.animations).no_duplicates()
        &&& forall|i: int|
            0 <= i < self.frames.len() ==> hitbox_names(
                #[trigger] self.frames[i].hitboxes,
            ).no_duplicates()
        &&& forall|i: int, j: int|
            0 <= i < self.animations.len() && 0 <= j < self.animations[i].timeline.len()
                ==> hitbox_names(#[trigger] self.animations[i].timeline[j].hitboxes).no_duplicates()
    }

    pub open spec fn has_frame(self, path: Seq<char>) -> bool {
        frame_sources(self.frames).contains(path)
    }

    pub open spec fn has_animation(self, name: Seq<char>) -> bool {
        animation_names(self.animations).contains(name)
    }

    /// Where the frame with source `path` stands.
    pub open spec fn frame_position(self, path: Seq<char>) -> int {
        choose|i: int| 0 <= i < self.frames.len() && self.frames[i].source == path
    }

    /// Where the animation named `name` stands.
    pub open spec fn animation_position(self, name: Seq<char>) -> int {
        choose|i: int| 0 <= i < self.animations.len() && self.animations[i].name == name
    }

    pub open spec fn frame(self, path: Seq<char>) -> FrameModel {
        self.frames[self.frame_position(path)]
    }

    pub open spec fn animation(self, name: Seq<char>) -> AnimationModel {
        self.animations[self.animation_position(name)]
    }

    /// The sheet with the animation named `name` replaced by `a`.
    pub open spec fn with_animation(self, name: Seq<char>, a: AnimationModel) -> SheetModel {
        SheetModel {
            animations: self.animations.update(self.animation_position(name), a),
            ..self
        }
    }

    /// The sheet with the frame whose source is `path` replaced by `f`.
    pub open spec fn with_frame(self, path: Seq<char>, f: FrameModel) -> SheetModel {
        SheetModel { frames: self.frames.update(self.frame_position(path), f), ..self }
    }

    /// The sheet without the frame at `path` and without the keyframes that show it.
    pub open spec fn without_frame(self, path: Seq<char>) -> SheetModel {
        SheetModel {
            frames: self.frames.filter(other_frame(path)),
            animations: strip_keyframes(self.animations, path),
            ..self
        }
    }
}

/// With unique names, the animation named `name` is the one at `i`.
pub proof fn lemma_animation_position(s: SheetModel, name: Seq<char>, i: int)
    requires
        animation_names(s.animations).no_duplicates(),
        0 <= i < s.animations.len(),
        s.animations[i].name == name,
    ensures
        s.animation_position(name) == i,
        s.has_animation(name),
{
    let j = s.animation_position(name);
    assert(animation_names(s.animations)[i] == name);
    assert(animation_names(s.animations)[j] == name);
}

/// With unique sources, the frame with source `path` is the one at `i`.
pub proof fn lemma_frame_position(s: SheetModel, path: Seq<char>, i: int)
    requires
        frame_sources(s.frames).no_duplicates(),
        0 <= i < s.frames.len(),
        s.frames[i].source == path,
    ensures
        s.frame_position(path) == i,
        s.has_frame(path),
{
    let j = s.frame_position(path);
    assert(frame_sources(s.frames)[i] == path);
    assert(frame_sources(s.frames)[j] == path);
}

proof fn lemma_remove_insert<A>(s: Seq<A>, i: int, x: A)
    requires
        0 <= i < s.len(),
    ensures
        s.remove(i).insert(i, x) == s.update(i, x),
{
    assert(s.remove(i).insert(i, x) =~= s.update(i, x));
}

impl ExportSettings {
    pub open spec fn new_spec() -> ExportSettingsModel {
        ExportSettingsModel {
            format: ExportFormatModel::Template(seq![]),
            texture_destination: seq![],
            metadata_destination: seq![],
            metadata_paths_root: seq![],
        }
    }

    /// Settings with every path empty.
    pub fn new() -> (r: ExportSettings)
        ensures
            r@ == ExportSettings::new_spec(),
    {
        ExportSettings {
            format: ExportFormat::Template(String::new()),
            texture_destination: String::new(),
            metadata_destination: String::new(),
            metadata_paths_root: String::new(),
        }
    }
}

impl Hitbox {
    pub fn get_name(&self) -> (r: &String)
        ensures
            r@ == self.name@,
    {
        &self.name
    }

    pub fn get_rectangle(&self) -> (r: Rectangle)
        ensures
            self.geometry == Shape::Rectangle(r),
    {
        match self.geometry {
            Shape::Rectangle(r) => r,
        }
    }

    pub fn get_position(&self) -> (r: Vec2)
        ensures
            r == self.get_rectangle_spec().top_left,
    {
        self.get_rectangle().top_left
    }

    pub fn get_size(&self) -> (r: Size2)
        ensures
            r == self.get_rectangle_spec().size,
    {
        self.get_rectangle().size
    }

    pub open spec fn get_rectangle_spec(&self) -> Rectangle {
        match self.geometry {
            Shape::Rectangle(r) => r,
        }
    }

    pub fn set_position(&mut self, p: Vec2)
        ensures
            final(self)@ == (HitboxModel {
                geometry: Shape::Rectangle(Rectangle { top_left: p, ..old(self).get_rectangle_spec() }),
                ..old(self)@
            }),
    {
        let r = self.get_rectangle();
        self.geometry = Shape::Rectangle(Rectangle { top_left: p, size: r.size });
    }

    pub fn set_size(&mut self, size: Size2)
        ensures
            final(self)@ == (HitboxModel {
                geometry: Shape::Rectangle(Rectangle { size, ..old(self).get_rectangle_spec() }),
                ..old(self)@
            }),
    {
        let r = self.get_rectangle();
        self.geometry = Shape::Rectangle(Rectangle { top_left: r.top_left, size });
    }
}

impl Keyframe {
    pub fn new(frame: &String) -> (r: Keyframe)
        ensures
            r@ == new_keyframe_model(frame@),
    {
        let r = Keyframe {
            frame: frame.clone(),
            duration: DEFAULT_KEYFRAME_DURATION,
            offset: Vec2 { x: 0, y: 0 },
            hitboxes: Vec::new(),
        };
        assert(hitboxes_view(r.hitboxes@) =~= seq![]);
        r
    }

    pub fn get_frame(&self) -> (r: &String)
        ensures
            r@ == self.frame@,
    {
        &self.frame
    }

    pub fn get_duration(&self) -> (r: u32)
        ensures
            r == self.duration,
    {
        self.duration
    }

    pub fn get_offset(&self) -> (r: Vec2)
        ensures
            r == self.offset,
    {
        self.offset
    }

    pub fn set_duration(&mut self, d: u32)
        ensures
            final(self)@ == (KeyframeModel { duration: d, ..old(self)@ }),
    {
        self.duration = d;
    }

    pub fn set_offset(&mut self, o: Vec2)
        ensures
            final(self)@ == (KeyframeModel { offset: o, ..old(self)@ }),
    {
        self.offset = o;
    }
}

impl Frame {
    pub fn new(path: &String) -> (r: Frame)
        ensures
            r@ == new_frame_model(path@),
    {
        let r = Frame { source: path.clone(), hitboxes: Vec::new() };
        assert(hitboxes_view(r.hitboxes@) =~= seq![]);
        r
    }

    pub fn get_source(&self) -> (r: &String)
        ensures
            r@ == self.source@,
    {
        &self.source
    }

    /// Where the hitbox named `name` stands, if the frame has one.
    pub fn hitbox_index(&self, name: &String) -> (r: Option<usize>)
        ensures
            match r {
                Some(i) => i < self.hitboxes@.len() && self@.hitboxes[i as int].name == name@,
                None => !hitbox_names(self@.hitboxes).contains(name@),
            },
    {
        let mut i: usize = 0;
        while i < self.hitboxes.len()
            invariant
                i <= self.hitboxes@.len(),
                forall|j: int| 0 <= j < i ==> self@.hitboxes[j].name != name@,
            decreases self.hitboxes.len() - i,
        {
            if self.hitboxes[i].name == *name {
                return Some(i);
            }
            i += 1;
        }
        proof {
            if hitbox_names(self@.hitboxes).contains(name@) {
                let j = choose|j: int|
                    0 <= j < hitbox_names(self@.hitboxes).len() && hitbox_names(
                        self@.hitboxes,
                    )[j] == name@;
                assert(self@.hitboxes[j].name == name@);
            }
        }
        None
    }

    /// The hitbox named `name`, if any.
    pub fn get_hitbox(&self, name: &String) -> (r: Option<&Hitbox>)
        ensures
            match r {
                Some(h) => h@.name == name@ && self@.hitboxes.contains(h@),
                None => !hitbox_names(self@.hitboxes).contains(name@),
            },
    {
        match self.hitbox_index(name) {
            Some(i) => {
                assert(self@.hitboxes[i as int] == self.hitboxes@[i as int]@);
                Some(&self.hitboxes[i])
            },
            None => None,
        }
    }

    pub fn has_hitbox(&self, name: &String) -> (r: bool)
        ensures
            r == hitbox_names(self@.hitboxes).contains(name@),
    {
        match self.hitbox_index(name) {
            Some(i) => {
                assert(hitbox_names(self@.hitboxes)[i as int] == name@);
                true
            },
            None => false,
        }
    }

    /// Whether every key of `names` is a hitbox of the frame.
    pub fn has_hitboxes(&self, names: &MultiSelection<String>) -> (r: bool)
        ensures
            r == forall|i: int| 0 <= i < names.keys().len() ==> hitbox_names(self@.hitboxes).contains(#[trigger] names.keys()[i]),
    {
        let mut i: usize = 0;
        while i < names.items.len()
            invariant
                i <= names.items@.len(),
                forall|j: int| 0 <= j < i ==> hitbox_names(self@.hitboxes).contains(#[trigger] names.keys()[j]),
            decreases names.items.len() - i,
        {
            if !self.has_hitbox(&names.items[i]) {
                assert(!hitbox_names(self@.hitboxes).contains(names.keys()[i as int]));
                return false;
            }
            i += 1;
        }
        true
    }

    fn hitbox_name_list(&self) -> (r: Vec<String>)
        ensures
            string_views(r@) == hitbox_names(self@.hitboxes),
    {
        let mut r: Vec<String> = Vec::new();
        let mut i: usize = 0;
        while i < self.hitboxes.len()
            invariant
                i <= self.hitboxes@.len(),
                string_views(r@) == hitbox_names(self@.hitboxes).take(i as int),
            decreases self.hitboxes.len() - i,
        {
            let ghost before = r@;
            r.push(self.hitboxes[i].name.clone());
            assert(r@ == before.push(r@.last()));
            assert(self@.hitboxes[i as int] == self.hitboxes@[i as int]@);
            assert(hitbox_names(self@.hitboxes).len() == self.hitboxes@.len());
            assert(string_views(before).len() == before.len());
            assert(before.len() == i);
            assert forall|j: int| 0 <= j < i implies string_views(r@)[j] == string_views(before)[j] by {
                assert(r@[j] == before[j]);
            }
            assert(string_views(r@) =~= hitbox_names(self@.hitboxes).take(i + 1));
            i += 1;
        }
        assert(hitbox_names(self@.hitboxes).take(i as int) =~= hitbox_names(self@.hitboxes));
        r
    }

    /// Adds an empty hitbox at the origin under the first free name among
    /// "New Hitbox", "New Hitbox 2", ...; returns that name.
    pub fn add_hitbox(&mut self) -> (name: String)
        requires
            hitbox_names(old(self)@.hitboxes).no_duplicates(),
        ensures
            name@ == first_free_name("New Hitbox"@, hitbox_names(old(self)@.hitboxes)),
            !hitbox_names(old(self)@.hitboxes).contains(name@),
            final(self)@ == (FrameModel {
                hitboxes: old(self)@.hitboxes.push(
                    HitboxModel {
                        name: name@,
                        geometry: Shape::Rectangle(
                            Rectangle {
                                top_left: Vec2 { x: 0, y: 0 },
                                size: Size2 { width: 0, height: 0 },
                            },
                        ),
                        linked: true,
                        locked: false,
                    },
                ),
                ..old(self)@
            }),
            hitbox_names(final(self)@.hitboxes).no_duplicates(),
    {
        let taken = self.hitbox_name_list();
        let name = first_free_name_string("New Hitbox", &taken);
        let h = Hitbox {
            name: name.clone(),
            geometry: Shape::Rectangle(
                Rectangle { top_left: Vec2 { x: 0, y: 0 }, size: Size2 { width: 0, height: 0 } },
            ),
            linked: true,
            locked: false,
        };
        self.hitboxes.push(h);
        assert(hitboxes_view(self.hitboxes@) =~= hitboxes_view(old(self).hitboxes@).push(h@));
        assert(hitbox_names(self@.hitboxes) =~= hitbox_names(old(self)@.hitboxes).push(name@));
        name
    }

    /// Renames hitbox `old_name` to `new_name`.
    pub fn rename_hitbox(&mut self, old_name: &String, new_name: &String) -> (r: Result<
        (),
        SheetError,
    >)
        ensures
            new_name@.len() > MAX_HITBOX_NAME_LENGTH ==> r == Err::<(), SheetError>(
                SheetError::HitboxNameTooLong,
            ),
            new_name@.len() <= MAX_HITBOX_NAME_LENGTH && !hitbox_names(
                old(self)@.hitboxes,
            ).contains(old_name@) ==> r == Err::<(), SheetError>(SheetError::HitboxNotFound),
            r.is_err() ==> final(self)@ == old(self)@,
            r.is_ok() ==> exists|i: int|
                0 <= i < old(self)@.hitboxes.len() && old(self)@.hitboxes[i].name == old_name@
                    && final(self)@ == (FrameModel {
                    hitboxes: old(self)@.hitboxes.update(
                        i,
                        HitboxModel { name: new_name@, ..old(self)@.hitboxes[i] },
                    ),
                    ..old(self)@
                }),
            r.is_ok() <==> new_name@.len() <= MAX_HITBOX_NAME_LENGTH && hitbox_names(
                old(self)@.hitboxes,
            ).contains(old_name@),
    {
        if new_name.as_str().unicode_len() > MAX_HITBOX_NAME_LENGTH {
            return Err(SheetError::HitboxNameTooLong);
        }
        match self.hitbox_index(old_name) {
            None => Err(SheetError::HitboxNotFound),
            Some(i) => {
                let mut h = self.hitboxes.remove(i);
                h.name = new_name.clone();
                self.hitboxes.insert(i, h);
                proof {
                    lemma_remove_insert(old(self).hitboxes@, i as int, h);
                    assert(hitboxes_view(self.hitboxes@) =~= old(self)@.hitboxes.update(
                        i as int,
                        HitboxModel { name: new_name@, ..old(self)@.hitboxes[i as int] },
                    ));
                    assert(hitbox_names(old(self)@.hitboxes)[i as int] == old_name@);
                }
                Ok(())
            },
        }
    }
}

/// Sum of the durations of a timeline, in milliseconds.
pub open spec fn timeline_duration(t: Seq<KeyframeModel>) -> nat
    decreases t.len(),
{
    if t.len() == 0 {
        0
    } else {
        timeline_duration(t.drop_last()) + t.last().duration as nat
    }
}

/// When keyframe `i` of a timeline starts, in milliseconds.
pub open spec fn start_time(t: Seq<KeyframeModel>, i: int) -> nat {
    timeline_duration(t.take(i))
}

/// Keyframe `i` is the first one still running at time `time`.
pub open spec fn is_keyframe_at(t: Seq<KeyframeModel>, time: nat, i: int) -> bool {
    &&& 0 <= i < t.len()
    &&& time < start_time(t, i + 1)
    &&& forall|j: int| 0 <= j < i ==> time >= #[trigger] start_time(t, j + 1)
}

/// The keyframe shown at `time`: undefined for a timeline of no length;
/// a looping animation wraps the time around; past the end, the last keyframe.
pub open spec fn keyframe_at(a: AnimationModel, time: nat) -> Option<int> {
    let d = timeline_duration(a.timeline);
    if a.timeline.len() == 0 || d == 0 || d > u64::MAX {
        None
    } else if exists|i: int| is_keyframe_at(a.timeline, wrapped_time(a, time), i) {
        Some(choose|i: int| is_keyframe_at(a.timeline, wrapped_time(a, time), i))
    } else {
        Some(a.timeline.len() - 1)
    }
}

/// The time within the animation: wrapped around for a looping one.
pub open spec fn wrapped_time(a: AnimationModel, time: nat) -> nat {
    if a.is_looping {
        time % timeline_duration(a.timeline)
    } else {
        time
    }
}

pub proof fn lemma_start_time_step(t: Seq<KeyframeModel>, i: int)
    requires
        0 <= i < t.len(),
    ensures
        start_time(t, i + 1) == start_time(t, i) + t[i].duration,
{
    assert(t.take(i + 1).drop_last() =~= t.take(i));
}

pub proof fn lemma_start_time_monotonic(t: Seq<KeyframeModel>, i: int, j: int)
    requires
        0 <= i <= j <= t.len(),
    ensures
        start_time(t, i) <= start_time(t, j),
    decreases j - i,
{
    if i < j {
        lemma_start_time_step(t, j - 1);
        lemma_start_time_monotonic(t, i, j - 1);
    }
}

pub proof fn lemma_start_time_end(t: Seq<KeyframeModel>)
    ensures
        start_time(t, t.len() as int) == timeline_duration(t),
{
    assert(t.take(t.len() as int) =~= t);
}

impl Animation {
    pub fn new(name: &String) -> (r: Animation)
        ensures
            r@ == new_animation_model(name@),
    {
        let r = Animation { name: name.clone(), timeline: Vec::new(), is_looping: true };
        assert(timeline_view(r.timeline@) =~= seq![]);
        r
    }

    pub fn get_name(&self) -> (r: &String)
        ensures
            r@ == self.name@,
    {
        &self.name
    }

    pub fn get_num_frames(&self) -> (r: usize)
        ensures
            r == self@.timeline.len(),
    {
        self.timeline.len()
    }

    pub fn is_looping(&self) -> (r: bool)
        ensures
            r == self.is_looping,
    {
        self.is_looping
    }

    pub fn set_is_looping(&mut self, looping: bool)
        ensures
            final(self)@ == (AnimationModel { is_looping: looping, ..old(self)@ }),
    {
        self.is_looping = looping;
    }

    /// When keyframe `index` starts, in milliseconds; `None` past the end of the
    /// timeline, or where the time does not fit in 64 bits.
    pub fn keyframe_start_time(&self, index: usize) -> (r: Option<u64>)
        ensures
            r == (if index < self@.timeline.len() && start_time(self@.timeline, index as int)
                <= u64::MAX {
                Some(start_time(self@.timeline, index as int) as u64)
            } else {
                None::<u64>
            }),
    {
        if index >= self.timeline.len() {
            return None;
        }
        let ghost t = self@.timeline;
        let mut cursor: u64 = 0;
        let mut i: usize = 0;
        assert(t.take(0) =~= seq![]);
        while i < index
            invariant
                i <= index < t.len(),
                t == self@.timeline,
                cursor == start_time(t, i as int),
            decreases index - i,
        {
            proof {
                lemma_start_time_step(t, i as int);
                assert(t[i as int] == self.timeline@[i as int]@);
            }
            let d = self.timeline[i].duration as u64;
            if cursor > u64::MAX - d {
                proof {
                    lemma_start_time_monotonic(t, i + 1, index as int);
                }
                return None;
            }
            cursor = cursor + d;
            i += 1;
        }
        Some(cursor)
    }

    /// Sum of the keyframe durations; `None` for an empty timeline, or where the
    /// sum does not fit in 64 bits.
    pub fn get_duration(&self) -> (r: Option<u64>)
        ensures
            r == (if self@.timeline.len() > 0 && timeline_duration(self@.timeline) <= u64::MAX {
                Some(timeline_duration(self@.timeline) as u64)
            } else {
                None::<u64>
            }),
    {
        let ghost t = self@.timeline;
        if self.timeline.len() == 0 {
            return None;
        }
        let mut cursor: u64 = 0;
        let mut i: usize = 0;
        assert(t.take(0) =~= seq![]);
        while i < self.timeline.len()
            invariant
                i <= t.len(),
                t.len() == self.timeline@.len(),
                t == self@.timeline,
                cursor == start_time(t, i as int),
            decreases self.timeline.len() - i,
        {
            proof {
                lemma_start_time_step(t, i as int);
                assert(t[i as int] == self.timeline@[i as int]@);
            }
            let d = self.timeline[i].duration as u64;
            if cursor > u64::MAX - d {
                proof {
                    lemma_start_time_monotonic(t, i + 1, t.len() as int);
                    lemma_start_time_end(t);
                }
                return None;
            }
            cursor = cursor + d;
            i += 1;
        }
        proof {
            lemma_start_time_end(t);
        }
        Some(cursor)
    }

    /// Index of the keyframe shown at `time` (see `keyframe_at`).
    pub fn get_frame_at(&self, time: u64) -> (r: Option<usize>)
        ensures
            match keyframe_at(self@, time as nat) {
                Some(i) => r == Some(i as usize),
                None => r is None,
            },
    {
        let ghost t = self@.timeline;
        let duration = match self.get_duration() {
            None => return None,
            Some(d) => d,
        };
        if duration == 0 {
            return None;
        }
        let clock = if self.is_looping {
            time % duration
        } else {
            time
        };
        proof {
            lemma_start_time_end(t);
        }
        let mut cursor: u64 = 0;
        let mut i: usize = 0;
        assert(t.take(0) =~= seq![]);
        while i < self.timeline.len()
            invariant
                i <= t.len(),
                t.len() == self.timeline@.len(),
                t == self@.timeline,
                cursor == start_time(t, i as int),
                start_time(t, t.len() as int) == duration,
                duration as nat == timeline_duration(t),
                0 < duration,
                self@.timeline.len() > 0,
                clock as nat == (if self@.is_looping {
                    (time as nat) % (duration as nat)
                } else {
                    time as nat
                }),
                forall|j: int| 0 <= j < i ==> clock >= #[trigger] start_time(t, j + 1),
            decreases self.timeline.len() - i,
        {
            proof {
                lemma_start_time_step(t, i as int);
                lemma_start_time_monotonic(t, i + 1, t.len() as int);
                lemma_start_time_end(t);
                assert(t[i as int] == self.timeline@[i as int]@);
            }
            cursor = cursor + self.timeline[i].duration as u64;
            if clock < cursor {
                proof {
                    assert(is_keyframe_at(t, clock as nat, i as int));
                    let c = choose|c: int| is_keyframe_at(t, clock as nat, c);
                    if c < i {
                        assert(clock >= start_time(t, c + 1));
                    } else if i < c {
                        assert(clock >= start_time(t, i + 1));
                    }
                    let d = timeline_duration(t);
                    assert(d == duration as nat);
                    let tt: nat = if self@.is_looping { (time as nat) % d } else { time as nat };
                    assert(tt == clock as nat);
                    assert(wrapped_time(self@, time as nat) == tt);
                    assert(exists|c: int| is_keyframe_at(t, tt, c));
                    let c2 = choose|c: int| is_keyframe_at(self@.timeline, tt, c);
                    assert(is_keyframe_at(self@.timeline, tt, c2));
                    if c2 < i {
                        assert(clock >= start_time(t, c2 + 1));
                    } else if i < c2 {
                        assert(clock >= start_time(t, i + 1));
                    }
                    assert(self@.timeline.len() != 0);
                    assert(!(d > u64::MAX));
                    assert(keyframe_at(self@, time as nat) == Some(c2));
                    assert(keyframe_at(self@, time as nat) == Some(i as int));
                }
                return Some(i);
            }
            i += 1;
        }
        proof {
            lemma_start_time_end(t);
            assert(!exists|c: int| is_keyframe_at(t, clock as nat, c));
        }
        Some(self.timeline.len() - 1)
    }

    /// Keyframe `index`, if the timeline has one.
    pub fn get_frame(&self, index: usize) -> (r: Option<&Keyframe>)
        ensures
            match r {
                Some(k) => index < self@.timeline.len() && k@ == self@.timeline[index as int],
                None => index >= self@.timeline.len(),
            },
    {
        if index >= self.timeline.len() {
            return None;
        }
        Some(&self.timeline[index])
    }

    /// When each keyframe starts; `None` for an empty timeline or one whose
    /// duration does not fit in 64 bits.
    pub fn get_frame_times(&self) -> (r: Option<Vec<u64>>)
        ensures
            match r {
                Some(v) => self@.timeline.len() > 0 && timeline_duration(self@.timeline) <= u64::MAX
                    && v@.len() == self@.timeline.len()
                    && forall|i: int| 0 <= i < v@.len() ==> #[trigger] v@[i] as nat == start_time(self@.timeline, i),
                None => self@.timeline.len() == 0 || timeline_duration(self@.timeline) > u64::MAX,
            },
    {
        let ghost t = self@.timeline;
        if self.get_duration().is_none() {
            return None;
        }
        let mut v: Vec<u64> = Vec::new();
        let mut cursor: u64 = 0;
        let mut i: usize = 0;
        assert(t.take(0) =~= seq![]);
        while i < self.timeline.len()
            invariant
                i <= t.len(),
                t.len() == self.timeline@.len(),
                t == self@.timeline,
                timeline_duration(t) <= u64::MAX,
                cursor == start_time(t, i as int),
                v@.len() == i,
                forall|j: int| 0 <= j < i ==> #[trigger] v@[j] as nat == start_time(t, j),
            decreases self.timeline.len() - i,
        {
            proof {
                lemma_start_time_step(t, i as int);
                lemma_start_time_monotonic(t, i + 1, t.len() as int);
                lemma_start_time_end(t);
                assert(t[i as int] == self.timeline@[i as int]@);
            }
            v.push(cursor);
            cursor = cursor + self.timeline[i].duration as u64;
            i += 1;
        }
        Some(v)
    }

    /// Inserts a fresh keyframe showing `frame` at `index`.
    pub fn create_frame(&mut self, frame: &String, index: usize) -> (r: Result<(), SheetError>)
        ensures
            r.is_ok() <==> index <= old(self)@.timeline.len(),
            r.is_err() ==> r == Err::<(), SheetError>(SheetError::InvalidFrameIndex) && final(self)@ == old(self)@,
            r.is_ok() ==> final(self)@ == (AnimationModel {
                timeline: old(self)@.timeline.insert(index as int, new_keyframe_model(frame@)),
                ..old(self)@
            }),
    {
        self.insert_frame(Keyframe::new(frame), index)
    }

    /// Inserts `keyframe` at `index`.
    pub fn insert_frame(&mut self, keyframe: Keyframe, index: usize) -> (r: Result<(), SheetError>)
        ensures
            r.is_ok() <==> index <= old(self)@.timeline.len(),
            r.is_err() ==> r == Err::<(), SheetError>(SheetError::InvalidFrameIndex) && final(self)@ == old(self)@,
            r.is_ok() ==> final(self)@ == (AnimationModel {
                timeline: old(self)@.timeline.insert(index as int, keyframe@),
                ..old(self)@
            }),
    {
        if index > self.timeline.len() {
            return Err(SheetError::InvalidFrameIndex);
        }
        self.timeline.insert(index, keyframe);
        assert(timeline_view(self.timeline@) =~= timeline_view(old(self).timeline@).insert(
            index as int,
            keyframe@,
        ));
        Ok(())
    }

    /// Removes and returns the keyframe at `index`.
    pub fn take_frame(&mut self, index: usize) -> (r: Result<Keyframe, SheetError>)
        ensures
            r.is_ok() <==> index < old(self)@.timeline.len(),
            r.is_err() ==> r == Err::<Keyframe, SheetError>(SheetError::InvalidFrameIndex)
                && final(self)@ == old(self)@,
            r.is_ok() ==> final(self)@ == (AnimationModel {
                timeline: old(self)@.timeline.remove(index as int),
                ..old(self)@
            }) && r->Ok_0@ == old(self)@.timeline[index as int],
    {
        if index >= self.timeline.len() {
            return Err(SheetError::InvalidFrameIndex);
        }
        let k = self.timeline.remove(index);
        assert(timeline_view(self.timeline@) =~= timeline_view(old(self).timeline@).remove(
            index as int,
        ));
        Ok(k)
    }
}

/// The frames of `frames` whose source is not `path`, in order.
fn frames_without(frames: &Vec<Frame>, path: &String) -> (r: Vec<Frame>)
    ensures
        frames_view(r@) == frames_view(frames@).filter(other_frame(path@)),
{
    let ghost all = frames_view(frames@);
    let mut r: Vec<Frame> = Vec::new();
    let mut i: usize = 0;
    assert(all.take(0) =~= seq![]);
    while i < frames.len()
        invariant
            i <= frames@.len(),
            all == frames_view(frames@),
            frames_view(r@) == all.take(i as int).filter(other_frame(path@)),
        decreases frames.len() - i,
    {
        let ghost before = r@;
        proof {
            assert(all.take(i + 1) =~= all.take(i as int).push(all[i as int]));
            all.take(i as int).lemma_filter_push(all[i as int], other_frame(path@));
        }
        if frames[i].source != *path {
            let f = frames[i].clone();
            r.push(f);
            assert(frames_view(r@) =~= frames_view(before).push(f@));
        }
        i += 1;
    }
    assert(all.take(i as int) =~= all);
    r
}

/// The keyframes of `timeline` that do not show `path`, in order.
fn keyframes_without(timeline: &Vec<Keyframe>, path: &String) -> (r: Vec<Keyframe>)
    ensures
        timeline_view(r@) == timeline_view(timeline@).filter(other_keyframe(path@)),
{
    let ghost all = timeline_view(timeline@);
    let mut r: Vec<Keyframe> = Vec::new();
    let mut i: usize = 0;
    assert(all.take(0) =~= seq![]);
    while i < timeline.len()
        invariant
            i <= timeline@.len(),
            all == timeline_view(timeline@),
            timeline_view(r@) == all.take(i as int).filter(other_keyframe(path@)),
        decreases timeline.len() - i,
    {
        let ghost before = r@;
        proof {
            assert(all.take(i + 1) =~= all.take(i as int).push(all[i as int]));
            all.take(i as int).lemma_filter_push(all[i as int], other_keyframe(path@));
        }
        if timeline[i].frame != *path {
            let k = timeline[i].clone();
            r.push(k);
            assert(timeline_view(r@) =~= timeline_view(before).push(k@));
        }
        i += 1;
    }
    assert(all.take(i as int) =~= all);
    r
}

/// The animations of `animations` not named `name`, in order.
fn animations_without(animations: &Vec<Animation>, name: &String) -> (r: Vec<Animation>)
    ensures
        animations_view(r@) == animations_view(animations@).filter(other_animation(name@)),
{
    let ghost all = animations_view(animations@);
    let mut r: Vec<Animation> = Vec::new();
    let mut i: usize = 0;
    assert(all.take(0) =~= seq![]);
    while i < animations.len()
        invariant
            i <= animations@.len(),
            all == animations_view(animations@),
            animations_view(r@) == all.take(i as int).filter(other_animation(name@)),
        decreases animations.len() - i,
    {
        let ghost before = r@;
        proof {
            assert(all.take(i + 1) =~= all.take(i as int).push(all[i as int]));
            all.take(i as int).lemma_filter_push(all[i as int], other_animation(name@));
        }
        if animations[i].name != *name {
            let a = animations[i].clone();
            r.push(a);
            assert(animations_view(r@) =~= animations_view(before).push(a@));
        }
        i += 1;
    }
    assert(all.take(i as int) =~= all);
    r
}

/// The hitboxes of `hitboxes` not named `name`, in order.
pub fn hitboxes_without(hitboxes: &Vec<Hitbox>, name: &String) -> (r: Vec<Hitbox>)
    ensures
        hitboxes_view(r@) == hitboxes_view(hitboxes@).filter(other_hitbox(name@)),
{
    let ghost all = hitboxes_view(hitboxes@);
    let mut r: Vec<Hitbox> = Vec::new();
    let mut i: usize = 0;
    assert(all.take(0) =~= seq![]);
    while i < hitboxes.len()
        invariant
            i <= hitboxes@.len(),
            all == hitboxes_view(hitboxes@),
            hitboxes_view(r@) == all.take(i as int).filter(other_hitbox(name@)),
        decreases hitboxes.len() - i,
    {
        let ghost before = r@;
        proof {
            assert(all.take(i + 1) =~= all.take(i as int).push(all[i as int]));
            all.take(i as int).lemma_filter_push(all[i as int], other_hitbox(name@));
        }
        if hitboxes[i].name != *name {
            let h = hitboxes[i].clone();
            r.push(h);
            assert(hitboxes_view(r@) =~= hitboxes_view(before).push(h@));
        }
        i += 1;
    }
    assert(all.take(i as int) =~= all);
    r
}

/// A filtered sequence keeps the no-duplicates property of a projection.
pub proof fn lemma_filter_keeps_unique<A, K>(s: Seq<A>, p: spec_fn(A) -> bool, key: spec_fn(A) -> K)
    requires
        s.map_values(key).no_duplicates(),
    ensures
        s.filter(p).map_values(key).no_duplicates(),
    decreases s.len(),
{
    reveal(Seq::filter);
    if s.len() > 0 {
        let init = s.drop_last();
        assert(init.map_values(key) =~= s.map_values(key).drop_last());
        lemma_filter_keeps_unique(init, p, key);
        assert(s =~= init.push(s.last()));
        init.lemma_filter_push(s.last(), p);
        if p(s.last()) {
            let f = init.filter(p);
            assert(s.filter(p).map_values(key) =~= f.map_values(key).push(key(s.last())));
            assert forall|x: A| f.contains(x) implies key(x) != key(s.last()) by {
                init.lemma_filter_contains_rev(p, x);
                let j = choose|j: int| 0 <= j < init.len() && init[j] == x;
                assert(s.map_values(key)[j] == key(x));
                assert(s.map_values(key)[s.len() - 1] == key(s.last()));
            }
            assert forall|a: int, b: int|
                0 <= a < b < s.filter(p).map_values(key).len() implies s.filter(p).map_values(
                key,
            )[a] != s.filter(p).map_values(key)[b] by {
                if b == f.len() {
                    assert(f.contains(f[a]));
                }
            }
        }
    }
}

impl Sheet {
    pub open spec fn wf(&self) -> bool {
        self@.wf()
    }

    pub open spec fn new_spec() -> SheetModel {
        SheetModel { frames: seq![], animations: seq![], export_settings: None }
    }

    /// An empty sheet.
    pub fn new() -> (r: Sheet)
        ensures
            r@ == Sheet::new_spec(),
            r.wf(),
    {
        let r = Sheet { frames: Vec::new(), animations: Vec::new(), export_settings: None };
        assert(r@.frames =~= seq![]);
        assert(r@.animations =~= seq![]);
        r
    }

    /// Where the frame with source `path` stands, if the sheet has one.
    pub fn frame_index(&self, path: &String) -> (r: Option<usize>)
        ensures
            match r {
                Some(i) => i < self@.frames.len() && self@.frames[i as int].source == path@,
                None => !self@.has_frame(path@),
            },
    {
        let mut i: usize = 0;
        while i < self.frames.len()
            invariant
                i <= self.frames@.len(),
                forall|j: int| 0 <= j < i ==> self@.frames[j].source != path@,
            decreases self.frames.len() - i,
        {
            if self.frames[i].source == *path {
                return Some(i);
            }
            i += 1;
        }
        proof {
            if self@.has_frame(path@) {
                let j = choose|j: int|
                    0 <= j < frame_sources(self@.frames).len() && frame_sources(self@.frames)[j]
                        == path@;
                assert(self@.frames[j].source == path@);
            }
        }
        None
    }

    /// Where the animation named `name` stands, if the sheet has one.
    pub fn animation_index(&self, name: &String) -> (r: Option<usize>)
        ensures
            match r {
                Some(i) => i < self@.animations.len() && self@.animations[i as int].name == name@,
                None => !self@.has_animation(name@),
            },
    {
        let mut i: usize = 0;
        while i < self.animations.len()
            invariant
                i <= self.animations@.len(),
                forall|j: int| 0 <= j < i ==> self@.animations[j].name != name@,
            decreases self.animations.len() - i,
        {
            if self.animations[i].name == *name {
                return Some(i);
            }
            i += 1;
        }
        proof {
            if self@.has_animation(name@) {
                let j = choose|j: int|
                    0 <= j < animation_names(self@.animations).len() && animation_names(
                        self@.animations,
                    )[j] == name@;
                assert(self@.animations[j].name == name@);
            }
        }
        None
    }

    pub fn has_frame(&self, path: &String) -> (r: bool)
        ensures
            r == self@.has_frame(path@),
    {
        match self.frame_index(path) {
            Some(i) => {
                assert(frame_sources(self@.frames)[i as int] == path@);
                true
            },
            None => false,
        }
    }

    pub fn has_animation(&self, name: &String) -> (r: bool)
        ensures
            r == self@.has_animation(name@),
    {
        match self.animation_index(name) {
            Some(i) => {
                assert(animation_names(self@.animations)[i as int] == name@);
                true
            },
            None => false,
        }
    }

    /// The animation named `name`, if any.
    pub fn get_animation(&self, name: &String) -> (r: Option<&Animation>)
        requires
            self.wf(),
        ensures
            match r {
                Some(a) => self@.has_animation(name@) && a@ == self@.animation(name@),
                None => !self@.has_animation(name@),
            },
    {
        match self.animation_index(name) {
            Some(i) => {
                proof {
                    lemma_animation_position(self@, name@, i as int);
                }
                Some(&self.animations[i])
            },
            None => None,
        }
    }

    /// The frame whose source is `path`, if any.
    pub fn get_frame(&self, path: &String) -> (r: Option<&Frame>)
        requires
            self.wf(),
        ensures
            match r {
                Some(f) => self@.has_frame(path@) && f@ == self@.frame(path@),
                None => !self@.has_frame(path@),
            },
    {
        match self.frame_index(path) {
            Some(i) => {
                proof {
                    lemma_frame_position(self@, path@, i as int);
                }
                Some(&self.frames[i])
            },
            None => None,
        }
    }

    /// Adds a frame for the image at `path`, unless the sheet has one.
    pub fn add_frame(&mut self, path: &String)
        requires
            old(self).wf(),
        ensures
            final(self).wf(),
            final(self)@ == (if old(self)@.has_frame(path@) {
                old(self)@
            } else {
                SheetModel {
                    frames: old(self)@.frames.push(new_frame_model(path@)),
                    ..old(self)@
                }
            }),
    {
        if self.has_frame(path) {
            return;
        }
        let f = Frame::new(path);
        self.frames.push(f);
        assert(frames_view(self.frames@) =~= frames_view(old(self).frames@).push(f@));
        assert(frame_sources(self@.frames) =~= frame_sources(old(self)@.frames).push(path@));
        assert forall|i: int| 0 <= i < self@.frames.len() implies hitbox_names(
            #[trigger] self@.frames[i].hitboxes,
        ).no_duplicates() by {
            if i < old(self)@.frames.len() {
                assert(self@.frames[i] == old(self)@.frames[i]);
            } else {
                assert(hitbox_names(self@.frames[i].hitboxes) =~= seq![]);
            }
        }
    }

    /// Whether every key of `paths` is a frame of the sheet.
    pub fn has_frames(&self, paths: &MultiSelection<String>) -> (r: bool)
        ensures
            r == forall|i: int| 0 <= i < paths.keys().len() ==> self@.has_frame(#[trigger] paths.keys()[i]),
    {
        let mut i: usize = 0;
        while i < paths.items.len()
            invariant
                i <= paths.items@.len(),
                forall|j: int| 0 <= j < i ==> self@.has_frame(#[trigger] paths.keys()[j]),
            decreases paths.items.len() - i,
        {
            if !self.has_frame(&paths.items[i]) {
                assert(!self@.has_frame(paths.keys()[i as int]));
                return false;
            }
            i += 1;
        }
        true
    }

    /// Whether every path of `paths` is a frame of the sheet.
    pub fn has_frame_list(&self, paths: &Vec<String>) -> (r: bool)
        ensures
            r == forall|i: int| 0 <= i < paths@.len() ==> self@.has_frame(#[trigger] string_views(paths@)[i]),
    {
        let mut i: usize = 0;
        while i < paths.len()
            invariant
                i <= paths@.len(),
                forall|j: int| 0 <= j < i ==> self@.has_frame(#[trigger] string_views(paths@)[j]),
            decreases paths.len() - i,
        {
            if !self.has_frame(&paths[i]) {
                assert(!self@.has_frame(string_views(paths@)[i as int]));
                return false;
            }
            i += 1;
        }
        true
    }

    /// Whether every key of `names` is an animation of the sheet.
    pub fn has_animations(&self, names: &MultiSelection<String>) -> (r: bool)
        ensures
            r == forall|i: int| 0 <= i < names.keys().len() ==> self@.has_animation(#[trigger] names.keys()[i]),
    {
        let mut i: usize = 0;
        while i < names.items.len()
            invariant
                i <= names.items@.len(),
                forall|j: int| 0 <= j < i ==> self@.has_animation(#[trigger] names.keys()[j]),
            decreases names.items.len() - i,
        {
            if !self.has_animation(&names.items[i]) {
                assert(!self@.has_animation(names.keys()[i as int]));
                return false;
            }
            i += 1;
        }
        true
    }

    /// Names of the animations, in order.
    pub fn animation_name_list(&self) -> (r: Vec<String>)
        ensures
            string_views(r@) == animation_names(self@.animations),
    {
        let mut r: Vec<String> = Vec::new();
        let mut i: usize = 0;
        while i < self.animations.len()
            invariant
                i <= self.animations@.len(),
                string_views(r@) == animation_names(self@.animations).take(i as int),
            decreases self.animations.len() - i,
        {
            let ghost before = r@;
            r.push(self.animations[i].name.clone());
            assert(r@ == before.push(r@.last()));
            assert(self@.animations[i as int] == self.animations@[i as int]@);
            assert(animation_names(self@.animations).len() == self.animations@.len());
            assert(string_views(before).len() == before.len());
            assert(before.len() == i);
            assert forall|j: int| 0 <= j < i implies string_views(r@)[j] == string_views(before)[j] by {
                assert(r@[j] == before[j]);
            }
            assert(string_views(r@) =~= animation_names(self@.animations).take(i + 1));
            i += 1;
        }
        assert(animation_names(self@.animations).take(i as int) =~= animation_names(
            self@.animations,
        ));
        r
    }

    /// Adds an empty looping animation under the first free name among
    /// "New Animation", "New Animation 2", ...; returns that name.
    pub fn add_animation(&mut self) -> (name: String)
        requires
            old(self).wf(),
        ensures
            name@ == first_free_name("New Animation"@, animation_names(old(self)@.animations)),
            !old(self)@.has_animation(name@),
            final(self).wf(),
            final(self)@ == (SheetModel {
                animations: old(self)@.animations.push(new_animation_model(name@)),
                ..old(self)@
            }),
    {
        let taken = self.animation_name_list();
        let name = first_free_name_string("New Animation", &taken);
        let a = Animation::new(&name);
        self.animations.push(a);
        assert(animations_view(self.animations@) =~= animations_view(old(self).animations@).push(
            a@,
        ));
        assert(animation_names(self@.animations) =~= animation_names(old(self)@.animations).push(
            name@,
        ));
        assert forall|i: int, j: int|
            0 <= i < self@.animations.len() && 0 <= j < self@.animations[i].timeline.len()
                implies hitbox_names(
            #[trigger] self@.animations[i].timeline[j].hitboxes,
        ).no_duplicates() by {
            assert(i < old(self)@.animations.len());
            assert(self@.animations[i] == old(self)@.animations[i]);
        }
        name
    }

    /// Renames animation `old_name` to `new_name`.
    pub fn rename_animation(&mut self, old_name: &String, new_name: &String) -> (r: Result<
        (),
        SheetError,
    >)
        requires
            old(self).wf(),
        ensures
            new_name@.len() > MAX_ANIMATION_NAME_LENGTH ==> r == Err::<(), SheetError>(
                SheetError::AnimationNameTooLong,
            ),
            new_name@.len() <= MAX_ANIMATION_NAME_LENGTH && !old(self)@.has_animation(old_name@)
                ==> r == Err::<(), SheetError>(SheetError::AnimationNotFound),
            r.is_ok() <==> new_name@.len() <= MAX_ANIMATION_NAME_LENGTH && old(
                self,
            )@.has_animation(old_name@),
            r.is_err() ==> *final(self) == *old(self),
            r.is_ok() ==> final(self)@ == old(self)@.with_animation(
                old_name@,
                AnimationModel { name: new_name@, ..old(self)@.animation(old_name@) },
            ),
            r.is_ok() && (new_name@ == old_name@ || !old(self)@.has_animation(new_name@))
                ==> final(self).wf(),
    {
        if new_name.as_str().unicode_len() > MAX_ANIMATION_NAME_LENGTH {
            return Err(SheetError::AnimationNameTooLong);
        }
        match self.animation_index(old_name) {
            None => Err(SheetError::AnimationNotFound),
            Some(i) => {
                proof {
                    lemma_animation_position(old(self)@, old_name@, i as int);
                }
                let mut a = self.animations.remove(i);
                a.name = new_name.clone();
                self.animations.insert(i, a);
                proof {
                    lemma_remove_insert(old(self).animations@, i as int, a);
                    assert(animations_view(self.animations@) =~= old(self)@.animations.update(
                        i as int,
                        AnimationModel { name: new_name@, ..old(self)@.animations[i as int] },
                    ));
                    if new_name@ == old_name@ || !old(self)@.has_animation(new_name@) {
                        let names = animation_names(self@.animations);
                        let old_names = animation_names(old(self)@.animations);
                        assert(names =~= old_names.update(i as int, new_name@));
                        assert(old_names[i as int] == old_name@);
                        assert forall|x: int, y: int| 0 <= x < y < names.len() implies names[x]
                            != names[y] by {
                            if x != i && y != i {
                                assert(names[x] == old_names[x]);
                                assert(names[y] == old_names[y]);
                            } else if new_name@ == old_name@ {
                                assert(names[x] == old_names[x]);
                                assert(names[y] == old_names[y]);
                            } else if x == i {
                                if names[x] == names[y] {
                                    assert(old_names[y] == new_name@);
                                    assert(old_names.contains(new_name@));
                                }
                            } else {
                                if names[x] == names[y] {
                                    assert(old_names[x] == new_name@);
                                    assert(old_names.contains(new_name@));
                                }
                            }
                        }
                        assert forall|x: int, j: int|
                            0 <= x < self@.animations.len() && 0 <= j
                                < self@.animations[x].timeline.len() implies hitbox_names(
                            #[trigger] self@.animations[x].timeline[j].hitboxes,
                        ).no_duplicates() by {
                            assert(self@.animations[x].timeline == old(self)@.animations[x].timeline);
                        }
                    }
                }
                Ok(())
            },
        }
    }

    /// Removes the frame at `path` and every keyframe that shows it.
    pub fn delete_frame(&mut self, path: &String)
        requires
            old(self).wf(),
        ensures
            final(self)@ == old(self)@.without_frame(path@),
            final(self).wf(),
    {
        let frames = frames_without(&self.frames, path);
        let mut animations: Vec<Animation> = Vec::new();
        let mut i: usize = 0;
        while i < self.animations.len()
            invariant
                i <= self.animations@.len(),
                animations@.len() == i,
                animations_view(animations@) == strip_keyframes(
                    animations_view(self.animations@).take(i as int),
                    path@,
                ),
            decreases self.animations.len() - i,
        {
            let ghost before = animations@;
            let a = Animation {
                name: self.animations[i].name.clone(),
                timeline: keyframes_without(&self.animations[i].timeline, path),
                is_looping: self.animations[i].is_looping,
            };
            animations.push(a);
            assert(a@ == without_keyframes_of(animations_view(self.animations@)[i as int], path@));
            assert(animations@ == before.push(a));
            assert(before.len() == i);
            assert forall|j: int| 0 <= j < i implies animations_view(animations@)[j]
                == animations_view(before)[j] by {
                assert(animations@[j] == before[j]);
            }
            let ghost all = animations_view(self.animations@);
            assert forall|j: int| 0 <= j <= i implies animations_view(animations@)[j]
                == strip_keyframes(all.take(i + 1), path@)[j] by {
                if j < i {
                    assert(animations_view(before)[j] == strip_keyframes(all.take(i as int), path@)[j]);
                    assert(all.take(i as int)[j] == all.take(i + 1)[j]);
                }
            }
            assert(animations_view(animations@) =~= strip_keyframes(all.take(i + 1), path@));
            i += 1;
        }
        assert(animations_view(self.animations@).take(i as int) =~= animations_view(
            self.animations@,
        ));
        let ghost old_sheet = self@;
        self.frames = frames;
        self.animations = animations;
        proof {
            lemma_filter_keeps_unique(
                old_sheet.frames,
                other_frame(path@),
                |f: FrameModel| f.source,
            );
            assert(frame_sources(self@.frames) =~= old_sheet.frames.filter(other_frame(
                path@,
            )).map_values(|f: FrameModel| f.source));
            assert(animation_names(self@.animations) =~= animation_names(old_sheet.animations));
            assert forall|x: int| 0 <= x < self@.frames.len() implies hitbox_names(
                #[trigger] self@.frames[x].hitboxes,
            ).no_duplicates() by {
                old_sheet.frames.lemma_filter_contains_rev(other_frame(path@), self@.frames[x]);
            }
            assert forall|x: int, j: int|
                0 <= x < self@.animations.len() && 0 <= j < self@.animations[x].timeline.len()
                    implies hitbox_names(
                #[trigger] self@.animations[x].timeline[j].hitboxes,
            ).no_duplicates() by {
                let t = old_sheet.animations[x].timeline;
                t.lemma_filter_contains_rev(other_keyframe(path@), self@.animations[x].timeline[j]);
            }
        }
    }

    /// Removes the animation named `name`, if any.
    pub fn delete_animation(&mut self, name: &String)
        requires
            old(self).wf(),
        ensures
            final(self)@ == (SheetModel {
                animations: old(self)@.animations.filter(other_animation(name@)),
                ..old(self)@
            }),
            final(self).wf(),
    {
        let ghost old_sheet = self@;
        self.animations = animations_without(&self.animations, name);
        proof {
            lemma_filter_keeps_unique(
                old_sheet.animations,
                other_animation(name@),
                |a: AnimationModel| a.name,
            );
            assert(animation_names(self@.animations) =~= old_sheet.animations.filter(
                other_animation(name@),
            ).map_values(|a: AnimationModel| a.name));
            assert forall|x: int, j: int|
                0 <= x < self@.animations.len() && 0 <= j < self@.animations[x].timeline.len()
                    implies hitbox_names(
                #[trigger] self@.animations[x].timeline[j].hitboxes,
            ).no_duplicates() by {
                old_sheet.animations.lemma_filter_contains_rev(
                    other_animation(name@),
                    self@.animations[x],
                );
            }
        }
    }

    /// Removes hitbox `name` from the frame at `path`; nothing happens where
    /// there is no such frame.
    pub fn delete_hitbox(&mut self, path: &String, name: &String)
        requires
            old(self).wf(),
        ensures
            final(self)@ == (if old(self)@.has_frame(path@) {
                old(self)@.with_frame(
                    path@,
                    FrameModel {
                        hitboxes: old(self)@.frame(path@).hitboxes.filter(other_hitbox(name@)),
                        ..old(self)@.frame(path@)
                    },
                )
            } else {
                old(self)@
            }),
            final(self).wf(),
    {
        match self.frame_index(path) {
            None => {},
            Some(i) => {
                proof {
                    lemma_frame_position(old(self)@, path@, i as int);
                }
                let mut f = self.frames.remove(i);
                let ghost old_frame = f@;
                f.hitboxes = hitboxes_without(&f.hitboxes, name);
                self.frames.insert(i, f);
                proof {
                    lemma_remove_insert(old(self).frames@, i as int, f);
                    assert(frames_view(self.frames@) =~= old(self)@.frames.update(i as int, f@));
                    assert(frame_sources(self@.frames) =~= frame_sources(old(self)@.frames));
                    lemma_filter_keeps_unique(
                        old_frame.hitboxes,
                        other_hitbox(name@),
                        |h: HitboxModel| h.name,
                    );
                    assert(hitbox_names(f@.hitboxes) =~= old_frame.hitboxes.filter(
                        other_hitbox(name@),
                    ).map_values(|h: HitboxModel| h.name));
                }
            },
        }
    }

    /// Removes keyframe `index` of animation `animation_name`; nothing happens
    /// where there is no such animation or keyframe.
    pub fn delete_keyframe(&mut self, animation_name: &String, index: usize)
        requires
            old(self).wf(),
        ensures
            final(self)@ == (if old(self)@.has_animation(animation_name@) && index < old(
                self,
            )@.animation(animation_name@).timeline.len() {
                old(self)@.with_animation(
                    animation_name@,
                    AnimationModel {
                        timeline: old(self)@.animation(animation_name@).timeline.remove(
                            index as int,
                        ),
                        ..old(self)@.animation(animation_name@)
                    },
                )
            } else {
                old(self)@
            }),
            final(self).wf(),
    {
        match self.animation_index(animation_name) {
            None => {},
            Some(i) => {
                proof {
                    lemma_animation_position(old(self)@, animation_name@, i as int);
                }
                if index < self.animations[i].timeline.len() {
                    let mut a = self.animations.remove(i);
                    let _ = a.take_frame(index);
                    self.animations.insert(i, a);
                    proof {
                        lemma_remove_insert(old(self).animations@, i as int, a);
                        assert(animations_view(self.animations@) =~= old(
                            self,
                        )@.animations.update(i as int, a@));
                        assert(animation_names(self@.animations) =~= animation_names(
                            old(self)@.animations,
                        ));
                        assert forall|x: int, j: int|
                            0 <= x < self@.animations.len() && 0 <= j
                                < self@.animations[x].timeline.len() implies hitbox_names(
                            #[trigger] self@.animations[x].timeline[j].hitboxes,
                        ).no_duplicates() by {
                            if x == i {
                                if j < index {
                                    assert(self@.animations[x].timeline[j] == old(
                                        self,
                                    )@.animations[x].timeline[j]);
                                } else {
                                    assert(self@.animations[x].timeline[j] == old(
                                        self,
                                    )@.animations[x].timeline[j + 1]);
                                }
                            }
                        }
                    }
                }
            },
        }
    }

    pub fn get_export_settings(&self) -> (r: &Option<ExportSettings>)
        ensures
            export_settings_view(*r) == self@.export_settings,
    {
        &self.export_settings
    }

    pub fn set_export_settings(&mut self, e: ExportSettings)
        ensures
            final(self)@ == (SheetModel { export_settings: Some(e@), ..old(self)@ }),
    {
        self.export_settings = Some(e);
    }
}

impl Sheet {
    /// Replaces the hitboxes of the frame at `fi`.
    pub fn set_hitboxes(&mut self, fi: usize, hitboxes: Vec<Hitbox>)
        requires
            old(self).wf(),
            fi < old(self)@.frames.len(),
            hitbox_names(hitboxes_view(hitboxes@)).no_duplicates(),
        ensures
            final(self).wf(),
            final(self)@ == (SheetModel {
                frames: old(self)@.frames.update(
                    fi as int,
                    FrameModel { hitboxes: hitboxes_view(hitboxes@), ..old(self)@.frames[fi as int] },
                ),
                ..old(self)@
            }),
            frame_sources(final(self)@.frames) == frame_sources(old(self)@.frames),
            final(self)@.animations == old(self)@.animations,
    {
        let mut f = self.frames.remove(fi);
        f.hitboxes = hitboxes;
        self.frames.insert(fi, f);
        proof {
            lemma_remove_insert(old(self).frames@, fi as int, f);
            assert(frames_view(self.frames@) =~= old(self)@.frames.update(fi as int, f@));
            assert(frame_sources(self@.frames) =~= frame_sources(old(self)@.frames));
            assert forall|x: int| 0 <= x < self@.frames.len() implies hitbox_names(
                #[trigger] self@.frames[x].hitboxes,
            ).no_duplicates() by {
                if x != fi {
                    assert(self@.frames[x] == old(self)@.frames[x]);
                }
            }
        }
    }

    /// Sets whether the animation at `ai` loops.
    pub fn set_animation_looping(&mut self, ai: usize, looping: bool)
        requires
            old(self).wf(),
            ai < old(self)@.animations.len(),
        ensures
            final(self).wf(),
            final(self)@ == (SheetModel {
                animations: old(self)@.animations.update(
                    ai as int,
                    AnimationModel { is_looping: looping, ..old(self)@.animations[ai as int] },
                ),
                ..old(self)@
            }),
            final(self)@.frames == old(self)@.frames,
            animation_names(final(self)@.animations) == animation_names(old(self)@.animations),
    {
        let mut a = self.animations.remove(ai);
        a.is_looping = looping;
        self.animations.insert(ai, a);
        proof {
            lemma_remove_insert(old(self).animations@, ai as int, a);
            assert(animations_view(self.animations@) =~= old(self)@.animations.update(ai as int, a@));
            assert(animation_names(self@.animations) =~= animation_names(old(self)@.animations));
            assert forall|x: int, j: int|
                0 <= x < self@.animations.len() && 0 <= j < self@.animations[x].timeline.len()
                    implies hitbox_names(#[trigger] self@.animations[x].timeline[j].hitboxes).no_duplicates() by {
                assert(self@.animations[x].timeline == old(self)@.animations[x].timeline);
            }
        }
    }

    /// Copies the hitboxes of the frame at `fi`.
    pub fn hitboxes_copy(&self, fi: usize) -> (r: Vec<Hitbox>)
        requires
            fi < self@.frames.len(),
        ensures
            hitboxes_view(r@) == self@.frames[fi as int].hitboxes,
    {
        let r = self.frames[fi].hitboxes.clone();
        assert(hitboxes_view(r@) =~= hitboxes_view(self.frames@[fi as int].hitboxes@));
        assert(self@.frames[fi as int] == self.frames@[fi as int]@);
        r
    }
}

/// Every keyframe of a timeline names its hitboxes uniquely.
pub open spec fn keyframes_wf(t: Seq<KeyframeModel>) -> bool {
    forall|j: int| 0 <= j < t.len() ==> hitbox_names(#[trigger] t[j].hitboxes).no_duplicates()
}

impl SheetModel {
    /// The sheet with the timeline of the animation at `ai` replaced by `t`.
    pub open spec fn with_timeline(self, ai: int, t: Seq<KeyframeModel>) -> SheetModel {
        SheetModel {
            animations: self.animations.update(
                ai,
                AnimationModel { timeline: t, ..self.animations[ai] },
            ),
            ..self
        }
    }

    /// The sheet with keyframe `ki` of the animation at `ai` replaced by `k`.
    pub open spec fn with_keyframe(self, ai: int, ki: int, k: KeyframeModel) -> SheetModel {
        self.with_timeline(ai, self.animations[ai].timeline.update(ki, k))
    }

    /// The sheet with hitbox `hi` of the frame at `fi` replaced by `h`.
    pub open spec fn with_hitbox(self, fi: int, hi: int, h: HitboxModel) -> SheetModel {
        SheetModel {
            frames: self.frames.update(
                fi,
                FrameModel { hitboxes: self.frames[fi].hitboxes.update(hi, h), ..self.frames[fi] },
            ),
            ..self
        }
    }
}

impl Sheet {
    /// Replaces the timeline of the animation at `ai`.
    pub fn set_timeline(&mut self, ai: usize, timeline: Vec<Keyframe>)
        requires
            old(self).wf(),
            ai < old(self)@.animations.len(),
            keyframes_wf(timeline_view(timeline@)),
        ensures
            final(self).wf(),
            final(self)@ == old(self)@.with_timeline(ai as int, timeline_view(timeline@)),
            final(self)@.frames == old(self)@.frames,
            animation_names(final(self)@.animations) == animation_names(old(self)@.animations),
    {
        let mut a = self.animations.remove(ai);
        a.timeline = timeline;
        self.animations.insert(ai, a);
        proof {
            lemma_remove_insert(old(self).animations@, ai as int, a);
            assert(animations_view(self.animations@) =~= old(self)@.animations.update(
                ai as int,
                a@,
            ));
            assert(animation_names(self@.animations) =~= animation_names(old(self)@.animations));
            assert forall|x: int, j: int|
                0 <= x < self@.animations.len() && 0 <= j < self@.animations[x].timeline.len()
                    implies hitbox_names(
                #[trigger] self@.animations[x].timeline[j].hitboxes,
            ).no_duplicates() by {
                if x == ai {
                    assert(hitbox_names(timeline_view(timeline@)[j].hitboxes).no_duplicates());
                } else {
                    assert(self@.animations[x] == old(self)@.animations[x]);
                }
            }
        }
    }

    /// Copies the timeline of the animation at `ai`.
    pub fn timeline_copy(&self, ai: usize) -> (r: Vec<Keyframe>)
        requires
            self.wf(),
            ai < self@.animations.len(),
        ensures
            timeline_view(r@) == self@.animations[ai as int].timeline,
            keyframes_wf(timeline_view(r@)),
    {
        let r = self.animations[ai].timeline.clone();
        assert(timeline_view(r@) =~= timeline_view(self.animations@[ai as int].timeline@));
        assert(self@.animations[ai as int] == self.animations@[ai as int]@);
        r
    }

    /// Sets the duration of keyframe `ki` of the animation at `ai`.
    pub fn set_keyframe_duration(&mut self, ai: usize, ki: usize, d: u32)
        requires
            old(self).wf(),
            ai < old(self)@.animations.len(),
            ki < old(self)@.animations[ai as int].timeline.len(),
        ensures
            final(self).wf(),
            final(self)@ == old(self)@.with_keyframe(
                ai as int,
                ki as int,
                KeyframeModel { duration: d, ..old(self)@.animations[ai as int].timeline[ki as int] },
            ),
            final(self)@.frames == old(self)@.frames,
            animation_names(final(self)@.animations) == animation_names(old(self)@.animations),
    {
        let mut t = self.timeline_copy(ai);
        let mut k = t.remove(ki);
        k.duration = d;
        t.insert(ki, k);
        proof {
            lemma_remove_insert(self.animations@[ai as int].timeline@, ki as int, k);
            assert(timeline_view(t@) =~= self@.animations[ai as int].timeline.update(ki as int, k@));
        }
        self.set_timeline(ai, t);
    }

    /// Sets the offset of keyframe `ki` of the animation at `ai`.
    pub fn set_keyframe_offset(&mut self, ai: usize, ki: usize, o: Vec2)
        requires
            old(self).wf(),
            ai < old(self)@.animations.len(),
            ki < old(self)@.animations[ai as int].timeline.len(),
        ensures
            final(self).wf(),
            final(self)@ == old(self)@.with_keyframe(
                ai as int,
                ki as int,
                KeyframeModel { offset: o, ..old(self)@.animations[ai as int].timeline[ki as int] },
            ),
            final(self)@.frames == old(self)@.frames,
            animation_names(final(self)@.animations) == animation_names(old(self)@.animations),
    {
        let mut t = self.timeline_copy(ai);
        let mut k = t.remove(ki);
        k.offset = o;
        t.insert(ki, k);
        proof {
            lemma_remove_insert(self.animations@[ai as int].timeline@, ki as int, k);
            assert(timeline_view(t@) =~= self@.animations[ai as int].timeline.update(ki as int, k@));
        }
        self.set_timeline(ai, t);
    }

}


/// The frames a timeline's keyframes show, in order.
pub open spec fn keyframe_paths(t: Seq<KeyframeModel>) -> Seq<Seq<char>> {
    t.map_values(|k: KeyframeModel| k.frame)
}

/// The frames the keyframes of `animations` show, animation after animation.
pub open spec fn timeline_paths(animations: Seq<AnimationModel>) -> Seq<Seq<char>>
    decreases animations.len(),
{
    if animations.len() == 0 {
        seq![]
    } else {
        timeline_paths(animations.drop_last()) + keyframe_paths(animations.last().timeline)
    }
}

/// The paths of export settings: template, texture, metadata, metadata root.
pub open spec fn export_paths(e: ExportSettingsModel) -> Seq<Seq<char>> {
    match e.format {
        ExportFormatModel::Template(t) => seq![t, e.texture_destination, e.metadata_destination, e.metadata_paths_root],
    }
}

/// Export settings with their four paths replaced, in `export_paths` order.
pub open spec fn with_export_paths(ps: Seq<Seq<char>>) -> ExportSettingsModel {
    ExportSettingsModel {
        format: ExportFormatModel::Template(ps[0]),
        texture_destination: ps[1],
        metadata_destination: ps[2],
        metadata_paths_root: ps[3],
    }
}

pub open spec fn optional_export_paths(e: Option<ExportSettingsModel>) -> Seq<Seq<char>> {
    match e {
        Some(x) => export_paths(x),
        None => seq![],
    }
}

/// Every path of a sheet, in order: frame sources, the frames keyframes show
/// (animation after animation), then the export settings' paths.
pub open spec fn sheet_paths(s: SheetModel) -> Seq<Seq<char>> {
    frame_sources(s.frames) + timeline_paths(s.animations) + optional_export_paths(s.export_settings)
}

/// The sheet with its paths replaced by `ps`, taken in `sheet_paths` order;
/// everything else is kept.
pub open spec fn with_sheet_paths(s: SheetModel, ps: Seq<Seq<char>>) -> SheetModel {
    let nf = s.frames.len() as int;
    let nk = timeline_paths(s.animations).len() as int;
    SheetModel {
        frames: Seq::new(s.frames.len(), |i: int| FrameModel { source: ps[i], ..s.frames[i] }),
        animations: Seq::new(s.animations.len(), |a: int| renamed_timeline(s.animations[a], ps, nf + timeline_paths(s.animations.take(a)).len())),
        export_settings: match s.export_settings {
            Some(e) => Some(with_export_paths(ps.subrange(nf + nk, nf + nk + 4))),
            None => None,
        },
    }
}

/// An animation whose keyframe `j` shows `ps[start + j]`.
pub open spec fn renamed_timeline(a: AnimationModel, ps: Seq<Seq<char>>, start: int) -> AnimationModel {
    AnimationModel {
        timeline: Seq::new(a.timeline.len(), |j: int| KeyframeModel { frame: ps[start + j], ..a.timeline[j] }),
        ..a
    }
}

proof fn lemma_timeline_paths_step(animations: Seq<AnimationModel>, a: int)
    requires
        0 <= a < animations.len(),
    ensures
        timeline_paths(animations.take(a + 1)) == timeline_paths(animations.take(a)) + keyframe_paths(animations[a].timeline),
{
    assert(animations.take(a + 1).drop_last() =~= animations.take(a));
}

proof fn lemma_timeline_paths_monotonic(animations: Seq<AnimationModel>, a: int, b: int)
    requires
        0 <= a <= b <= animations.len(),
    ensures
        timeline_paths(animations.take(a)).len() <= timeline_paths(animations.take(b)).len(),
    decreases b - a,
{
    if a < b {
        lemma_timeline_paths_step(animations, b - 1);
        lemma_timeline_paths_monotonic(animations, a, b - 1);
    }
}

/// With no path to replace, the sheet stays as it is.
pub proof fn lemma_no_paths(s: SheetModel, ps: Seq<Seq<char>>)
    requires
        sheet_paths(s).len() == 0,
    ensures
        with_sheet_paths(s, ps) == s,
{
    let r = with_sheet_paths(s, ps);
    assert(frame_sources(s.frames).len() == s.frames.len());
    assert(r.frames =~= s.frames);
    assert forall|a: int| 0 <= a < s.animations.len() implies s.animations[a].timeline.len() == 0 by {
        lemma_timeline_paths_step(s.animations, a);
        lemma_timeline_paths_monotonic(s.animations, a + 1, s.animations.len() as int);
        assert(s.animations.take(s.animations.len() as int) =~= s.animations);
    }
    assert forall|a: int| 0 <= a < s.animations.len() implies r.animations[a] == s.animations[a] by {
        assert(r.animations[a].timeline =~= s.animations[a].timeline);
    }
    assert(r.animations =~= s.animations);
}

impl ExportSettings {
    fn paths(&self) -> (r: Vec<String>)
        ensures
            string_views(r@) == export_paths(self@),
            r@.len() == 4,
    {
        let ExportFormat::Template(t) = &self.format;
        let r = vec![t.clone(), self.texture_destination.clone(), self.metadata_destination.clone(), self.metadata_paths_root.clone()];
        assert(string_views(r@) =~= export_paths(self@));
        r
    }

    /// The settings with every path made relative to directory `base`; fails
    /// where one of them has no relative form.
    pub fn with_relative_paths(&self, base: &String) -> (r: Result<ExportSettings, SheetError>)
        ensures
            r matches Ok(e) ==> exists|ps: Seq<Seq<char>>| ps.len() == 4 && e@ == with_export_paths(ps),
            r matches Err(e) ==> e == SheetError::AbsoluteToRelativePath,
    {
        let ps = self.paths();
        let rel = relative_paths(&ps, base)?;
        let e = export_settings_with_paths(&rel);
        assert(string_views(rel@).take(4).len() == 4);
        Ok(e)
    }

    /// The settings with every path resolved against directory `base`.
    pub fn with_absolute_paths(&self, base: &String) -> (r: ExportSettings)
        ensures
            exists|ps: Seq<Seq<char>>| ps.len() == 4 && r@ == with_export_paths(ps),
    {
        let ps = self.paths();
        let abs = absolute_paths(&ps, base);
        let e = export_settings_with_paths(&abs);
        assert(string_views(abs@).take(4).len() == 4);
        e
    }
}

fn export_settings_with_paths(ps: &Vec<String>) -> (r: ExportSettings)
    requires
        ps@.len() >= 4,
    ensures
        r@ == with_export_paths(string_views(ps@).take(4)),
{
    ExportSettings {
        format: ExportFormat::Template(ps[0].clone()),
        texture_destination: ps[1].clone(),
        metadata_destination: ps[2].clone(),
        metadata_paths_root: ps[3].clone(),
    }
}

/// Each path made relative to `base`; fails where one has no relative form.
fn relative_paths(ps: &Vec<String>, base: &String) -> (r: Result<Vec<String>, SheetError>)
    ensures
        r matches Ok(v) ==> v@.len() == ps@.len(),
        r matches Err(e) ==> e == SheetError::AbsoluteToRelativePath,
        ps@.len() == 0 ==> r is Ok,
{
    let mut out: Vec<String> = Vec::new();
    let mut i: usize = 0;
    while i < ps.len()
        invariant
            i <= ps@.len(),
            out@.len() == i,
        decreases ps.len() - i,
    {
        match relative_path(&ps[i], base) {
            Some(p) => out.push(p),
            None => return Err(SheetError::AbsoluteToRelativePath),
        }
        i += 1;
    }
    Ok(out)
}

/// Each path resolved against `base`.
fn absolute_paths(ps: &Vec<String>, base: &String) -> (r: Vec<String>)
    ensures
        r@.len() == ps@.len(),
{
    let mut out: Vec<String> = Vec::new();
    let mut i: usize = 0;
    while i < ps.len()
        invariant
            i <= ps@.len(),
            out@.len() == i,
        decreases ps.len() - i,
    {
        out.push(joined_path(base, &ps[i]));
        i += 1;
    }
    out
}

impl Sheet {
    /// Every path of the sheet, in `sheet_paths` order.
    pub fn paths(&self) -> (r: Vec<String>)
        ensures
            string_views(r@) == sheet_paths(self@),
    {
        let mut r = self.frame_source_list();
        let ghost fs = frame_sources(self@.frames);
        let ghost anims = self@.animations;
        let mut a: usize = 0;
        assert(anims.take(0) =~= seq![]);
        assert(fs + timeline_paths(anims.take(0)) =~= fs);
        while a < self.animations.len()
            invariant
                a <= anims.len(),
                anims == self@.animations,
                fs == frame_sources(self@.frames),
                string_views(r@) == fs + timeline_paths(anims.take(a as int)),
            decreases self.animations.len() - a,
        {
            let tl = &self.animations[a].timeline;
            assert(anims[a as int] == self.animations@[a as int]@);
            let ghost kp = keyframe_paths(anims[a as int].timeline);
            let ghost prefix = string_views(r@);
            let mut j: usize = 0;
            assert(kp.take(0) =~= seq![]);
            assert(prefix + kp.take(0) =~= prefix);
            while j < tl.len()
                invariant
                    j <= tl@.len(),
                    kp == keyframe_paths(timeline_view(tl@)),
                    string_views(r@) == prefix + kp.take(j as int),
                decreases tl.len() - j,
            {
                let ghost before = r@;
                r.push(tl[j].frame.clone());
                assert(string_views(r@) =~= string_views(before).push(tl@[j as int].frame@));
                assert(kp.take(j + 1) =~= kp.take(j as int).push(tl@[j as int].frame@));
                assert(prefix + kp.take(j + 1) =~= (prefix + kp.take(j as int)).push(tl@[j as int].frame@));
                j += 1;
            }
            assert(kp.take(j as int) =~= kp);
            proof {
                lemma_timeline_paths_step(anims, a as int);
                assert(fs + timeline_paths(anims.take(a + 1)) =~= prefix + kp);
            }
            a += 1;
        }
        assert(anims.take(a as int) =~= anims);
        match &self.export_settings {
            Some(e) => {
                let ghost before = r@;
                let mut ep = e.paths();
                r.append(&mut ep);
                assert(string_views(r@) =~= string_views(before) + export_paths(e@));
            },
            None => {
                assert(string_views(r@) =~= string_views(r@) + optional_export_paths(self@.export_settings));
            },
        }
        r
    }

    /// The sheet with its paths replaced by `ps`, taken in `sheet_paths`
    /// order (see `with_sheet_paths`).
    pub fn with_paths(&self, ps: &Vec<String>) -> (r: Sheet)
        requires
            ps@.len() == sheet_paths(self@).len(),
        ensures
            r@ == with_sheet_paths(self@, string_views(ps@)),
    {
        let ghost sv = string_views(ps@);
        let ghost target = with_sheet_paths(self@, sv);
        let ghost anims = self@.animations;
        let np = ps.len();
        let nf = self.frames.len();
        assert(frame_sources(self@.frames).len() == nf);
        let mut frames: Vec<Frame> = Vec::new();
        let mut i: usize = 0;
        while i < nf
            invariant
                i <= nf,
                nf == self.frames@.len(),
                ps@.len() == sheet_paths(self@).len(),
                sv == string_views(ps@),
                target == with_sheet_paths(self@, sv),
                sheet_paths(self@).len() >= nf,
                frames_view(frames@) == target.frames.take(i as int),
            decreases nf - i,
        {
            let hitboxes = self.frames[i].hitboxes.clone();
            assert(hitboxes_view(hitboxes@) =~= hitboxes_view(self.frames@[i as int].hitboxes@));
            let f = Frame { source: ps[i].clone(), hitboxes };
            let ghost before = frames@;
            frames.push(f);
            assert(frames_view(frames@) =~= frames_view(before).push(f@));
            assert(target.frames.take(i + 1) =~= target.frames.take(i as int).push(f@));
            i += 1;
        }
        assert(target.frames.take(nf as int) =~= target.frames);
        let mut cursor: usize = nf;
        let mut animations: Vec<Animation> = Vec::new();
        let mut a: usize = 0;
        proof {
            assert(anims.take(0) =~= seq![]);
            lemma_timeline_paths_monotonic(anims, 0, anims.len() as int);
            assert(anims.take(anims.len() as int) =~= anims);
        }
        while a < self.animations.len()
            invariant
                a <= anims.len(),
                anims == self@.animations,
                ps@.len() == sheet_paths(self@).len(),
                sv == string_views(ps@),
                np == ps@.len(),
                target == with_sheet_paths(self@, sv),
                sheet_paths(self@).len() == nf + timeline_paths(anims).len() + optional_export_paths(self@.export_settings).len(),
                cursor == nf + timeline_paths(anims.take(a as int)).len(),
                timeline_paths(anims.take(anims.len() as int)) == timeline_paths(anims),
                animations_view(animations@) == target.animations.take(a as int),
            decreases self.animations.len() - a,
        {
            let src = &self.animations[a];
            assert(anims[a as int] == src@);
            proof {
                lemma_timeline_paths_step(anims, a as int);
                lemma_timeline_paths_monotonic(anims, a + 1, anims.len() as int);
            }
            let ghost start = cursor as int;
            assert(keyframe_paths(anims[a as int].timeline).len() == src.timeline@.len());
            assert(start + src.timeline@.len() <= ps@.len());
            let mut timeline: Vec<Keyframe> = Vec::new();
            let mut j: usize = 0;
            while j < src.timeline.len()
                invariant
                    j <= src.timeline@.len(),
                    cursor == start + j,
                    np == ps@.len(),
                    start + src.timeline@.len() <= ps@.len(),
                    sv == string_views(ps@),
                    timeline_view(timeline@) == renamed_timeline(src@, sv, start).timeline.take(j as int),
                decreases src.timeline.len() - j,
            {
                let k = &src.timeline[j];
                let hitboxes = k.hitboxes.clone();
                assert(hitboxes_view(hitboxes@) =~= hitboxes_view(k.hitboxes@));
                let nk = Keyframe { frame: ps[cursor].clone(), duration: k.duration, offset: k.offset, hitboxes };
                let ghost before = timeline@;
                timeline.push(nk);
                assert(nk@ == renamed_timeline(src@, sv, start).timeline[j as int]);
                assert(timeline_view(timeline@) =~= timeline_view(before).push(nk@));
                assert(renamed_timeline(src@, sv, start).timeline.take(j + 1) =~= renamed_timeline(src@, sv, start).timeline.take(j as int).push(nk@));
                cursor += 1;
                j += 1;
            }
            assert(renamed_timeline(src@, sv, start).timeline.take(j as int) =~= renamed_timeline(src@, sv, start).timeline);
            let na = Animation { name: src.name.clone(), timeline, is_looping: src.is_looping };
            let ghost before = animations@;
            animations.push(na);
            assert(na@ == target.animations[a as int]);
            assert(animations_view(animations@) =~= animations_view(before).push(na@));
            assert(target.animations.take(a + 1) =~= target.animations.take(a as int).push(na@));
            a += 1;
        }
        assert(target.animations.take(a as int) =~= target.animations);
        assert(anims.take(a as int) =~= anims);
        let export_settings = match &self.export_settings {
            Some(_) => {
                assert(optional_export_paths(self@.export_settings).len() == 4);
                let mut rest: Vec<String> = Vec::new();
                let mut x: usize = cursor;
                while x < cursor + 4
                    invariant
                        cursor <= x <= cursor + 4,
                        np == ps@.len(),
                        cursor + 4 <= ps@.len(),
                        rest@.len() == x - cursor,
                        string_views(rest@) == sv.subrange(cursor as int, x as int),
                        sv == string_views(ps@),
                    decreases cursor + 4 - x,
                {
                    let ghost before = rest@;
                    rest.push(ps[x].clone());
                    assert(string_views(rest@) =~= string_views(before).push(sv[x as int]));
                    assert(sv.subrange(cursor as int, x + 1) =~= sv.subrange(cursor as int, x as int).push(sv[x as int]));
                    x += 1;
                }
                let e = export_settings_with_paths(&rest);
                assert(string_views(rest@).take(4) =~= sv.subrange(cursor as int, cursor + 4));
                Some(e)
            },
            None => None,
        };
        let r = Sheet { frames, animations, export_settings };
        assert(r@.frames == target.frames);
        assert(r@.animations == target.animations);
        r
    }

    /// The sheet with every path made relative to directory `base`, for
    /// writing to disk; fails where one has no relative form (another drive
    /// root, for one).
    pub fn with_relative_paths(&self, base: &String) -> (r: Result<Sheet, SheetError>)
        ensures
            r matches Ok(s) ==> exists|ps: Seq<Seq<char>>| ps.len() == sheet_paths(self@).len()
                && s@ == with_sheet_paths(self@, ps),
            r matches Err(e) ==> e == SheetError::AbsoluteToRelativePath,
            sheet_paths(self@).len() == 0 ==> (r matches Ok(s) && s@ == self@),
    {
        let ps = self.paths();
        let rel = relative_paths(&ps, base)?;
        let r = self.with_paths(&rel);
        proof {
            if sheet_paths(self@).len() == 0 {
                lemma_no_paths(self@, string_views(rel@));
            }
        }
        Ok(r)
    }

    /// The sheet with every path resolved against directory `base`, as read
    /// from disk.
    pub fn with_absolute_paths(&self, base: &String) -> (r: Sheet)
        ensures
            exists|ps: Seq<Seq<char>>| ps.len() == sheet_paths(self@).len() && r@ == with_sheet_paths(self@, ps),
            sheet_paths(self@).len() == 0 ==> r@ == self@,
    {
        let ps = self.paths();
        let abs = absolute_paths(&ps, base);
        let r = self.with_paths(&abs);
        proof {
            if sheet_paths(self@).len() == 0 {
                lemma_no_paths(self@, string_views(abs@));
            }
        }
        r
    }
}

fn hitbox_name_list_of(hitboxes: &Vec<Hitbox>) -> (r: Vec<String>)
    ensures
        string_views(r@) == hitbox_names(hitboxes_view(hitboxes@)),
{
    let mut r: Vec<String> = Vec::new();
    let mut i: usize = 0;
    while i < hitboxes.len()
        invariant
            i <= hitboxes@.len(),
            string_views(r@) == hitbox_names(hitboxes_view(hitboxes@)).take(i as int),
        decreases hitboxes.len() - i,
    {
        let ghost before = r@;
        r.push(hitboxes[i].name.clone());
        assert(string_views(r@) =~= string_views(before).push(hitboxes@[i as int].name@));
        assert(hitbox_names(hitboxes_view(hitboxes@)).take(i + 1) =~= hitbox_names(hitboxes_view(hitboxes@)).take(i as int).push(hitboxes@[i as int].name@));
        i += 1;
    }
    assert(hitbox_names(hitboxes_view(hitboxes@)).take(i as int) =~= hitbox_names(hitboxes_view(hitboxes@)));
    r
}

impl Sheet {
    fn frame_source_list(&self) -> (r: Vec<String>)
        ensures
            string_views(r@) == frame_sources(self@.frames),
    {
        let mut r: Vec<String> = Vec::new();
        let mut i: usize = 0;
        while i < self.frames.len()
            invariant
                i <= self.frames@.len(),
                string_views(r@) == frame_sources(self@.frames).take(i as int),
            decreases self.frames.len() - i,
        {
            let ghost before = r@;
            r.push(self.frames[i].source.clone());
            assert(string_views(r@) =~= string_views(before).push(self.frames@[i as int].source@));
            assert(frame_sources(self@.frames).take(i + 1) =~= frame_sources(self@.frames).take(i as int).push(self.frames@[i as int].source@));
            i += 1;
        }
        assert(frame_sources(self@.frames).take(i as int) =~= frame_sources(self@.frames));
        r
    }

    /// Whether frame sources, animation names and the hitbox names of each
    /// frame and keyframe are unique: what a sheet read from disk must satisfy
    /// before it is edited.
    pub fn is_well_formed(&self) -> (r: bool)
        ensures
            r == self.wf(),
    {
        if !all_distinct(&self.frame_source_list()) {
            return false;
        }
        if !all_distinct(&self.animation_name_list()) {
            return false;
        }
        let mut i: usize = 0;
        while i < self.frames.len()
            invariant
                i <= self.frames@.len(),
                forall|x: int| 0 <= x < i ==> hitbox_names(#[trigger] self@.frames[x].hitboxes).no_duplicates(),
            decreases self.frames.len() - i,
        {
            if !all_distinct(&hitbox_name_list_of(&self.frames[i].hitboxes)) {
                assert(self@.frames[i as int].hitboxes == hitboxes_view(self.frames@[i as int].hitboxes@));
                return false;
            }
            i += 1;
        }
        let mut i: usize = 0;
        while i < self.animations.len()
            invariant
                i <= self.animations@.len(),
                forall|x: int| 0 <= x < self@.frames.len() ==> hitbox_names(#[trigger] self@.frames[x].hitboxes).no_duplicates(),
                forall|x: int, j: int| 0 <= x < i && 0 <= j < self@.animations[x].timeline.len() ==> hitbox_names(#[trigger] self@.animations[x].timeline[j].hitboxes).no_duplicates(),
            decreases self.animations.len() - i,
        {
            let a = &self.animations[i];
            let mut j: usize = 0;
            while j < a.timeline.len()
                invariant
                    j <= a.timeline@.len(),
                    i < self.animations@.len(),
                    a@ == self@.animations[i as int],
                    forall|y: int| 0 <= y < j ==> hitbox_names(#[trigger] a@.timeline[y].hitboxes).no_duplicates(),
                decreases a.timeline.len() - j,
            {
                if !all_distinct(&hitbox_name_list_of(&a.timeline[j].hitboxes)) {
                    assert(a@.timeline[j as int].hitboxes == hitboxes_view(a.timeline@[j as int].hitboxes@));
                    assert(!hitbox_names(self@.animations[i as int].timeline[j as int].hitboxes).no_duplicates());
                    return false;
                }
                j += 1;
            }
            i += 1;
        }
        true
    }
}

/// A hitbox of a frame placed on a keyframe: moved by the keyframe's offset,
/// kept within `i32`; it follows later edits (linked) and is not locked.
pub open spec fn shifted_hitbox(h: HitboxModel, o: Vec2) -> HitboxModel {
    let r = match h.geometry {
        Shape::Rectangle(r) => r,
    };
    HitboxModel {
        geometry: Shape::Rectangle(Rectangle {
            top_left: Vec2 { x: clamp_sum(r.top_left.x, o.x), y: clamp_sum(r.top_left.y, o.y) },
            size: r.size,
        }),
        linked: true,
        locked: false,
        ..h
    }
}

pub open spec fn clamp_sum(a: i32, b: i32) -> i32 {
    let v = a + b;
    if v > i32::MAX {
        i32::MAX
    } else if v < i32::MIN {
        i32::MIN
    } else {
        v as i32
    }
}

pub open spec fn shifted_hitboxes(hs: Seq<HitboxModel>, o: Vec2) -> Seq<HitboxModel> {
    hs.map_values(|h: HitboxModel| shifted_hitbox(h, o))
}

/// A keyframe after migration: it takes the hitboxes of the frame it shows,
/// moved by its offset; one showing no frame of the sheet is kept.
pub open spec fn migrated_keyframe(s: SheetModel, k: KeyframeModel) -> KeyframeModel {
    if s.has_frame(k.frame) {
        KeyframeModel { hitboxes: shifted_hitboxes(s.frame(k.frame).hitboxes, k.offset), ..k }
    } else {
        k
    }
}

/// The sheet with hitboxes moved from frames onto the keyframes that show them.
pub open spec fn migrated(s: SheetModel) -> SheetModel {
    SheetModel {
        frames: s.frames.map_values(|f: FrameModel| FrameModel { hitboxes: seq![], ..f }),
        animations: s.animations.map_values(|a: AnimationModel| AnimationModel {
            timeline: a.timeline.map_values(|k: KeyframeModel| migrated_keyframe(s, k)),
            ..a
        }),
        ..s
    }
}

fn clamp_sum_exec(a: i32, b: i32) -> (r: i32)
    ensures
        r == clamp_sum(a, b),
{
    let v = a as i64 + b as i64;
    if v > i32::MAX as i64 {
        i32::MAX
    } else if v < i32::MIN as i64 {
        i32::MIN
    } else {
        v as i32
    }
}

fn shift_hitboxes(hs: &Vec<Hitbox>, o: Vec2) -> (r: Vec<Hitbox>)
    ensures
        hitboxes_view(r@) == shifted_hitboxes(hitboxes_view(hs@), o),
{
    let mut r: Vec<Hitbox> = Vec::new();
    let mut i: usize = 0;
    while i < hs.len()
        invariant
            i <= hs@.len(),
            hitboxes_view(r@) == shifted_hitboxes(hitboxes_view(hs@), o).take(i as int),
        decreases hs.len() - i,
    {
        let h = &hs[i];
        let rect = h.get_rectangle();
        let moved = Hitbox {
            name: h.name.clone(),
            geometry: Shape::Rectangle(Rectangle {
                top_left: Vec2 {
                    x: clamp_sum_exec(rect.top_left.x, o.x),
                    y: clamp_sum_exec(rect.top_left.y, o.y),
                },
                size: rect.size,
            }),
            linked: true,
            locked: false,
        };
        let ghost before = r@;
        r.push(moved);
        assert(hitboxes_view(r@) =~= hitboxes_view(before).push(moved@));
        assert(shifted_hitboxes(hitboxes_view(hs@), o).take(i + 1) =~= shifted_hitboxes(hitboxes_view(hs@), o).take(i as int).push(moved@));
        i += 1;
    }
    assert(shifted_hitboxes(hitboxes_view(hs@), o).take(i as int) =~= shifted_hitboxes(hitboxes_view(hs@), o));
    r
}

impl Sheet {
    /// The sheet with the hitboxes of each frame moved onto every keyframe
    /// that shows it, shifted by the keyframe's offset (see `migrated`): how
    /// content kept in the per-frame layout is brought to the per-keyframe one.
    pub fn with_hitboxes_on_keyframes(&self) -> (r: Sheet)
        requires
            self.wf(),
        ensures
            r@ == migrated(self@),
            r.wf(),
    {
        let ghost m = migrated(self@);
        let mut frames: Vec<Frame> = Vec::new();
        let mut i: usize = 0;
        while i < self.frames.len()
            invariant
                i <= self.frames@.len(),
                m == migrated(self@),
                frames_view(frames@) == m.frames.take(i as int),
            decreases self.frames.len() - i,
        {
            let f = Frame::new(&self.frames[i].source);
            let ghost before = frames@;
            frames.push(f);
            assert(frames_view(frames@) =~= frames_view(before).push(f@));
            assert(m.frames.take(i + 1) =~= m.frames.take(i as int).push(f@));
            i += 1;
        }
        assert(m.frames.take(i as int) =~= m.frames);
        let mut animations: Vec<Animation> = Vec::new();
        let mut i: usize = 0;
        while i < self.animations.len()
            invariant
                i <= self.animations@.len(),
                self.wf(),
                m == migrated(self@),
                animations_view(animations@) == m.animations.take(i as int),
            decreases self.animations.len() - i,
        {
            let a = &self.animations[i];
            assert(a@ == self@.animations[i as int]);
            let mut timeline: Vec<Keyframe> = Vec::new();
            let mut j: usize = 0;
            while j < a.timeline.len()
                invariant
                    j <= a.timeline@.len(),
                    i < self.animations@.len(),
                    self.wf(),
                    a@ == self@.animations[i as int],
                    m == migrated(self@),
                    timeline_view(timeline@) == m.animations[i as int].timeline.take(j as int),
                decreases a.timeline.len() - j,
            {
                let k = &a.timeline[j];
                assert(k@ == a@.timeline[j as int]);
                let hitboxes = match self.get_frame(&k.frame) {
                    Some(f) => shift_hitboxes(&f.hitboxes, k.offset),
                    None => {
                        let c = k.hitboxes.clone();
                        assert(hitboxes_view(c@) =~= hitboxes_view(k.hitboxes@));
                        c
                    },
                };
                let nk = Keyframe { frame: k.frame.clone(), duration: k.duration, offset: k.offset, hitboxes };
                let ghost before = timeline@;
                timeline.push(nk);
                assert(nk@ == migrated_keyframe(self@, k@));
                assert(timeline_view(timeline@) =~= timeline_view(before).push(nk@));
                assert(m.animations[i as int].timeline.take(j + 1) =~= m.animations[i as int].timeline.take(j as int).push(nk@));
                j += 1;
            }
            assert(m.animations[i as int].timeline.take(j as int) =~= m.animations[i as int].timeline);
            let na = Animation { name: a.name.clone(), timeline, is_looping: a.is_looping };
            let ghost before = animations@;
            animations.push(na);
            assert(animations_view(animations@) =~= animations_view(before).push(na@));
            assert(m.animations.take(i + 1) =~= m.animations.take(i as int).push(na@));
            i += 1;
        }
        assert(m.animations.take(i as int) =~= m.animations);
        let export_settings = match &self.export_settings {
            Some(e) => Some(e.clone()),
            None => None,
        };
        let r = Sheet { frames, animations, export_settings };
        proof {
            assert(frame_sources(m.frames) =~= frame_sources(self@.frames));
            assert(animation_names(m.animations) =~= animation_names(self@.animations));
            assert forall|x: int| 0 <= x < m.frames.len() implies hitbox_names(#[trigger] m.frames[x].hitboxes).no_duplicates() by {
                assert(hitbox_names(m.frames[x].hitboxes) =~= seq![]);
            }
            assert forall|x: int, j: int| 0 <= x < m.animations.len() && 0 <= j < m.animations[x].timeline.len()
                implies hitbox_names(#[trigger] m.animations[x].timeline[j].hitboxes).no_duplicates() by {
                let k = self@.animations[x].timeline[j];
                if self@.has_frame(k.frame) {
                    let p = self@.frame_position(k.frame);
                    assert(hitbox_names(self@.frames[p].hitboxes).no_duplicates());
                    assert(hitbox_names(shifted_hitboxes(self@.frame(k.frame).hitboxes, k.offset)) =~= hitbox_names(self@.frame(k.frame).hitboxes));
                }
            }
        }
        r
    }
}

} // verus!
