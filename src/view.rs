//! The editing state that is not content: tab, selection, workbench item,
//! pan, zoom levels and timeline clock.

use vstd::prelude::*;
use vstd::view::View as _;

use crate::selection::{key_views, MultiSelection, SelectionKey};
use crate::sheet::{hitbox_names, SheetModel, Vec2};

verus! {

/// Smallest and largest workbench zoom levels.
pub const WORKBENCH_ZOOM_MIN: i32 = -4;

pub const WORKBENCH_ZOOM_MAX: i32 = 32;

/// Smallest and largest timeline zoom levels.
pub const TIMELINE_ZOOM_MIN: i32 = -4;

pub const TIMELINE_ZOOM_MAX: i32 = 4;

/// Which list of content is shown.
#[derive(Clone, Copy, Debug, PartialEq, Eq, Structural)]
pub enum ContentTab {
    Frames,
    Animations,
}

/// The single item open on the workbench.
#[derive(Debug)]
pub enum WorkbenchItem {
    Frame(String),
    Animation(String),
}

/// The current multi-selection: one kind of entity at a time.
#[derive(Debug)]
pub enum Selection {
    Frame(MultiSelection<String>),
    Animation(MultiSelection<String>),
    Hitbox(MultiSelection<String>),
    Keyframe(MultiSelection<usize>),
}

/// Editing state that is not content: tab, selection, workbench item, pan,
/// zoom levels and the timeline clock (milliseconds).
#[derive(Debug)]
pub struct View {
    pub content_tab: ContentTab,
    pub selection: Option<Selection>,
    pub workbench_item: Option<WorkbenchItem>,
    pub workbench_offset: Vec2,
    pub workbench_zoom_level: i32,
    pub timeline_zoom_level: i32,
    pub timeline_clock: u64,
}

pub ghost enum WorkbenchItemModel {
    Frame(Seq<char>),
    Animation(Seq<char>),
}

pub ghost enum SelectionModel {
    Frame(Seq<Seq<char>>, Seq<char>),
    Animation(Seq<Seq<char>>, Seq<char>),
    Hitbox(Seq<Seq<char>>, Seq<char>),
    Keyframe(Seq<usize>, usize),
}

pub ghost struct ViewModel {
    pub content_tab: ContentTab,
    pub selection: Option<SelectionModel>,
    pub workbench_item: Option<WorkbenchItemModel>,
    pub workbench_offset: Vec2,
    pub workbench_zoom_level: i32,
    pub timeline_zoom_level: i32,
    pub timeline_clock: u64,
}

impl vstd::view::View for WorkbenchItem {
    type V = WorkbenchItemModel;

    open spec fn view(&self) -> WorkbenchItemModel {
        match self {
            WorkbenchItem::Frame(p) => WorkbenchItemModel::Frame(p@),
            WorkbenchItem::Animation(n) => WorkbenchItemModel::Animation(n@),
        }
    }
}

impl vstd::view::View for Selection {
    type V = SelectionModel;

    open spec fn view(&self) -> SelectionModel {
        match self {
            Selection::Frame(s) => SelectionModel::Frame(s.keys(), s.last()),
            Selection::Animation(s) => SelectionModel::Animation(s.keys(), s.last()),
            Selection::Hitbox(s) => SelectionModel::Hitbox(s.keys(), s.last()),
            Selection::Keyframe(s) => SelectionModel::Keyframe(s.keys(), s.last()),
        }
    }
}

impl Selection {
    /// The held multi-selection has no key twice.
    pub open spec fn wf(&self) -> bool {
        match self {
            Selection::Frame(s) => s.wf(),
            Selection::Animation(s) => s.wf(),
            Selection::Hitbox(s) => s.wf(),
            Selection::Keyframe(s) => s.wf(),
        }
    }
}

pub open spec fn option_view<T: vstd::view::View>(o: Option<T>) -> Option<T::V> {
    match o {
        Some(t) => Some(t@),
        None => None,
    }
}

impl vstd::view::View for View {
    type V = ViewModel;

    open spec fn view(&self) -> ViewModel {
        ViewModel {
            content_tab: self.content_tab,
            selection: option_view(self.selection),
            workbench_item: option_view(self.workbench_item),
            workbench_offset: self.workbench_offset,
            workbench_zoom_level: self.workbench_zoom_level,
            timeline_zoom_level: self.timeline_zoom_level,
            timeline_clock: self.timeline_clock,
        }
    }
}

/// `n` is a power of two.
pub open spec fn power_of_two(n: nat) -> bool
    decreases n,
{
    if n <= 1 {
        n == 1
    } else {
        n % 2 == 0 && power_of_two(n / 2)
    }
}

/// A zoom level within `[min, max]`: a power of two `n` stands for `n`-times
/// magnification, `-n` (with `n >= 2`) for `1/n` minification.
pub open spec fn valid_zoom_level(level: int, min: int, max: int) -> bool {
    &&& min <= level <= max
    &&& (level >= 1 && power_of_two(level as nat) || level <= -2 && power_of_two((-level) as nat))
}

proof fn lemma_zoom_bounds_are_levels()
    ensures
        power_of_two(32),
        power_of_two(4),
{
    reveal_with_fuel(power_of_two, 7);
}

proof fn lemma_zoomed_in_valid(level: int, min: int, max: int)
    requires
        valid_zoom_level(level, min, max),
        max == 32 || max == 4,
        min == -4,
    ensures
        valid_zoom_level(zoomed_in(level, max), min, max),
{
    lemma_zoom_bounds_are_levels();
    if level >= 1 {
        assert((level * 2) / 2 == level);
        assert(power_of_two((level * 2) as nat));
    } else if level != -2 {
        let n = (-level) as nat;
        assert(n >= 4) by {
            if n == 3 {
                assert(!power_of_two(3));
            }
        }
    }
}

proof fn lemma_zoomed_out_valid(level: int, min: int, max: int)
    requires
        valid_zoom_level(level, min, max),
        max == 32 || max == 4,
        min == -4,
    ensures
        valid_zoom_level(zoomed_out(level, min), min, max),
{
    lemma_zoom_bounds_are_levels();
    reveal_with_fuel(power_of_two, 2);
    if level <= -2 {
        let n = (-level) as nat;
        assert(((n * 2) as nat) / 2 == n);
        assert(power_of_two((n * 2) as nat));
    }
}

/// One step of zoom in: doubles a magnification, halves a minification,
/// goes from level -2 to level 1; never past `max`.
pub open spec fn zoomed_in(level: int, max: int) -> int {
    let l = if level >= 1 {
        level * 2
    } else if level == -2 {
        1
    } else {
        -((-level) / 2)
    };
    if l > max {
        max
    } else {
        l
    }
}

/// One step of zoom out: halves a magnification, doubles a minification,
/// goes from level 1 to level -2; never past `min`.
pub open spec fn zoomed_out(level: int, min: int) -> int {
    let l = if level > 1 {
        level / 2
    } else if level == 1 {
        -2
    } else {
        level * 2
    };
    if l < min {
        min
    } else {
        l
    }
}

/// Zooming in and then out returns to the level one started from, unless
/// zooming in was stopped at the largest level.
pub proof fn lemma_zoom_round_trip(level: int, min: int, max: int)
    requires
        valid_zoom_level(level, min, max),
        level < max,
        max == 32 || max == 4,
        min == -4,
    ensures
        zoomed_out(zoomed_in(level, max), min) == level,
{
    lemma_zoom_bounds_are_levels();
    reveal_with_fuel(power_of_two, 6);
    if level >= 1 {
        assert(level == 1 || level == 2 || level == 4 || level == 8 || level == 16);
    } else {
        assert(level == -2 || level == -4);
    }
}

/// A sum kept within the range of `i32`.
pub open spec fn saturated(v: int) -> i32 {
    if v > i32::MAX {
        i32::MAX
    } else if v < i32::MIN {
        i32::MIN
    } else {
        v as i32
    }
}

pub fn saturating_add_i32(a: i32, b: i32) -> (r: i32)
    ensures
        r == saturated(a + b),
{
    let s = a as i64 + b as i64;
    if s > i32::MAX as i64 {
        i32::MAX
    } else if s < i32::MIN as i64 {
        i32::MIN
    } else {
        s as i32
    }
}

fn zoom_in_level(level: i32, max: i32) -> (r: i32)
    requires
        valid_zoom_level(level as int, i32::MIN / 4, max as int),
        0 < max <= 1024,
    ensures
        r == zoomed_in(level as int, max as int),
{
    let l = if level >= 1 {
        level * 2
    } else if level == -2 {
        1
    } else {
        -((-level) / 2)
    };
    if l > max {
        max
    } else {
        l
    }
}

fn zoom_out_level(level: i32, min: i32) -> (r: i32)
    requires
        valid_zoom_level(level as int, min as int, i32::MAX as int),
        -1024 <= min < 0,
    ensures
        r == zoomed_out(level as int, min as int),
{
    let l = if level > 1 {
        level / 2
    } else if level == 1 {
        -2
    } else {
        level * 2
    };
    if l < min {
        min
    } else {
        l
    }
}

impl Clone for WorkbenchItem {
    fn clone(&self) -> (r: Self)
        ensures
            r@ == self@,
    {
        match self {
            WorkbenchItem::Frame(p) => WorkbenchItem::Frame(p.clone()),
            WorkbenchItem::Animation(n) => WorkbenchItem::Animation(n.clone()),
        }
    }
}

impl<K: SelectionKey> MultiSelection<K> {
    /// A copy holding the same keys and anchor.
    pub fn duplicate(&self) -> (r: Self)
        ensures
            r.keys() == self.keys(),
            r.last() == self.last(),
    {
        let mut items: Vec<K> = Vec::new();
        let mut i: usize = 0;
        while i < self.items.len()
            invariant
                i <= self.items@.len(),
                key_views(items@) == self.keys().take(i as int),
            decreases self.items.len() - i,
        {
            let ghost before = items@;
            items.push(self.items[i].copy_key());
            assert(key_views(items@) =~= key_views(before).push(self.items@[i as int]@));
            assert(self.keys().take(i + 1) =~= self.keys().take(i as int).push(
                self.items@[i as int]@,
            ));
            i += 1;
        }
        assert(self.keys().take(i as int) =~= self.keys());
        MultiSelection { items, last_touched_in_range: self.last_touched_in_range.copy_key() }
    }

    /// Whether both hold the same keys, in the same order, and the same anchor.
    pub fn same_as(&self, o: &Self) -> (r: bool)
        ensures
            r == (self.keys() == o.keys() && self.last() == o.last()),
    {
        if self.items.len() != o.items.len() {
            assert(self.keys().len() != o.keys().len());
            return false;
        }
        let mut i: usize = 0;
        while i < self.items.len()
            invariant
                i <= self.items@.len(),
                self.items@.len() == o.items@.len(),
                forall|j: int| 0 <= j < i ==> self.keys()[j] == o.keys()[j],
            decreases self.items.len() - i,
        {
            if !self.items[i].same_key(&o.items[i]) {
                assert(self.keys()[i as int] != o.keys()[i as int]);
                return false;
            }
            i += 1;
        }
        assert(self.keys() =~= o.keys());
        self.last_touched_in_range.same_key(&o.last_touched_in_range)
    }
}

impl Clone for Selection {
    fn clone(&self) -> (r: Self)
        ensures
            r@ == self@,
            self.wf() ==> r.wf(),
    {
        match self {
            Selection::Frame(s) => Selection::Frame(s.duplicate()),
            Selection::Animation(s) => Selection::Animation(s.duplicate()),
            Selection::Hitbox(s) => Selection::Hitbox(s.duplicate()),
            Selection::Keyframe(s) => Selection::Keyframe(s.duplicate()),
        }
    }
}

impl Clone for View {
    fn clone(&self) -> (r: Self)
        ensures
            r@ == self@,
            match (self.selection, r.selection) {
                (Some(a), Some(b)) => a.wf() ==> b.wf(),
                _ => true,
            },
    {
        let selection = match &self.selection {
            Some(s) => Some(s.clone()),
            None => None,
        };
        let workbench_item = match &self.workbench_item {
            Some(w) => Some(w.clone()),
            None => None,
        };
        View {
            content_tab: self.content_tab,
            selection,
            workbench_item,
            workbench_offset: self.workbench_offset,
            workbench_zoom_level: self.workbench_zoom_level,
            timeline_zoom_level: self.timeline_zoom_level,
            timeline_clock: self.timeline_clock,
        }
    }
}

impl PartialEq for WorkbenchItem {
    fn eq(&self, o: &WorkbenchItem) -> (r: bool)
        ensures
            r == (self@ == o@),
    {
        match self {
            WorkbenchItem::Frame(a) => match o {
                WorkbenchItem::Frame(b) => *a == *b,
                WorkbenchItem::Animation(_) => false,
            },
            WorkbenchItem::Animation(a) => match o {
                WorkbenchItem::Animation(b) => *a == *b,
                WorkbenchItem::Frame(_) => false,
            },
        }
    }
}

impl vstd::std_specs::cmp::PartialEqSpecImpl for WorkbenchItem {
    open spec fn obeys_eq_spec() -> bool {
        true
    }

    open spec fn eq_spec(&self, o: &WorkbenchItem) -> bool {
        self@ == o@
    }
}

impl PartialEq for Selection {
    fn eq(&self, o: &Selection) -> (r: bool)
        ensures
            r == (self@ == o@),
    {
        match self {
            Selection::Frame(a) => match o {
                Selection::Frame(b) => a.same_as(b),
                _ => false,
            },
            Selection::Animation(a) => match o {
                Selection::Animation(b) => a.same_as(b),
                _ => false,
            },
            Selection::Hitbox(a) => match o {
                Selection::Hitbox(b) => a.same_as(b),
                _ => false,
            },
            Selection::Keyframe(a) => match o {
                Selection::Keyframe(b) => a.same_as(b),
                _ => false,
            },
        }
    }
}

impl vstd::std_specs::cmp::PartialEqSpecImpl for Selection {
    open spec fn obeys_eq_spec() -> bool {
        true
    }

    open spec fn eq_spec(&self, o: &Selection) -> bool {
        self@ == o@
    }
}

impl PartialEq for View {
    fn eq(&self, o: &View) -> (r: bool)
        ensures
            r == (self@ == o@),
    {
        let same_selection = match &self.selection {
            Some(a) => match &o.selection {
                Some(b) => *a == *b,
                None => false,
            },
            None => o.selection.is_none(),
        };
        let same_item = match &self.workbench_item {
            Some(a) => match &o.workbench_item {
                Some(b) => *a == *b,
                None => false,
            },
            None => o.workbench_item.is_none(),
        };
        self.content_tab == o.content_tab && same_selection && same_item
            && self.workbench_offset == o.workbench_offset && self.workbench_zoom_level
            == o.workbench_zoom_level && self.timeline_zoom_level == o.timeline_zoom_level
            && self.timeline_clock == o.timeline_clock
    }
}

impl vstd::std_specs::cmp::PartialEqSpecImpl for View {
    open spec fn obeys_eq_spec() -> bool {
        true
    }

    open spec fn eq_spec(&self, o: &View) -> bool {
        self@ == o@
    }
}

impl View {
    /// Zoom levels are valid and the selection holds no key twice.
    pub open spec fn wf(&self) -> bool {
        &&& valid_zoom_level(
            self.workbench_zoom_level as int,
            WORKBENCH_ZOOM_MIN as int,
            WORKBENCH_ZOOM_MAX as int,
        )
        &&& valid_zoom_level(
            self.timeline_zoom_level as int,
            TIMELINE_ZOOM_MIN as int,
            TIMELINE_ZOOM_MAX as int,
        )
        &&& match self.selection {
            Some(s) => s.wf(),
            None => true,
        }
    }

    /// The initial view: frames tab, nothing selected or open, no pan,
    /// both zoom levels at 1, clock at zero.
    pub fn new() -> (r: View)
        ensures
            r.wf(),
            r@ == default_view_model(),
    {
        assert(power_of_two(1));
        View {
            content_tab: ContentTab::Frames,
            selection: None,
            workbench_item: None,
            workbench_offset: Vec2 { x: 0, y: 0 },
            workbench_zoom_level: 1,
            timeline_zoom_level: 1,
            timeline_clock: 0,
        }
    }

    pub fn workbench_zoom_in(&mut self)
        requires
            old(self).wf(),
        ensures
            final(self).wf(),
            final(self)@ == (ViewModel {
                workbench_zoom_level: zoomed_in(
                    old(self).workbench_zoom_level as int,
                    WORKBENCH_ZOOM_MAX as int,
                ) as i32,
                ..old(self)@
            }),
    {
        proof {
            lemma_zoomed_in_valid(self.workbench_zoom_level as int, -4, 32);
        }
        self.workbench_zoom_level = zoom_in_level(self.workbench_zoom_level, WORKBENCH_ZOOM_MAX);
    }

    pub fn workbench_zoom_out(&mut self)
        requires
            old(self).wf(),
        ensures
            final(self).wf(),
            final(self)@ == (ViewModel {
                workbench_zoom_level: zoomed_out(
                    old(self).workbench_zoom_level as int,
                    WORKBENCH_ZOOM_MIN as int,
                ) as i32,
                ..old(self)@
            }),
    {
        proof {
            lemma_zoomed_out_valid(self.workbench_zoom_level as int, -4, 32);
        }
        self.workbench_zoom_level = zoom_out_level(self.workbench_zoom_level, WORKBENCH_ZOOM_MIN);
    }

    pub fn workbench_reset_zoom(&mut self)
        requires
            old(self).wf(),
        ensures
            final(self).wf(),
            final(self)@ == (ViewModel { workbench_zoom_level: 1, ..old(self)@ }),
    {
        assert(power_of_two(1));
        self.workbench_zoom_level = 1;
    }

    pub fn timeline_zoom_in(&mut self)
        requires
            old(self).wf(),
        ensures
            final(self).wf(),
            final(self)@ == (ViewModel {
                timeline_zoom_level: zoomed_in(
                    old(self).timeline_zoom_level as int,
                    TIMELINE_ZOOM_MAX as int,
                ) as i32,
                ..old(self)@
            }),
    {
        proof {
            lemma_zoomed_in_valid(self.timeline_zoom_level as int, -4, 4);
        }
        self.timeline_zoom_level = zoom_in_level(self.timeline_zoom_level, TIMELINE_ZOOM_MAX);
    }

    pub fn timeline_zoom_out(&mut self)
        requires
            old(self).wf(),
        ensures
            final(self).wf(),
            final(self)@ == (ViewModel {
                timeline_zoom_level: zoomed_out(
                    old(self).timeline_zoom_level as int,
                    TIMELINE_ZOOM_MIN as int,
                ) as i32,
                ..old(self)@
            }),
    {
        proof {
            lemma_zoomed_out_valid(self.timeline_zoom_level as int, -4, 4);
        }
        self.timeline_zoom_level = zoom_out_level(self.timeline_zoom_level, TIMELINE_ZOOM_MIN);
    }

    pub fn timeline_reset_zoom(&mut self)
        requires
            old(self).wf(),
        ensures
            final(self).wf(),
            final(self)@ == (ViewModel { timeline_zoom_level: 1, ..old(self)@ }),
    {
        assert(power_of_two(1));
        self.timeline_zoom_level = 1;
    }

    /// Brings the workbench pan back to the origin.
    pub fn workbench_center(&mut self)
        ensures
            final(self)@ == (ViewModel { workbench_offset: Vec2 { x: 0, y: 0 }, ..old(self)@ }),
    {
        self.workbench_offset = Vec2 { x: 0, y: 0 };
    }

    /// Moves the workbench pan by `delta`, saturating at the range of `i32`.
    pub fn pan(&mut self, delta: Vec2)
        ensures
            final(self)@ == (ViewModel {
                workbench_offset: Vec2 {
                    x: saturated(old(self).workbench_offset.x + delta.x),
                    y: saturated(old(self).workbench_offset.y + delta.y),
                },
                ..old(self)@
            }),
    {
        self.workbench_offset = Vec2 {
            x: saturating_add_i32(self.workbench_offset.x, delta.x),
            y: saturating_add_i32(self.workbench_offset.y, delta.y),
        };
    }
}

/// The view names no entity that the sheet lacks: an animation open on the
/// workbench exists, and so do the selected frames or animations; selected
/// hitboxes belong to the frame open on the workbench, selected keyframes to
/// the animation open on it.
pub open spec fn view_consistent(s: SheetModel, v: ViewModel) -> bool {
    &&& match v.workbench_item {
        Some(WorkbenchItemModel::Animation(n)) => s.has_animation(n),
        _ => true,
    }
    &&& match v.selection {
        Some(SelectionModel::Frame(keys, _)) => forall|i: int|
            0 <= i < keys.len() ==> s.has_frame(#[trigger] keys[i]),
        Some(SelectionModel::Animation(keys, _)) => forall|i: int|
            0 <= i < keys.len() ==> s.has_animation(#[trigger] keys[i]),
        Some(SelectionModel::Hitbox(keys, _)) => match v.workbench_item {
            Some(WorkbenchItemModel::Frame(p)) => s.has_frame(p) && forall|i: int|
                0 <= i < keys.len() ==> hitbox_names(s.frame(p).hitboxes).contains(#[trigger] keys[i]),
            _ => false,
        },
        Some(SelectionModel::Keyframe(keys, _)) => match v.workbench_item {
            Some(WorkbenchItemModel::Animation(n)) => forall|i: int|
                0 <= i < keys.len() ==> #[trigger] keys[i] < s.animation(n).timeline.len(),
            _ => false,
        },
        None => true,
    }
}

pub open spec fn default_view_model() -> ViewModel {
    ViewModel {
        content_tab: ContentTab::Frames,
        selection: None,
        workbench_item: None,
        workbench_offset: Vec2 { x: 0, y: 0 },
        workbench_zoom_level: 1,
        timeline_zoom_level: 1,
        timeline_clock: 0,
    }
}

} // verus!
