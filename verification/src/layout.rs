//! The tree of panes in a pane group, and where its panes and dividers lie on the screen.

use crate::geometry;
use crate::geometry::Rect;
use crate::session::{Session, SessionView, session_position};
use vstd::prelude::*;

verus! {

/// How a split divides its area: side by side, or one above the other.
#[derive(Clone, Copy, Debug, PartialEq, Eq, Structural)]
pub enum SplitAxis {
    Horizontal,
    Vertical,
}

/// The panes of a group. A leaf holds the id of a session.
#[derive(Debug)]
pub enum PaneLayout {
    Leaf(u64),
    Split {
        axis: SplitAxis,
        /// The share of the first part, in percent.
        ratio: u16,
        first: Box<PaneLayout>,
        second: Box<PaneLayout>,
    },
}

impl Clone for PaneLayout {
    fn clone(&self) -> (r: PaneLayout)
        ensures
            r == *self,
        decreases self,
    {
        match self {
            PaneLayout::Leaf(id) => PaneLayout::Leaf(*id),
            PaneLayout::Split { axis, ratio, first, second } => PaneLayout::Split {
                axis: *axis,
                ratio: *ratio,
                first: Box::new((&**first).clone()),
                second: Box::new((&**second).clone()),
            },
        }
    }
}

/// The ids at the leaves, from first to second.
pub open spec fn leaves(layout: PaneLayout) -> Seq<u64>
    decreases layout,
{
    match layout {
        PaneLayout::Leaf(id) => seq![id],
        PaneLayout::Split { axis, ratio, first, second } => leaves(*first) + leaves(*second),
    }
}

/// The layout of `ids` that halves the list at every split, the first half being the larger one.
pub open spec fn balanced(ids: Seq<u64>, axis: SplitAxis) -> PaneLayout
    decreases ids.len(),
{
    if ids.len() == 0 {
        PaneLayout::Leaf(0)
    } else if ids.len() == 1 {
        PaneLayout::Leaf(ids[0])
    } else {
        let midpoint = (ids.len() + 1) as int / 2;
        PaneLayout::Split {
            axis,
            ratio: (midpoint * 100 / ids.len() as int) as u16,
            first: Box::new(balanced(ids.take(midpoint), axis)),
            second: Box::new(balanced(ids.skip(midpoint), axis)),
        }
    }
}

pub fn balanced_layout_ids(ids: &[u64], axis: SplitAxis) -> (r: PaneLayout)
    ensures
        r == balanced(ids@, axis),
    decreases ids@.len(),
{
    if ids.len() == 0 {
        return PaneLayout::Leaf(0);
    }
    if ids.len() == 1 {
        return PaneLayout::Leaf(ids[0]);
    }
    let midpoint: usize = ids.len() / 2 + ids.len() % 2;
    let ratio: u16 = ((midpoint as u128 * 100) / ids.len() as u128) as u16;
    let head = vstd::slice::slice_subrange(ids, 0, midpoint);
    let tail = vstd::slice::slice_subrange(ids, midpoint, ids.len());
    assert(head@ == ids@.take(midpoint as int));
    assert(tail@ == ids@.skip(midpoint as int));
    PaneLayout::Split {
        axis,
        ratio,
        first: Box::new(balanced_layout_ids(head, axis)),
        second: Box::new(balanced_layout_ids(tail, axis)),
    }
}

/// What is left of a layout without the leaves of one id. A split with one empty side becomes its
/// other side.
pub open spec fn without(layout: PaneLayout, id: u64) -> Option<PaneLayout>
    decreases layout,
{
    match layout {
        PaneLayout::Leaf(leaf) => if leaf != id { Some(layout) } else { None },
        PaneLayout::Split { axis, ratio, first, second } => match (
            without(*first, id),
            without(*second, id),
        ) {
            (Some(a), Some(b)) => Some(
                PaneLayout::Split { axis, ratio, first: Box::new(a), second: Box::new(b) },
            ),
            (Some(a), None) => Some(a),
            (None, Some(b)) => Some(b),
            (None, None) => None,
        },
    }
}

pub fn remove_layout_leaf(layout: PaneLayout, id: u64) -> (r: Option<PaneLayout>)
    ensures
        r == without(layout, id),
    decreases layout,
{
    match layout {
        PaneLayout::Leaf(leaf) => if leaf != id { Some(PaneLayout::Leaf(leaf)) } else { None },
        PaneLayout::Split { axis, ratio, first, second } => {
            match (remove_layout_leaf(*first, id), remove_layout_leaf(*second, id)) {
                (Some(first), Some(second)) => Some(
                    PaneLayout::Split {
                        axis,
                        ratio,
                        first: Box::new(first),
                        second: Box::new(second),
                    },
                ),
                (Some(layout), None) => Some(layout),
                (None, Some(layout)) => Some(layout),
                (None, None) => None,
            }
        },
    }
}

/// The layout with every split at the middle.
pub open spec fn equalized(layout: PaneLayout) -> PaneLayout
    decreases layout,
{
    match layout {
        PaneLayout::Leaf(id) => layout,
        PaneLayout::Split { axis, ratio, first, second } => PaneLayout::Split {
            axis,
            ratio: 50,
            first: Box::new(equalized(*first)),
            second: Box::new(equalized(*second)),
        },
    }
}

pub fn equalize_layout(layout: &mut PaneLayout)
    ensures
        *final(layout) == equalized(*old(layout)),
    decreases *old(layout),
{
    if let PaneLayout::Split { ratio, first, second, .. } = layout {
        *ratio = 50;
        equalize_layout(first);
        equalize_layout(second);
    }
}

/// The split that puts `pane` beside or below `target`.
pub open spec fn pair(target: u64, pane: u64, axis: SplitAxis) -> PaneLayout {
    PaneLayout::Split {
        axis,
        ratio: 50,
        first: Box::new(PaneLayout::Leaf(target)),
        second: Box::new(PaneLayout::Leaf(pane)),
    }
}

/// The layout with the first leaf of `target` replaced by a split of `target` and `pane`.
pub open spec fn with_pane(
    layout: PaneLayout,
    target: u64,
    pane: u64,
    axis: SplitAxis,
) -> PaneLayout
    decreases layout,
{
    match layout {
        PaneLayout::Leaf(id) => if id == target { pair(target, pane, axis) } else { layout },
        PaneLayout::Split { axis: own, ratio, first, second } => if leaves(*first).contains(
            target,
        ) {
            PaneLayout::Split {
                axis: own,
                ratio,
                first: Box::new(with_pane(*first, target, pane, axis)),
                second,
            }
        } else {
            PaneLayout::Split {
                axis: own,
                ratio,
                first,
                second: Box::new(with_pane(*second, target, pane, axis)),
            }
        },
    }
}

proof fn lemma_contains_split(a: Seq<u64>, b: Seq<u64>, x: u64)
    ensures
        (a + b).contains(x) <==> a.contains(x) || b.contains(x),
{
    if a.contains(x) {
        let i = choose|i: int| 0 <= i < a.len() && a[i] == x;
        assert((a + b)[i] == x);
    }
    if b.contains(x) {
        let i = choose|i: int| 0 <= i < b.len() && b[i] == x;
        assert((a + b)[a.len() + i] == x);
    }
}

pub(crate) proof fn lemma_with_pane_absent(layout: PaneLayout, target: u64, pane: u64, axis: SplitAxis)
    requires
        !leaves(layout).contains(target),
    ensures
        with_pane(layout, target, pane, axis) == layout,
    decreases layout,
{
    match layout {
        PaneLayout::Leaf(id) => {
            assert(leaves(layout)[0] == id);
        },
        PaneLayout::Split { axis: own, ratio, first, second } => {
            lemma_contains_split(leaves(*first), leaves(*second), target);
            lemma_with_pane_absent(*second, target, pane, axis);
        },
    }
}

pub fn insert_layout_leaf(layout: &mut PaneLayout, target: u64, pane: u64, axis: SplitAxis) -> (r:
    bool)
    ensures
        r == leaves(*old(layout)).contains(target),
        *final(layout) == with_pane(*old(layout), target, pane, axis),
    decreases *old(layout),
{
    let ghost before = *layout;
    match layout {
        PaneLayout::Leaf(id) => {
            proof {
                assert(leaves(before) == seq![*id]);
                assert(leaves(before)[0] == *id);
            }
            if *id == target {
                *layout = PaneLayout::Split {
                    axis,
                    ratio: 50,
                    first: Box::new(PaneLayout::Leaf(target)),
                    second: Box::new(PaneLayout::Leaf(pane)),
                };
                true
            } else {
                false
            }
        },
        PaneLayout::Split { first, second, .. } => {
            proof {
                lemma_contains_split(leaves(**first), leaves(**second), target);
                if !leaves(**first).contains(target) {
                    lemma_with_pane_absent(**first, target, pane, axis);
                }
            }
            insert_layout_leaf(first, target, pane, axis) || insert_layout_leaf(
                second,
                target,
                pane,
                axis,
            )
        },
    }
}

/// The part of a layout that a path leads to: `false` goes to the first side of a split, `true`
/// to the second.
pub open spec fn at_path(layout: PaneLayout, path: Seq<bool>) -> Option<PaneLayout>
    decreases path.len(),
{
    if path.len() == 0 {
        Some(layout)
    } else {
        match layout {
            PaneLayout::Leaf(id) => None,
            PaneLayout::Split { axis, ratio, first, second } => at_path(
                if path[0] { *second } else { *first },
                path.drop_first(),
            ),
        }
    }
}

/// The layout with the part at a path replaced.
pub open spec fn replaced_at(layout: PaneLayout, path: Seq<bool>, part: PaneLayout) -> PaneLayout
    decreases path.len(),
{
    if path.len() == 0 {
        part
    } else {
        match layout {
            PaneLayout::Leaf(id) => layout,
            PaneLayout::Split { axis, ratio, first, second } => if path[0] {
                PaneLayout::Split {
                    axis,
                    ratio,
                    first,
                    second: Box::new(replaced_at(*second, path.drop_first(), part)),
                }
            } else {
                PaneLayout::Split {
                    axis,
                    ratio,
                    first: Box::new(replaced_at(*first, path.drop_first(), part)),
                    second,
                }
            },
        }
    }
}

pub fn layout_at_path_mut<'a>(layout: &'a mut PaneLayout, path: &[bool]) -> (r: Option<
    &'a mut PaneLayout,
>)
    ensures
        match r {
            Some(part) => {
                &&& at_path(*old(layout), path@) == Some(*part)
                &&& *final(layout) == replaced_at(*old(layout), path@, *final(part))
            },
            None => {
                &&& at_path(*old(layout), path@) is None
                &&& *final(layout) == *old(layout)
            },
        },
    decreases path@.len(),
{
    if path.len() == 0 {
        return Some(layout);
    }
    let rest = vstd::slice::slice_subrange(path, 1, path.len());
    assert(rest@ == path@.drop_first());
    match layout {
        PaneLayout::Split { first, second, .. } => {
            if path[0] {
                layout_at_path_mut(second, rest)
            } else {
                layout_at_path_mut(first, rest)
            }
        },
        PaneLayout::Leaf(_) => None,
    }
}

/// The divider of a split on the screen.
pub struct SplitHit {
    pub group: u64,
    /// The path of the split in the layout of the group.
    pub path: Vec<bool>,
    pub axis: SplitAxis,
    pub divider: Rect,
    /// The area that the split divides.
    pub container: Rect,
}

/// A divider with its path as a sequence.
pub struct SplitHitView {
    pub group: u64,
    pub path: Seq<bool>,
    pub axis: SplitAxis,
    pub divider: Rect,
    pub container: Rect,
}

impl View for SplitHit {
    type V = SplitHitView;

    open spec fn view(&self) -> SplitHitView {
        SplitHitView {
            group: self.group,
            path: self.path@,
            axis: self.axis,
            divider: self.divider,
            container: self.container,
        }
    }
}

impl Clone for SplitHit {
    fn clone(&self) -> (r: SplitHit)
        ensures
            r@ == self@,
    {
        SplitHit {
            group: self.group,
            path: copied_path(&self.path),
            axis: self.axis,
            divider: self.divider,
            container: self.container,
        }
    }
}

/// The views of a list of dividers.
pub open spec fn split_hit_views(hits: Seq<SplitHit>) -> Seq<SplitHitView> {
    Seq::new(hits.len(), |i: int| hits[i]@)
}

fn copied_path(path: &Vec<bool>) -> (r: Vec<bool>)
    ensures
        r@ == path@,
{
    let mut r: Vec<bool> = Vec::new();
    for i in 0..path.len()
        invariant
            r@ == path@.take(i as int),
    {
        r.push(path[i]);
        assert(path@.take(i as int + 1) == path@.take(i as int).push(path@[i as int]));
    }
    assert(path@.take(path@.len() as int) == path@);
    r
}

/// The extent of an area along an axis.
pub open spec fn extent(axis: SplitAxis, area: Rect) -> int {
    match axis {
        SplitAxis::Horizontal => area.width as int,
        SplitAxis::Vertical => area.height as int,
    }
}

/// The extent of the first part of a split. One cell goes to the divider. The share of the first
/// part is taken modulo the range of `u16` and kept so that both parts have at least one cell,
/// where there are cells for both.
pub open spec fn first_extent(total: int, ratio: int) -> int {
    let usable = geometry::minus(total, 1);
    if usable >= 2 {
        let share = (usable * ratio / 100) % 0x1_0000;
        if share < 1 {
            1
        } else if share > usable - 1 {
            usable - 1
        } else {
            share
        }
    } else {
        usable
    }
}

/// The extent of the second part of a split.
pub open spec fn second_extent(total: int, ratio: int) -> int {
    geometry::minus(total, 1) - first_extent(total, ratio)
}

/// The area of the first part of a split.
pub open spec fn first_area(axis: SplitAxis, ratio: u16, area: Rect) -> Rect {
    let len = first_extent(extent(axis, area), ratio as int);
    match axis {
        SplitAxis::Horizontal => geometry::rect(
            area.x as int,
            area.y as int,
            len,
            area.height as int,
        ),
        SplitAxis::Vertical => geometry::rect(area.x as int, area.y as int, area.width as int, len),
    }
}

/// The area of the divider of a split.
pub open spec fn divider_area(axis: SplitAxis, ratio: u16, area: Rect) -> Rect {
    let len = first_extent(extent(axis, area), ratio as int);
    match axis {
        SplitAxis::Horizontal => geometry::rect(area.x + len, area.y as int, 1, area.height as int),
        SplitAxis::Vertical => geometry::rect(area.x as int, area.y + len, area.width as int, 1),
    }
}

/// The area of the second part of a split.
pub open spec fn second_area(axis: SplitAxis, ratio: u16, area: Rect) -> Rect {
    let len = first_extent(extent(axis, area), ratio as int);
    let rest = second_extent(extent(axis, area), ratio as int);
    match axis {
        SplitAxis::Horizontal => geometry::rect(
            area.x + len + 1,
            area.y as int,
            rest,
            area.height as int,
        ),
        SplitAxis::Vertical => geometry::rect(
            area.x as int,
            area.y + len + 1,
            area.width as int,
            rest,
        ),
    }
}

/// Where the leaves of a layout lie when it fills an area, from first to second.
pub open spec fn leaf_areas(layout: PaneLayout, area: Rect) -> Seq<(u64, Rect)>
    decreases layout,
{
    match layout {
        PaneLayout::Leaf(id) => seq![(id, area)],
        PaneLayout::Split { axis, ratio, first, second } => leaf_areas(
            *first,
            first_area(axis, ratio, area),
        ) + leaf_areas(*second, second_area(axis, ratio, area)),
    }
}

/// The panes among the leaf areas: those whose session exists, with the place of the session.
pub open spec fn panes_among(
    areas: Seq<(u64, Rect)>,
    sessions: Seq<SessionView>,
) -> Seq<(usize, Rect)>
    decreases areas.len(),
{
    if areas.len() == 0 {
        Seq::empty()
    } else {
        let rest = panes_among(areas.drop_last(), sessions);
        match crate::session::position_of(sessions, areas.last().0) {
            Some(index) => rest.push((index as usize, areas.last().1)),
            None => rest,
        }
    }
}

/// The dividers of a layout that fills an area. The divider of a split comes before those inside
/// its parts.
pub open spec fn dividers_of(
    layout: PaneLayout,
    area: Rect,
    group: u64,
    path: Seq<bool>,
) -> Seq<SplitHitView>
    decreases layout,
{
    match layout {
        PaneLayout::Leaf(id) => Seq::empty(),
        PaneLayout::Split { axis, ratio, first, second } => seq![
            SplitHitView {
                group,
                path,
                axis,
                divider: divider_area(axis, ratio, area),
                container: area,
            },
        ] + dividers_of(*first, first_area(axis, ratio, area), group, path.push(false))
            + dividers_of(*second, second_area(axis, ratio, area), group, path.push(true)),
    }
}

/// The coordinates of all parts of the layout stay within `u16`.
pub open spec fn fits(layout: PaneLayout, area: Rect) -> bool
    decreases layout,
{
    match layout {
        PaneLayout::Leaf(id) => true,
        PaneLayout::Split { axis, ratio, first, second } => {
            let start = match axis {
                SplitAxis::Horizontal => area.x as int,
                SplitAxis::Vertical => area.y as int,
            };
            &&& start + first_extent(extent(axis, area), ratio as int) + 1 <= u16::MAX
            &&& fits(*first, first_area(axis, ratio, area))
            &&& fits(*second, second_area(axis, ratio, area))
        },
    }
}

fn first_len(total: u16, ratio: u16) -> (r: u16)
    ensures
        r == first_extent(total as int, ratio as int),
        r <= geometry::minus(total as int, 1),
{
    let usable = total.saturating_sub(1);
    if usable >= 2 {
        proof {
            assert(usable as int * ratio as int <= 65535 * 65535) by (nonlinear_arith)
                requires
                    usable <= 65535,
                    ratio <= 65535,
            ;
        }
        let wide: u32 = (usable as u32 * ratio as u32) / 100;
        let share: u16 = #[verifier::truncate] (wide as u16);
        assert(share == wide % 0x1_0000) by (bit_vector)
            requires
                share == wide as u16,
        ;
        if share < 1 {
            1
        } else if share > usable - 1 {
            usable - 1
        } else {
            share
        }
    } else {
        usable
    }
}

/// Whether the coordinates of all parts of the layout stay within `u16`.
pub fn layout_fits(layout: &PaneLayout, area: Rect) -> (r: bool)
    ensures
        r == fits(*layout, area),
    decreases layout,
{
    match layout {
        PaneLayout::Leaf(_) => true,
        PaneLayout::Split { axis, ratio, first, second } => {
            let start: u16 = match axis {
                SplitAxis::Horizontal => area.x,
                SplitAxis::Vertical => area.y,
            };
            let total: u16 = match axis {
                SplitAxis::Horizontal => area.width,
                SplitAxis::Vertical => area.height,
            };
            let len = first_len(total, *ratio);
            if start as u32 + len as u32 + 1 > u16::MAX as u32 {
                return false;
            }
            let (first_part, _, second_part) = split_area(*axis, *ratio, area);
            layout_fits(first, first_part) && layout_fits(second, second_part)
        },
    }
}

/// The areas of the first part, the divider and the second part of a split.
fn split_area(axis: SplitAxis, ratio: u16, area: Rect) -> (r: (Rect, Rect, Rect))
    requires
        match axis {
            SplitAxis::Horizontal => area.x as int,
            SplitAxis::Vertical => area.y as int,
        } + first_extent(extent(axis, area), ratio as int) + 1 <= u16::MAX,
    ensures
        r.0 == first_area(axis, ratio, area),
        r.1 == divider_area(axis, ratio, area),
        r.2 == second_area(axis, ratio, area),
{
    let total: u16 = match axis {
        SplitAxis::Horizontal => area.width,
        SplitAxis::Vertical => area.height,
    };
    let len = first_len(total, ratio);
    let rest = total.saturating_sub(1).saturating_sub(len);
    match axis {
        SplitAxis::Horizontal => (
            Rect::new(area.x, area.y, len, area.height),
            Rect::new(area.x + len, area.y, 1, area.height),
            Rect::new(area.x + len + 1, area.y, rest, area.height),
        ),
        SplitAxis::Vertical => (
            Rect::new(area.x, area.y, area.width, len),
            Rect::new(area.x, area.y + len, area.width, 1),
            Rect::new(area.x, area.y + len + 1, area.width, rest),
        ),
    }
}

proof fn lemma_panes_among_add(
    a: Seq<(u64, Rect)>,
    b: Seq<(u64, Rect)>,
    sessions: Seq<SessionView>,
)
    ensures
        panes_among(a + b, sessions) == panes_among(a, sessions) + panes_among(b, sessions),
    decreases b.len(),
{
    if b.len() == 0 {
        assert(a + b == a);
    } else {
        lemma_panes_among_add(a, b.drop_last(), sessions);
        assert((a + b).drop_last() == a + b.drop_last());
        assert((a + b).last() == b.last());
    }
}

/// Adds the panes and the dividers of a layout that fills `area` to `panes` and `dividers`.
/// A leaf whose session does not exist takes its place and is no pane.
pub fn collect_layout_geometry(
    layout: &PaneLayout,
    area: Rect,
    group: u64,
    path: &mut Vec<bool>,
    sessions: &[Session],
    panes: &mut Vec<(usize, Rect)>,
    dividers: &mut Vec<SplitHit>,
)
    requires
        fits(*layout, area),
    ensures
        final(path)@ == old(path)@,
        final(panes)@ == old(panes)@ + panes_among(
            leaf_areas(*layout, area),
            crate::session::session_views(sessions@),
        ),
        split_hit_views(final(dividers)@) == split_hit_views(old(dividers)@) + dividers_of(
            *layout,
            area,
            group,
            old(path)@,
        ),
    decreases layout,
{
    let ghost views = crate::session::session_views(sessions@);
    match layout {
        PaneLayout::Leaf(id) => {
            proof {
                let areas = leaf_areas(*layout, area);
                assert(areas.drop_last() == Seq::<(u64, Rect)>::empty());
                assert(panes_among(areas.drop_last(), views) == Seq::<(usize, Rect)>::empty());
            }
            if let Some(index) = session_position(sessions, *id) {
                panes.push((index, area));
            }
        },
        PaneLayout::Split { axis, ratio, first, second } => {
            let (first_part, divider, second_part) = split_area(*axis, *ratio, area);
            let hit = SplitHit {
                group,
                path: copied_path(path),
                axis: *axis,
                divider,
                container: area,
            };
            let ghost before = split_hit_views(dividers@);
            dividers.push(hit);
            assert(split_hit_views(dividers@) == before.push(hit@));
            let ghost outer = path@;
            path.push(false);
            collect_layout_geometry(first, first_part, group, path, sessions, panes, dividers);
            path.pop();
            assert(path@ == outer);
            path.push(true);
            collect_layout_geometry(second, second_part, group, path, sessions, panes, dividers);
            path.pop();
            assert(path@ == outer);
            proof {
                lemma_panes_among_add(
                    leaf_areas(**first, first_part),
                    leaf_areas(**second, second_part),
                    views,
                );
            }
        },
    }
}

/// The sessions of a group, in order.
pub open spec fn members(sessions: Seq<SessionView>, group: u64) -> Seq<u64>
    decreases sessions.len(),
{
    if sessions.len() == 0 {
        Seq::empty()
    } else {
        let rest = members(sessions.drop_last(), group);
        if sessions.last().group == Some(group) {
            rest.push(sessions.last().id)
        } else {
            rest
        }
    }
}

/// The layout that halves the members of a group at every split.
pub fn balanced_layout(sessions: &[Session], group: u64, axis: SplitAxis) -> (r: PaneLayout)
    ensures
        r == balanced(members(crate::session::session_views(sessions@), group), axis),
{
    let ghost views = crate::session::session_views(sessions@);
    let mut ids: Vec<u64> = Vec::new();
    for i in 0..sessions.len()
        invariant
            views == crate::session::session_views(sessions@),
            ids@ == members(views.take(i as int), group),
    {
        assert(views.take(i as int + 1).drop_last() == views.take(i as int));
        if let Some(own) = sessions[i].group {
            if own == group {
                ids.push(sessions[i].id);
            }
        }
    }
    assert(views.take(sessions@.len() as int) == views);
    balanced_layout_ids(ids.as_slice(), axis)
}

/// The layout of a group that has none of its own: its members side by side.
pub fn layout_for_group(sessions: &[Session], group: u64) -> (r: PaneLayout)
    ensures
        r == balanced(
            members(crate::session::session_views(sessions@), group),
            SplitAxis::Horizontal,
        ),
{
    balanced_layout(sessions, group, SplitAxis::Horizontal)
}

} // verus!
