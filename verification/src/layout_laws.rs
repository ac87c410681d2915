//! What holds of every pane layout.

use crate::geometry;
use crate::geometry::Rect;
use crate::layout;
use crate::layout::{PaneLayout, SplitAxis, SplitHitView};
use crate::session;
use crate::session::SessionView;
use vstd::prelude::*;

verus! {

/// Every split of the layout runs along one axis.
pub open spec fn runs_along(layout: PaneLayout, axis: SplitAxis) -> bool
    decreases layout,
{
    match layout {
        PaneLayout::Leaf(id) => true,
        PaneLayout::Split { axis: own, ratio, first, second } => {
            &&& own == axis
            &&& runs_along(*first, axis)
            &&& runs_along(*second, axis)
        },
    }
}

/// A balanced layout uses the requested orientation and holds all panes, in order.
pub proof fn balanced_layout_holds_all_panes(ids: Seq<u64>, axis: SplitAxis)
    requires
        ids.len() > 0,
    ensures
        layout::leaves(layout::balanced(ids, axis)) == ids,
        runs_along(layout::balanced(ids, axis), axis),
    decreases ids.len(),
{
    if ids.len() > 1 {
        let midpoint = (ids.len() + 1) as int / 2;
        balanced_layout_holds_all_panes(ids.take(midpoint), axis);
        balanced_layout_holds_all_panes(ids.skip(midpoint), axis);
        assert(ids.take(midpoint) + ids.skip(midpoint) == ids);
    } else {
        assert(layout::leaves(layout::balanced(ids, axis)) == ids);
    }
}

/// The share of the first part of a balanced split is at least half and less than the whole.
pub proof fn balanced_splits_are_proper(ids: Seq<u64>, axis: SplitAxis)
    requires
        ids.len() > 1,
    ensures
        layout::balanced(ids, axis) matches PaneLayout::Split { ratio, .. } && 50 <= ratio < 100,
{
    let n = ids.len() as int;
    let midpoint = (n + 1) / 2;
    assert(50 <= midpoint * 100 / n < 100) by (nonlinear_arith)
        requires
            n > 1,
            midpoint == (n + 1) / 2,
    ;
}

/// The other ids.
pub open spec fn other_than(id: u64) -> spec_fn(u64) -> bool {
    |leaf: u64| leaf != id
}

/// Removing a pane takes its leaves and no others, and keeps the order of the rest. Nothing is
/// left exactly when the layout held no other pane.
pub proof fn removing_a_pane_keeps_the_others(layout: PaneLayout, id: u64)
    ensures
        match layout::without(layout, id) {
            Some(rest) => layout::leaves(rest) == layout::leaves(layout).filter(other_than(id))
                && layout::leaves(rest).len() > 0,
            None => layout::leaves(layout).filter(other_than(id)).len() == 0,
        },
    decreases layout,
{
    match layout {
        PaneLayout::Leaf(leaf) => {
            reveal_with_fuel(Seq::filter, 2);
            let one = seq![leaf];
            assert(one.drop_last() == Seq::<u64>::empty());
            assert(one.last() == leaf);
            assert(one.filter(other_than(id)) == if leaf != id { one } else { Seq::empty() });
        },
        PaneLayout::Split { axis, ratio, first, second } => {
            removing_a_pane_keeps_the_others(*first, id);
            removing_a_pane_keeps_the_others(*second, id);
            Seq::filter_distributes_over_add(
                layout::leaves(*first),
                layout::leaves(*second),
                other_than(id),
            );
            let a = layout::leaves(*first).filter(other_than(id));
            let b = layout::leaves(*second).filter(other_than(id));
            assert(a.len() == 0 ==> a + b == b);
            assert(b.len() == 0 ==> a + b == a);
        },
    }
}

/// Removing a pane that is not in the layout changes nothing.
pub proof fn removing_an_absent_pane_changes_nothing(layout: PaneLayout, id: u64)
    requires
        !layout::leaves(layout).contains(id),
    ensures
        layout::without(layout, id) == Some(layout),
    decreases layout,
{
    match layout {
        PaneLayout::Leaf(leaf) => {
            assert(layout::leaves(layout)[0] == leaf);
        },
        PaneLayout::Split { axis, ratio, first, second } => {
            lemma_not_in_parts(layout::leaves(*first), layout::leaves(*second), id);
            removing_an_absent_pane_changes_nothing(*first, id);
            removing_an_absent_pane_changes_nothing(*second, id);
        },
    }
}

proof fn lemma_not_in_parts(a: Seq<u64>, b: Seq<u64>, id: u64)
    requires
        !(a + b).contains(id),
    ensures
        !a.contains(id),
        !b.contains(id),
{
    if a.contains(id) {
        let i = choose|i: int| 0 <= i < a.len() && a[i] == id;
        assert((a + b)[i] == id);
    }
    if b.contains(id) {
        let i = choose|i: int| 0 <= i < b.len() && b[i] == id;
        assert((a + b)[a.len() + i] == id);
    }
}

/// The place of the first occurrence of an id, or the length of the list.
pub open spec fn first_place(ids: Seq<u64>, id: u64) -> int
    decreases ids.len(),
{
    if ids.len() == 0 || ids[0] == id {
        0
    } else {
        1 + first_place(ids.drop_first(), id)
    }
}

pub(crate) proof fn lemma_first_place_add(a: Seq<u64>, b: Seq<u64>, id: u64)
    ensures
        0 <= first_place(a, id) <= a.len(),
        a.contains(id) ==> first_place(a, id) < a.len() && first_place(a + b, id) == first_place(
            a,
            id,
        ),
        !a.contains(id) ==> first_place(a + b, id) == a.len() + first_place(b, id),
    decreases a.len(),
{
    if a.len() == 0 {
        assert(a + b == b);
    } else {
        assert((a + b)[0] == a[0]);
        assert((a + b).drop_first() == a.drop_first() + b);
        lemma_first_place_add(a.drop_first(), b, id);
        if a[0] != id {
            if a.contains(id) {
                let i = choose|i: int| 0 <= i < a.len() && a[i] == id;
                assert(a.drop_first()[i - 1] == id);
            }
            if a.drop_first().contains(id) {
                let i = choose|i: int| 0 <= i < a.drop_first().len() && a.drop_first()[i] == id;
                assert(a[i + 1] == id);
            }
        }
    }
}

/// A pane is inserted right behind the first leaf of its target, and no other leaf moves.
pub proof fn inserting_a_pane_puts_it_behind_its_target(
    layout: PaneLayout,
    target: u64,
    pane: u64,
    axis: SplitAxis,
)
    requires
        layout::leaves(layout).contains(target),
    ensures
        layout::leaves(layout::with_pane(layout, target, pane, axis)) == layout::leaves(
            layout,
        ).insert(first_place(layout::leaves(layout), target) + 1, pane),
    decreases layout,
{
    let before = layout::leaves(layout);
    match layout {
        PaneLayout::Leaf(leaf) => {
            assert(before[0] == leaf);
            reveal_with_fuel(layout::leaves, 2);
            let after = layout::leaves(layout::pair(target, pane, axis));
            assert(after == seq![target] + seq![pane]);
            assert(before.insert(1, pane) == after);
        },
        PaneLayout::Split { axis: own, ratio, first, second } => {
            let a = layout::leaves(*first);
            let b = layout::leaves(*second);
            lemma_first_place_add(a, b, target);
            lemma_first_place_add(b, Seq::empty(), target);
            assert(b + Seq::<u64>::empty() == b);
            if a.contains(target) {
                inserting_a_pane_puts_it_behind_its_target(*first, target, pane, axis);
                let k = first_place(a, target) + 1;
                assert((a + b).insert(k, pane) == a.insert(k, pane) + b);
            } else {
                assert(b.contains(target)) by {
                    let i = choose|i: int| 0 <= i < (a + b).len() && (a + b)[i] == target;
                    if i < a.len() {
                        assert(a[i] == target);
                    } else {
                        assert(b[i - a.len()] == target);
                    }
                }
                inserting_a_pane_puts_it_behind_its_target(*second, target, pane, axis);
                let k = first_place(b, target) + 1;
                assert((a + b).insert(a.len() + k, pane) == a + b.insert(k, pane));
            }
        },
    }
}

/// Removing a pane undoes its insertion.
pub proof fn removing_undoes_inserting(
    layout: PaneLayout,
    target: u64,
    pane: u64,
    axis: SplitAxis,
)
    requires
        target != pane,
        !layout::leaves(layout).contains(pane),
    ensures
        layout::without(layout::with_pane(layout, target, pane, axis), pane) == Some(layout),
    decreases layout,
{
    match layout {
        PaneLayout::Leaf(leaf) => {
            assert(layout::leaves(layout)[0] == leaf);
            if leaf == target {
                reveal_with_fuel(layout::without, 2);
            }
        },
        PaneLayout::Split { axis: own, ratio, first, second } => {
            lemma_not_in_parts(layout::leaves(*first), layout::leaves(*second), pane);
            if layout::leaves(*first).contains(target) {
                removing_undoes_inserting(*first, target, pane, axis);
                removing_an_absent_pane_changes_nothing(*second, pane);
            } else {
                removing_undoes_inserting(*second, target, pane, axis);
                removing_an_absent_pane_changes_nothing(*first, pane);
            }
        },
    }
}

/// Every split of the layout is at the middle.
pub open spec fn is_equal(layout: PaneLayout) -> bool
    decreases layout,
{
    match layout {
        PaneLayout::Leaf(id) => true,
        PaneLayout::Split { axis, ratio, first, second } => ratio == 50 && is_equal(*first)
            && is_equal(*second),
    }
}

/// Equalizing puts every split at the middle, keeps the panes, and is done after one time.
pub proof fn equalizing_keeps_the_panes(layout: PaneLayout)
    ensures
        is_equal(layout::equalized(layout)),
        layout::leaves(layout::equalized(layout)) == layout::leaves(layout),
        layout::equalized(layout::equalized(layout)) == layout::equalized(layout),
    decreases layout,
{
    match layout {
        PaneLayout::Leaf(id) => {},
        PaneLayout::Split { axis, ratio, first, second } => {
            equalizing_keeps_the_panes(*first);
            equalizing_keeps_the_panes(*second);
        },
    }
}

/// What was put at a path is found there.
pub proof fn replaced_parts_are_found(layout: PaneLayout, path: Seq<bool>, part: PaneLayout)
    requires
        layout::at_path(layout, path) is Some,
    ensures
        layout::at_path(layout::replaced_at(layout, path, part), path) == Some(part),
    decreases path.len(),
{
    if path.len() > 0 {
        if let PaneLayout::Split { axis, ratio, first, second } = layout {
            replaced_parts_are_found(
                if path[0] { *second } else { *first },
                path.drop_first(),
                part,
            );
        }
    }
}

/// Moving the divider of a split keeps the panes and their order.
pub proof fn moving_a_divider_keeps_the_panes(layout: PaneLayout, path: Seq<bool>, moved: u16)
    requires
        layout::at_path(layout, path) matches Some(PaneLayout::Split { .. }),
    ensures
        layout::at_path(layout, path) matches Some(
            PaneLayout::Split { axis, ratio, first, second },
        ) && layout::leaves(
            layout::replaced_at(
                layout,
                path,
                PaneLayout::Split { axis, ratio: moved, first, second },
            ),
        ) == layout::leaves(layout),
    decreases path.len(),
{
    if path.len() > 0 {
        if let PaneLayout::Split { axis, ratio, first, second } = layout {
            moving_a_divider_keeps_the_panes(
                if path[0] { *second } else { *first },
                path.drop_first(),
                moved,
            );
        }
    } else if let PaneLayout::Split { axis, ratio, first, second } = layout {
        let after = PaneLayout::Split { axis, ratio: moved, first, second };
        assert(layout::leaves(after) == layout::leaves(layout));
    }
}

proof fn lemma_divider_paths(
    layout: PaneLayout,
    part: PaneLayout,
    area: Rect,
    group: u64,
    path: Seq<bool>,
    i: int,
)
    requires
        layout::at_path(layout, path) == Some(part),
        0 <= i < layout::dividers_of(part, area, group, path).len(),
    ensures
        ({
            let hit = layout::dividers_of(part, area, group, path)[i];
            &&& hit.group == group
            &&& layout::at_path(layout, hit.path) matches Some(
                PaneLayout::Split { axis, ratio, .. },
            ) && axis == hit.axis && hit.divider == layout::divider_area(
                axis,
                ratio,
                hit.container,
            )
        }),
    decreases part,
{
    if let PaneLayout::Split { axis, ratio, first, second } = part {
        let a = layout::first_area(axis, ratio, area);
        let b = layout::second_area(axis, ratio, area);
        let one = layout::dividers_of(*first, a, group, path.push(false));
        let two = layout::dividers_of(*second, b, group, path.push(true));
        lemma_path_push(layout, path, false);
        lemma_path_push(layout, path, true);
        if i == 0 {
        } else if i <= one.len() {
            lemma_divider_paths(layout, *first, a, group, path.push(false), i - 1);
        } else {
            lemma_divider_paths(layout, *second, b, group, path.push(true), i - 1 - one.len());
        }
    }
}

proof fn lemma_path_push(layout: PaneLayout, path: Seq<bool>, side: bool)
    requires
        layout::at_path(layout, path) matches Some(PaneLayout::Split { .. }),
    ensures
        layout::at_path(layout, path) matches Some(
            PaneLayout::Split { axis, ratio, first, second },
        ) && layout::at_path(layout, path.push(side)) == Some(
            if side { *second } else { *first },
        ),
    decreases path.len(),
{
    reveal_with_fuel(layout::at_path, 2);
    if path.len() > 0 {
        if let PaneLayout::Split { axis, ratio, first, second } = layout {
            assert(path.push(side).drop_first() == path.drop_first().push(side));
            lemma_path_push(if path[0] { *second } else { *first }, path.drop_first(), side);
        }
    }
}

/// The path of every divider leads to a split along the axis of the divider, and the divider stands
/// where this split divides its container.
pub proof fn dividers_lead_to_their_splits(layout: PaneLayout, area: Rect, group: u64, i: int)
    requires
        0 <= i < layout::dividers_of(layout, area, group, Seq::empty()).len(),
    ensures
        ({
            let hit = layout::dividers_of(layout, area, group, Seq::empty())[i];
            &&& hit.group == group
            &&& layout::at_path(layout, hit.path) matches Some(
                PaneLayout::Split { axis, ratio, .. },
            ) && axis == hit.axis && hit.divider == layout::divider_area(
                axis,
                ratio,
                hit.container,
            )
        }),
{
    lemma_divider_paths(layout, layout, area, group, Seq::empty(), i);
}

/// How many of the leaf areas hold a cell.
pub open spec fn leaves_over(areas: Seq<(u64, Rect)>, x: int, y: int) -> nat
    decreases areas.len(),
{
    if areas.len() == 0 {
        0
    } else {
        leaves_over(areas.drop_last(), x, y) + if areas.last().1.holds(x, y) { 1nat } else { 0 }
    }
}

/// How many of the dividers hold a cell.
pub open spec fn dividers_over(hits: Seq<SplitHitView>, x: int, y: int) -> nat
    decreases hits.len(),
{
    if hits.len() == 0 {
        0
    } else {
        dividers_over(hits.drop_last(), x, y) + if hits.last().divider.holds(x, y) {
            1nat
        } else {
            0
        }
    }
}

proof fn lemma_leaves_over_add(a: Seq<(u64, Rect)>, b: Seq<(u64, Rect)>, x: int, y: int)
    ensures
        leaves_over(a + b, x, y) == leaves_over(a, x, y) + leaves_over(b, x, y),
    decreases b.len(),
{
    if b.len() == 0 {
        assert(a + b == a);
    } else {
        assert((a + b).drop_last() == a + b.drop_last());
        lemma_leaves_over_add(a, b.drop_last(), x, y);
    }
}

proof fn lemma_dividers_over_add(a: Seq<SplitHitView>, b: Seq<SplitHitView>, x: int, y: int)
    ensures
        dividers_over(a + b, x, y) == dividers_over(a, x, y) + dividers_over(b, x, y),
    decreases b.len(),
{
    if b.len() == 0 {
        assert(a + b == a);
    } else {
        assert((a + b).drop_last() == a + b.drop_last());
        lemma_dividers_over_add(a, b.drop_last(), x, y);
    }
}

/// No split of the layout is left without a cell for its divider in an area that has rows or
/// columns across.
pub open spec fn has_room(layout: PaneLayout, area: Rect) -> bool
    decreases layout,
{
    match layout {
        PaneLayout::Leaf(id) => true,
        PaneLayout::Split { axis, ratio, first, second } => {
            let across = match axis {
                SplitAxis::Horizontal => area.height,
                SplitAxis::Vertical => area.width,
            };
            &&& layout::extent(axis, area) > 0 || across == 0
            &&& has_room(*first, layout::first_area(axis, ratio, area))
            &&& has_room(*second, layout::second_area(axis, ratio, area))
        },
    }
}

proof fn lemma_first_extent(total: int, ratio: int)
    requires
        0 <= total,
    ensures
        0 <= layout::first_extent(total, ratio) <= geometry::minus(total, 1),
{
}

proof fn lemma_tiles(
    layout: PaneLayout,
    area: Rect,
    group: u64,
    path: Seq<bool>,
    x: int,
    y: int,
)
    requires
        area.wf(),
        layout::fits(layout, area),
        has_room(layout, area),
    ensures
        leaves_over(layout::leaf_areas(layout, area), x, y) + dividers_over(
            layout::dividers_of(layout, area, group, path),
            x,
            y,
        ) == if area.holds(x, y) { 1nat } else { 0 },
    decreases layout,
{
    match layout {
        PaneLayout::Leaf(id) => {
            let one = layout::leaf_areas(layout, area);
            assert(one.drop_last() == Seq::<(u64, Rect)>::empty());
            assert(leaves_over(one.drop_last(), x, y) == 0);
        },
        PaneLayout::Split { axis, ratio, first, second } => {
            let a = layout::first_area(axis, ratio, area);
            let b = layout::second_area(axis, ratio, area);
            let hit = SplitHitView {
                group,
                path,
                axis,
                divider: layout::divider_area(axis, ratio, area),
                container: area,
            };
            lemma_first_extent(layout::extent(axis, area), ratio as int);
            lemma_tiles(*first, a, group, path.push(false), x, y);
            lemma_tiles(*second, b, group, path.push(true), x, y);
            lemma_leaves_over_add(
                layout::leaf_areas(*first, a),
                layout::leaf_areas(*second, b),
                x,
                y,
            );
            let one = layout::dividers_of(*first, a, group, path.push(false));
            let two = layout::dividers_of(*second, b, group, path.push(true));
            lemma_dividers_over_add(seq![hit] + one, two, x, y);
            lemma_dividers_over_add(seq![hit], one, x, y);
            assert(seq![hit].drop_last() == Seq::<SplitHitView>::empty());
            assert(dividers_over(seq![hit].drop_last(), x, y) == 0);
        },
    }
}

/// The leaves and the dividers of a layout tile its area: every cell of the area is in exactly one
/// of them, and no cell outside is in any. A divider always takes one cell, so a split that gets
/// no cell along its axis is left out.
pub proof fn panes_and_dividers_tile_the_area(
    layout: PaneLayout,
    area: Rect,
    group: u64,
    x: int,
    y: int,
)
    requires
        area.wf(),
        layout::fits(layout, area),
        has_room(layout, area),
    ensures
        leaves_over(layout::leaf_areas(layout, area), x, y) + dividers_over(
            layout::dividers_of(layout, area, group, Seq::empty()),
            x,
            y,
        ) == if area.holds(x, y) { 1nat } else { 0 },
{
    lemma_tiles(layout, area, group, Seq::empty(), x, y);
}

/// The leaf areas belong to the leaves, in order.
pub proof fn leaf_areas_follow_the_leaves(layout: PaneLayout, area: Rect)
    ensures
        layout::leaf_areas(layout, area).len() == layout::leaves(layout).len(),
        forall|i: int|
            0 <= i < layout::leaves(layout).len() ==> (#[trigger] layout::leaf_areas(
                layout,
                area,
            )[i]).0 == layout::leaves(layout)[i],
    decreases layout,
{
    if let PaneLayout::Split { axis, ratio, first, second } = layout {
        leaf_areas_follow_the_leaves(*first, layout::first_area(axis, ratio, area));
        leaf_areas_follow_the_leaves(*second, layout::second_area(axis, ratio, area));
    }
}

/// The session found by an id is the first that has it.
pub proof fn the_position_is_the_first(sessions: Seq<SessionView>, id: u64)
    ensures
        session::position_of(sessions, id) matches Some(i) ==> 0 <= i < sessions.len()
            && sessions[i].id == id && forall|j: int| 0 <= j < i ==> sessions[j].id != id,
        session::position_of(sessions, id) is None ==> forall|j: int|
            0 <= j < sessions.len() ==> sessions[j].id != id,
{
    session::lemma_position(sessions, id, 0);
}

/// Every pane belongs to a session of the list, and its area is that of the leaf of the session.
pub proof fn panes_belong_to_sessions(
    areas: Seq<(u64, Rect)>,
    sessions: Seq<SessionView>,
    i: int,
)
    requires
        sessions.len() <= usize::MAX,
        0 <= i < layout::panes_among(areas, sessions).len(),
    ensures
        ({
            let pane = layout::panes_among(areas, sessions)[i];
            &&& pane.0 < sessions.len()
            &&& areas.contains((sessions[pane.0 as int].id, pane.1))
        }),
    decreases areas.len(),
{
    let rest = layout::panes_among(areas.drop_last(), sessions);
    the_position_is_the_first(sessions, areas.last().0);
    if i < rest.len() {
        panes_belong_to_sessions(areas.drop_last(), sessions, i);
        let pane = rest[i];
        let leaf = (sessions[pane.0 as int].id, pane.1);
        let k = choose|k: int|
            0 <= k < areas.drop_last().len() && areas.drop_last()[k] == leaf;
        assert(areas[k] == leaf);
    } else {
        assert(areas[areas.len() - 1] == areas.last());
    }
}

} // verus!
