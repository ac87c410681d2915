//! How splits share their area, and how their dividers follow the mouse.

use crate::app::AppView;
use crate::events::{MouseButton, MouseEvent, MouseEventKind};
use crate::geometry::Rect;
use crate::layout;
use crate::layout::{PaneLayout, SplitAxis, SplitHitView};
use crate::layout_laws;
use crate::mouse;
use vstd::prelude::*;

verus! {

/// `part` is the share of `ratio` percent of `usable` cells, rounded down, but at least one cell
/// and at most all but one.
pub open spec fn is_share(part: int, usable: int, ratio: int) -> bool {
    &&& 1 <= part <= usable - 1
    &&& part > 1 ==> 100 * part <= usable * ratio
    &&& part < usable - 1 ==> usable * ratio < 100 * (part + 1)
}

/// The parts of a split lie side by side in its area, with one column for the divider between them.
/// The first part is the left one, and has its share of the columns that the divider leaves.
pub proof fn parts_lie_side_by_side(ratio: u16, area: Rect)
    requires
        area.wf(),
        area.width >= 3,
        ratio <= 100,
    ensures
        ({
            let left = layout::first_area(SplitAxis::Horizontal, ratio, area);
            let divider = layout::divider_area(SplitAxis::Horizontal, ratio, area);
            let right = layout::second_area(SplitAxis::Horizontal, ratio, area);
            &&& left.x == area.x
            &&& left.x + left.width == divider.x
            &&& divider.width == 1
            &&& divider.x + 1 == right.x
            &&& right.x + right.width == area.x + area.width
            &&& left.y == area.y && divider.y == area.y && right.y == area.y
            &&& left.height == area.height && divider.height == area.height && right.height
                == area.height
            &&& is_share(left.width as int, area.width - 1, ratio as int)
        }),
{
    lemma_share(area.width as int, ratio as int);
}

/// The parts of a split lie on top of each other in its area, with one row for the divider between
/// them. The first part is the upper one, and has its share of the rows that the divider leaves.
pub proof fn parts_lie_on_top_of_each_other(ratio: u16, area: Rect)
    requires
        area.wf(),
        area.height >= 3,
        ratio <= 100,
    ensures
        ({
            let upper = layout::first_area(SplitAxis::Vertical, ratio, area);
            let divider = layout::divider_area(SplitAxis::Vertical, ratio, area);
            let lower = layout::second_area(SplitAxis::Vertical, ratio, area);
            &&& upper.y == area.y
            &&& upper.y + upper.height == divider.y
            &&& divider.height == 1
            &&& divider.y + 1 == lower.y
            &&& lower.y + lower.height == area.y + area.height
            &&& upper.x == area.x && divider.x == area.x && lower.x == area.x
            &&& upper.width == area.width && divider.width == area.width && lower.width
                == area.width
            &&& is_share(upper.height as int, area.height - 1, ratio as int)
        }),
{
    lemma_share(area.height as int, ratio as int);
}

/// In an area of no more than two cells the first part gets what the divider leaves.
pub proof fn small_areas_go_to_the_first_part(ratio: u16, area: Rect)
    requires
        area.wf(),
    ensures
        1 <= area.width <= 2 ==> ({
            let left = layout::first_area(SplitAxis::Horizontal, ratio, area);
            let right = layout::second_area(SplitAxis::Horizontal, ratio, area);
            right.width == 0 && left.width == area.width - 1
        }),
        1 <= area.height <= 2 ==> ({
            let upper = layout::first_area(SplitAxis::Vertical, ratio, area);
            let lower = layout::second_area(SplitAxis::Vertical, ratio, area);
            lower.height == 0 && upper.height == area.height - 1
        }),
{
}

proof fn lemma_share(total: int, ratio: int)
    requires
        3 <= total <= u16::MAX,
        0 <= ratio <= 100,
    ensures
        is_share(layout::first_extent(total, ratio), total - 1, ratio),
{
    let usable = total - 1;
    let exact = usable * ratio / 100;
    assert(0 <= usable * ratio <= usable * 100) by (nonlinear_arith)
        requires
            0 <= ratio <= 100,
            2 <= usable,
    ;
    assert(0 <= exact <= usable);
    assert(exact % 0x1_0000 == exact) by (nonlinear_arith)
        requires
            0 <= exact < 0x1_0000,
    ;
}

/// A larger ratio never makes the first part of a split smaller, and never the second part larger.
pub proof fn larger_ratios_give_larger_first_parts(
    axis: SplitAxis,
    less: u16,
    more: u16,
    area: Rect,
)
    requires
        area.wf(),
        less <= more <= 100,
    ensures
        ({
            let first = layout::first_area(axis, less, area);
            let wider = layout::first_area(axis, more, area);
            first.width <= wider.width && first.height <= wider.height
        }),
        ({
            let second = layout::second_area(axis, less, area);
            let narrower = layout::second_area(axis, more, area);
            second.width >= narrower.width && second.height >= narrower.height
        }),
{
    let total = if axis == SplitAxis::Horizontal { area.width as int } else { area.height as int };
    if total >= 3 {
        lemma_share(total, less as int);
        lemma_share(total, more as int);
        let usable = total - 1;
        assert(usable * less <= usable * more) by (nonlinear_arith)
            requires
                less <= more,
                2 <= usable,
        ;
    }
}

/// The panes of a split are those of its first part in the first area, then those of its second
/// part in the second area.
pub proof fn panes_of_a_split_lie_in_its_parts(
    axis: SplitAxis,
    ratio: u16,
    first: PaneLayout,
    second: PaneLayout,
    area: Rect,
)
    ensures
        layout::leaf_areas(
            PaneLayout::Split { axis, ratio, first: Box::new(first), second: Box::new(second) },
            area,
        ) == layout::leaf_areas(first, layout::first_area(axis, ratio, area))
            + layout::leaf_areas(second, layout::second_area(axis, ratio, area)),
{
}

/// The divider of a split comes first among its dividers, with the split as its container. The
/// dividers inside its parts follow, each with the side of its part in front of its path.
pub proof fn dividers_of_a_split_lie_in_its_parts(
    axis: SplitAxis,
    ratio: u16,
    first: PaneLayout,
    second: PaneLayout,
    area: Rect,
    group: u64,
    path: Seq<bool>,
)
    ensures
        layout::dividers_of(
            PaneLayout::Split { axis, ratio, first: Box::new(first), second: Box::new(second) },
            area,
            group,
            path,
        ) == seq![
            SplitHitView {
                group,
                path,
                axis,
                divider: layout::divider_area(axis, ratio, area),
                container: area,
            },
        ] + layout::dividers_of(
            first,
            layout::first_area(axis, ratio, area),
            group,
            path.push(false),
        ) + layout::dividers_of(
            second,
            layout::second_area(axis, ratio, area),
            group,
            path.push(true),
        ),
{
}

/// Every split of the layout gives its first part the share of the panes in it, in whole percent,
/// and that part has as many panes as the second one or one more.
pub open spec fn is_even(layout: PaneLayout) -> bool
    decreases layout,
{
    match layout {
        PaneLayout::Leaf(id) => true,
        PaneLayout::Split { axis, ratio, first, second } => {
            let left = layout::leaves(*first).len() as int;
            let right = layout::leaves(*second).len() as int;
            &&& left == right || left == right + 1
            &&& ratio * (left + right) <= 100 * left < (ratio + 1) * (left + right)
            &&& is_even(*first)
            &&& is_even(*second)
        },
    }
}

/// Tiled panes are of the same size, as far as whole percents allow it.
pub proof fn balanced_layouts_are_even(ids: Seq<u64>, axis: SplitAxis)
    requires
        ids.len() > 0,
    ensures
        is_even(layout::balanced(ids, axis)),
    decreases ids.len(),
{
    if ids.len() > 1 {
        let n = ids.len() as int;
        let midpoint = (n + 1) / 2;
        let head = ids.take(midpoint);
        let tail = ids.skip(midpoint);
        balanced_layouts_are_even(head, axis);
        balanced_layouts_are_even(tail, axis);
        layout_laws::balanced_layout_holds_all_panes(head, axis);
        layout_laws::balanced_layout_holds_all_panes(tail, axis);
        let ratio = midpoint * 100 / n;
        layout_laws::balanced_splits_are_proper(ids, axis);
        assert(0 <= ratio <= 100) by (nonlinear_arith)
            requires
                ratio == midpoint * 100 / n,
                0 <= midpoint <= n,
                n > 1,
        ;
        assert(ratio * n <= 100 * midpoint < (ratio + 1) * n) by (nonlinear_arith)
            requires
                ratio == midpoint * 100 / n,
                n > 1,
        ;
    }
}

/// The two layouts have the same splits, along the same axes, and the same leaves.
pub open spec fn same_shape(a: PaneLayout, b: PaneLayout) -> bool
    decreases a,
{
    match (a, b) {
        (PaneLayout::Leaf(x), PaneLayout::Leaf(y)) => x == y,
        (
            PaneLayout::Split { axis, ratio, first, second },
            PaneLayout::Split { axis: other, ratio: _, first: left, second: right },
        ) => axis == other && same_shape(*first, *left) && same_shape(*second, *right),
        _ => false,
    }
}

/// Equalizing a layout changes nothing but its ratios.
pub proof fn equalizing_changes_only_ratios(layout: PaneLayout)
    ensures
        same_shape(layout, layout::equalized(layout)),
    decreases layout,
{
    if let PaneLayout::Split { axis, ratio, first, second } = layout {
        equalizing_changes_only_ratios(*first);
        equalizing_changes_only_ratios(*second);
    }
}

/// The list with the item at a place replaced by two.
spec fn with_two<T>(list: Seq<T>, place: int, first: T, second: T) -> Seq<T> {
    list.update(place, first).insert(place + 1, second)
}

proof fn lemma_two_in_parts<T>(one: Seq<T>, two: Seq<T>, place: int, x: T, y: T)
    ensures
        0 <= place < one.len() ==> with_two(one + two, place, x, y) == with_two(one, place, x, y)
            + two,
        0 <= place < two.len() ==> with_two(one + two, one.len() + place, x, y) == one + with_two(
            two,
            place,
            x,
            y,
        ),
{
    if 0 <= place < one.len() {
        assert(with_two(one + two, place, x, y) =~= with_two(one, place, x, y) + two);
    }
    if 0 <= place < two.len() {
        assert(with_two(one + two, one.len() + place, x, y) =~= one + with_two(two, place, x, y));
    }
}

proof fn lemma_place_of_leaf(layout: PaneLayout, target: u64, area: Rect)
    requires
        layout::leaves(layout).contains(target),
    ensures
        ({
            let place = layout_laws::first_place(layout::leaves(layout), target);
            &&& 0 <= place < layout::leaf_areas(layout, area).len()
            &&& layout::leaf_areas(layout, area)[place].0 == target
        }),
{
    let leaves = layout::leaves(layout);
    layout_laws::leaf_areas_follow_the_leaves(layout, area);
    layout_laws::lemma_first_place_add(leaves, Seq::empty(), target);
    lemma_first_place(leaves, target);
}

proof fn lemma_first_place(ids: Seq<u64>, id: u64)
    requires
        ids.contains(id),
    ensures
        0 <= layout_laws::first_place(ids, id) < ids.len(),
        ids[layout_laws::first_place(ids, id)] == id,
    decreases ids.len(),
{
    if ids[0] != id {
        let i = choose|i: int| 0 <= i < ids.len() && ids[i] == id;
        assert(ids.drop_first()[i - 1] == id);
        lemma_first_place(ids.drop_first(), id);
    }
}

proof fn lemma_halved(layout: PaneLayout, target: u64, pane: u64, axis: SplitAxis, area: Rect)
    requires
        layout::leaves(layout).contains(target),
    ensures
        ({
            let before = layout::leaf_areas(layout, area);
            let place = layout_laws::first_place(layout::leaves(layout), target);
            let whole = before[place].1;
            layout::leaf_areas(layout::with_pane(layout, target, pane, axis), area) == with_two(
                before,
                place,
                (target, layout::first_area(axis, 50, whole)),
                (pane, layout::second_area(axis, 50, whole)),
            )
        }),
    decreases layout,
{
    let leaves = layout::leaves(layout);
    let before = layout::leaf_areas(layout, area);
    let place = layout_laws::first_place(leaves, target);
    match layout {
        PaneLayout::Leaf(leaf) => {
            assert(leaves[0] == leaf);
            reveal_with_fuel(layout::leaf_areas, 2);
            assert(layout::leaf_areas(layout::pair(target, pane, axis), area) =~= with_two(
                before,
                0,
                (target, layout::first_area(axis, 50, area)),
                (pane, layout::second_area(axis, 50, area)),
            ));
        },
        PaneLayout::Split { axis: own, ratio, first, second } => {
            let a = layout::leaves(*first);
            let b = layout::leaves(*second);
            let left = layout::first_area(own, ratio, area);
            let right = layout::second_area(own, ratio, area);
            let one = layout::leaf_areas(*first, left);
            let two = layout::leaf_areas(*second, right);
            layout_laws::lemma_first_place_add(a, b, target);
            layout_laws::leaf_areas_follow_the_leaves(*first, left);
            if a.contains(target) {
                lemma_halved(*first, target, pane, axis, left);
                lemma_place_of_leaf(*first, target, left);
                let whole = one[place].1;
                lemma_two_in_parts(
                    one,
                    two,
                    place,
                    (target, layout::first_area(axis, 50, whole)),
                    (pane, layout::second_area(axis, 50, whole)),
                );
            } else {
                assert(b.contains(target)) by {
                    let i = choose|i: int| 0 <= i < (a + b).len() && (a + b)[i] == target;
                    if i < a.len() {
                        assert(a[i] == target);
                    } else {
                        assert(b[i - a.len()] == target);
                    }
                }
                lemma_halved(*second, target, pane, axis, right);
                lemma_place_of_leaf(*second, target, right);
                let k = layout_laws::first_place(b, target);
                let whole = two[k].1;
                assert(before[place] == two[k]);
                lemma_two_in_parts(
                    one,
                    two,
                    k,
                    (target, layout::first_area(axis, 50, whole)),
                    (pane, layout::second_area(axis, 50, whole)),
                );
            }
        },
    }
}

/// A placed pane takes half of the area of its target, to the right of it or below it. No other
/// pane moves.
pub proof fn placed_panes_share_the_area_of_their_target(
    layout: PaneLayout,
    target: u64,
    pane: u64,
    axis: SplitAxis,
    area: Rect,
)
    requires
        layout::leaves(layout).contains(target),
    ensures
        ({
            let before = layout::leaf_areas(layout, area);
            let place = layout_laws::first_place(layout::leaves(layout), target);
            let whole = before[place].1;
            &&& 0 <= place < before.len()
            &&& before[place].0 == target
            &&& layout::leaf_areas(layout::with_pane(layout, target, pane, axis), area)
                == before.update(place, (target, layout::first_area(axis, 50, whole))).insert(
                place + 1,
                (pane, layout::second_area(axis, 50, whole)),
            )
        }),
{
    lemma_place_of_leaf(layout, target, area);
    lemma_halved(layout, target, pane, axis, area);
}

/// Where the container of a divider starts along its axis.
pub open spec fn start_of(hit: SplitHitView) -> int {
    if hit.axis == SplitAxis::Horizontal { hit.container.x as int } else { hit.container.y as int }
}

/// How many cells the container of a divider has along its axis.
pub open spec fn cells_of(hit: SplitHitView) -> int {
    if hit.axis == SplitAxis::Horizontal {
        hit.container.width as int
    } else {
        hit.container.height as int
    }
}

/// The column or row of the mouse that counts for a divider.
pub open spec fn cell_of(hit: SplitHitView, event: MouseEvent) -> int {
    if hit.axis == SplitAxis::Horizontal { event.column as int } else { event.row as int }
}

/// No menu and no question is open.
pub open spec fn is_free(app: AppView) -> bool {
    !(app.input_mode is ConfirmClose) && app.context_menu is None
}

/// A dragged divider follows the mouse: the new ratio is that of the cell in the container, in
/// whole percent, between 10 and 90. Nothing else of the split changes, and no pane.
pub proof fn dragged_dividers_follow_the_mouse(
    app: AppView,
    hit: SplitHitView,
    axis: SplitAxis,
    old_ratio: u16,
    first: Box<PaneLayout>,
    second: Box<PaneLayout>,
    event: MouseEvent,
    now: u64,
) -> (ratio: u16)
    requires
        event.kind == MouseEventKind::Drag(MouseButton::Left),
        is_free(app),
        app.dragging_split == Some(hit),
        app.group_layouts.contains_key(hit.group),
        layout::at_path(app.group_layouts[hit.group], hit.path) == Some(
            PaneLayout::Split { axis, ratio: old_ratio, first, second },
        ),
        cells_of(hit) >= 1,
    ensures
        ({
            let after = mouse::moused(app, event, now).0.group_layouts[hit.group];
            let passed = cell_of(hit, event) - start_of(hit);
            let total = cells_of(hit);
            &&& layout::at_path(after, hit.path) == Some(
                PaneLayout::Split { axis, ratio, first, second },
            )
            &&& 10 <= ratio <= 90
            &&& ratio > 10 ==> ratio * total <= 100 * passed
            &&& ratio < 90 ==> 100 * passed < (ratio + 1) * total
            &&& layout::leaves(after) == layout::leaves(app.group_layouts[hit.group])
        }),
        mouse::moused(app, event, now).1 is Resize,
{
    let whole = app.group_layouts[hit.group];
    let passed = cell_of(hit, event) - start_of(hit);
    let total = cells_of(hit);
    let ratio = mouse::dragged_ratio(hit, event.column as int, event.row as int);
    let value = if passed >= 0 { passed } else { 0 };
    let share = value * 100 / total;
    assert(share * total <= value * 100 < (share + 1) * total) by (nonlinear_arith)
        requires
            share == value * 100 / total,
            total >= 1,
    ;
    assert(share >= 0) by (nonlinear_arith)
        requires
            share == value * 100 / total,
            total >= 1,
            value >= 0,
    ;
    if ratio > share {
        assert(100 * passed < (ratio + 1) * total) by (nonlinear_arith)
            requires
                value * 100 < (share + 1) * total,
                passed <= value,
                share < ratio,
                total >= 1,
        ;
    }
    if ratio < share {
        assert(ratio * total <= share * total) by (nonlinear_arith)
            requires
                ratio < share,
                total >= 1,
        ;
    }
    layout_laws::replaced_parts_are_found(
        whole,
        hit.path,
        PaneLayout::Split { axis, ratio: ratio as u16, first, second },
    );
    layout_laws::moving_a_divider_keeps_the_panes(whole, hit.path, ratio as u16);
    ratio as u16
}

/// A divider that was dragged to a cell between 10 and 90 percent of its container is drawn there,
/// or before it by no more than the rounding to whole percents: a hundredth of the container and
/// two cells.
pub proof fn dragged_dividers_land_at_the_mouse(total: int, passed: int, ratio: int)
    requires
        3 <= total <= u16::MAX,
        10 * total <= 100 * passed <= 90 * total,
        10 <= ratio <= 90,
        ratio > 10 ==> ratio * total <= 100 * passed,
        ratio < 90 ==> 100 * passed < (ratio + 1) * total,
    ensures
        passed >= 1 ==> layout::first_extent(total, ratio) <= passed,
        100 * (passed - layout::first_extent(total, ratio)) < total + 200,
{
    let part = layout::first_extent(total, ratio);
    lemma_share(total, ratio);
    let usable = total - 1;
    assert(ratio * total <= 100 * passed);
    assert(usable * ratio == total * ratio - ratio) by (nonlinear_arith)
        requires
            usable == total - 1,
    ;
    assert((ratio + 1) * total == total * ratio + total) by (nonlinear_arith);
    assert(ratio * total == total * ratio) by (nonlinear_arith);
    if ratio == 90 {
        assert(90 * total == total * ratio);
    }
}

/// A press of the left button on a divider takes hold of it, and the release lets go of it.
/// Neither changes a layout.
pub proof fn dividers_are_held_from_press_to_release(
    app: AppView,
    press: MouseEvent,
    release: MouseEvent,
    place: int,
    now: u64,
)
    requires
        is_free(app),
        press.kind == MouseEventKind::Down(MouseButton::Left),
        release.kind == MouseEventKind::Up(MouseButton::Left),
        0 <= place < app.hits.split_dividers.len(),
        app.hits.split_dividers[place].divider.holds(press.column as int, press.row as int),
        forall|i: int|
            0 <= i < place ==> !(#[trigger] app.hits.split_dividers[i]).divider.holds(
                press.column as int,
                press.row as int,
            ),
    ensures
        mouse::moused(app, press, now).0 == (AppView {
            dragging_split: Some(app.hits.split_dividers[place]),
            ..app
        }),
        mouse::moused(app, press, now).1 is Idle,
        mouse::moused(app, release, now).0 == (AppView { dragging_split: None, ..app }),
        mouse::moused(app, release, now).1 is Idle,
{
    let areas = mouse::divider_areas(app.hits.split_dividers);
    lemma_first_hit(areas, press.column as int, press.row as int, 0, place);
}

/// The first rectangle that holds a cell is found.
pub(crate) proof fn lemma_first_hit(areas: Seq<Rect>, x: int, y: int, from: int, place: int)
    requires
        0 <= from <= place < areas.len(),
        areas[place].holds(x, y),
        forall|j: int| from <= j < place ==> !(#[trigger] areas[j]).holds(x, y),
    ensures
        mouse::first_hit(areas, x, y, from) == Some(place),
    decreases place - from,
{
    if from < place {
        assert(!areas[from].holds(x, y));
        lemma_first_hit(areas, x, y, from + 1, place);
    }
}

/// A drag moves no divider that was not taken hold of, and touches nothing but the layout of its
/// group.
pub proof fn drags_touch_only_the_held_divider(app: AppView, event: MouseEvent, now: u64)
    requires
        event.kind == MouseEventKind::Drag(MouseButton::Left),
        is_free(app),
    ensures
        app.dragging_split is None ==> mouse::moused(app, event, now).0 == app,
        app.dragging_split matches Some(hit) ==> ({
            let after = mouse::moused(app, event, now).0;
            &&& after.sessions == app.sessions
            &&& after.active == app.active
            &&& after.dragging_split == app.dragging_split
            &&& after.group_names == app.group_names
            &&& forall|group: u64| #[trigger]
                after.group_layouts.contains_key(group) == app.group_layouts.contains_key(group)
            &&& forall|group: u64|
                group != hit.group && app.group_layouts.contains_key(group)
                    ==> #[trigger] after.group_layouts[group] == app.group_layouts[group]
        }),
{
}

} // verus!
