//! What holds of the order of the tabs and of moving between them.

use crate::app::AppView;
use crate::events::KeyCode;
use crate::geometry::Rect;
use crate::session::SessionView;
use crate::tabs;
use crate::text;
use vstd::prelude::*;

verus! {

/// Nothing occurs twice.
pub open spec fn is_distinct(list: Seq<usize>) -> bool {
    forall|j: int, k: int| 0 <= j < k < list.len() ==> #[trigger] list[j] != #[trigger] list[k]
}

/// The sessions whose rows are added for the first `count` sessions.
spec fn is_listed(sessions: Seq<SessionView>, count: int, i: int) -> bool {
    match sessions[i].group {
        None => i < count,
        Some(group) => exists|j: int|
            0 <= j < count && (#[trigger] sessions[j]).group == Some(group),
    }
}

proof fn lemma_order(sessions: Seq<SessionView>, count: int)
    requires
        0 <= count <= sessions.len() <= usize::MAX,
    ensures
        is_distinct(tabs::order_upto(sessions, count)),
        forall|k: int|
            0 <= k < tabs::order_upto(sessions, count).len() ==> (#[trigger] tabs::order_upto(
                sessions,
                count,
            )[k]) < sessions.len() && is_listed(
                sessions,
                count,
                tabs::order_upto(sessions, count)[k] as int,
            ),
        forall|i: int|
            0 <= i < sessions.len() && #[trigger] is_listed(sessions, count, i)
                ==> tabs::order_upto(sessions, count).contains(i as usize),
    decreases count,
{
    let all = tabs::order_upto(sessions, count);
    if count > 0 {
        let last = count - 1;
        lemma_order(sessions, last);
        let before = tabs::order_upto(sessions, last);
        let rows = tabs::rows_of(sessions, last);
        if let Some(group) = sessions[last].group {
            tabs::lemma_member_places(sessions, group, sessions.len() as int);
        }
        assert forall|k: int| 0 <= k < all.len() implies (#[trigger] all[k]) < sessions.len()
            && is_listed(sessions, count, all[k] as int) by {
            if k < before.len() {
                assert(all[k] == before[k]);
                assert(is_listed(sessions, last, before[k] as int));
            } else {
                assert(all[k] == rows[k - before.len()]);
                assert(sessions[last].group == sessions[all[k] as int].group);
            }
        }
        assert forall|j: int, k: int| 0 <= j < k < all.len() implies #[trigger] all[j]
            != #[trigger] all[k] by {
            if k < before.len() {
                assert(all[j] == before[j] && all[k] == before[k]);
            } else if j >= before.len() {
                assert(all[j] == rows[j - before.len()] && all[k] == rows[k - before.len()]);
            } else {
                assert(all[j] == before[j] && all[k] == rows[k - before.len()]);
                assert(is_listed(sessions, last, before[j] as int));
                if sessions[last].group is Some && tabs::opens_group(sessions, last) {
                    assert(!is_listed(sessions, last, all[k] as int));
                }
            }
        }
        assert forall|i: int|
            0 <= i < sessions.len() && #[trigger] is_listed(
                sessions,
                count,
                i,
            ) implies all.contains(i as usize) by {
            if is_listed(sessions, last, i) {
                let k = choose|k: int| 0 <= k < before.len() && before[k] == i as usize;
                assert(all[k] == i as usize);
            } else if sessions[i].group is None {
                assert(i == last);
                assert(rows[0] == i as usize);
                assert(all[before.len() as int] == i as usize);
            } else {
                let group = sessions[i].group->0;
                assert(sessions[last].group == Some(group));
                assert(tabs::opens_group(sessions, last)) by {
                    assert forall|j: int| 0 <= j < last implies (#[trigger] sessions[j]).group
                        != sessions[last].group by {
                        if sessions[j].group == Some(group) {
                            assert(is_listed(sessions, last, i));
                        }
                    }
                }
                let k = choose|k: int| 0 <= k < rows.len() && rows[k] == i as usize;
                assert(all[before.len() + k] == i as usize);
            }
        }
    }
}

/// Every session has exactly one row in the sidebar, and every row is that of a session.
pub proof fn every_session_has_one_row(sessions: Seq<SessionView>)
    requires
        sessions.len() <= usize::MAX,
    ensures
        is_distinct(tabs::order(sessions)),
        forall|k: int|
            0 <= k < tabs::order(sessions).len() ==> #[trigger] tabs::order(sessions)[k]
                < sessions.len(),
        forall|i: int|
            0 <= i < sessions.len() ==> #[trigger] tabs::order(sessions).contains(i as usize),
{
    lemma_order(sessions, sessions.len() as int);
    assert forall|i: int| 0 <= i < sessions.len() implies #[trigger] tabs::order(
        sessions,
    ).contains(i as usize) by {
        if sessions[i].group is Some {
            assert(sessions[i].group == Some(sessions[i].group->0));
        }
        assert(is_listed(sessions, sessions.len() as int, i));
    }
}

/// Between two rows of one group, all rows belong to the group.
spec fn is_together(sessions: Seq<SessionView>, list: Seq<usize>) -> bool {
    forall|j: int, k: int, l: int|
        0 <= j <= k <= l < list.len() && sessions[#[trigger] list[j] as int].group is Some
            && sessions[list[j] as int].group == sessions[#[trigger] list[l] as int].group
            ==> sessions[#[trigger] list[k] as int].group == sessions[list[j] as int].group
}

proof fn lemma_together(sessions: Seq<SessionView>, count: int)
    requires
        0 <= count <= sessions.len() <= usize::MAX,
    ensures
        is_together(sessions, tabs::order_upto(sessions, count)),
    decreases count,
{
    let all = tabs::order_upto(sessions, count);
    if count > 0 {
        let last = count - 1;
        lemma_together(sessions, last);
        lemma_order(sessions, last);
        let before = tabs::order_upto(sessions, last);
        let rows = tabs::rows_of(sessions, last);
        if let Some(group) = sessions[last].group {
            tabs::lemma_member_places(sessions, group, sessions.len() as int);
        }
        assert forall|j: int, k: int, l: int|
            0 <= j <= k <= l < all.len() && sessions[#[trigger] all[j] as int].group is Some
                && sessions[all[j] as int].group == sessions[#[trigger] all[l] as int].group implies sessions[
        #[trigger] all[k] as int].group == sessions[all[j] as int].group by {
            if l < before.len() {
                assert(all[j] == before[j] && all[k] == before[k] && all[l] == before[l]);
            } else {
                assert(all[l] == rows[l - before.len()]);
                if j < before.len() {
                    assert(all[j] == before[j]);
                    assert(is_listed(sessions, last, before[j] as int));
                    assert(sessions[last].group == sessions[all[l] as int].group);
                    assert(tabs::opens_group(sessions, last));
                    assert(false);
                } else {
                    assert(all[j] == rows[j - before.len()]);
                    assert(all[k] == rows[k - before.len()]);
                }
            }
        }
    }
}

/// The rows of a group stand together in the sidebar.
pub proof fn groups_stay_together(sessions: Seq<SessionView>, j: int, k: int, l: int)
    requires
        sessions.len() <= usize::MAX,
        0 <= j <= k <= l < tabs::order(sessions).len(),
        sessions[tabs::order(sessions)[j] as int].group is Some,
        sessions[tabs::order(sessions)[j] as int].group
            == sessions[tabs::order(sessions)[l] as int].group,
    ensures
        sessions[tabs::order(sessions)[k] as int].group
            == sessions[tabs::order(sessions)[j] as int].group,
{
    lemma_together(sessions, sessions.len() as int);
}

proof fn lemma_units(sessions: Seq<SessionView>, count: int)
    requires
        0 <= count <= sessions.len() <= usize::MAX,
    ensures
        ({
            let list = tabs::units_upto(sessions, count);
            &&& forall|k: int|
                0 <= k < list.len() ==> (#[trigger] list[k]) < count && tabs::is_unit(
                    sessions,
                    list[k] as int,
                )
            &&& forall|j: int, k: int|
                0 <= j < k < list.len() ==> #[trigger] list[j] < #[trigger] list[k]
            &&& forall|i: int|
                0 <= i < count && #[trigger] tabs::is_unit(sessions, i) ==> list.contains(
                    i as usize,
                )
        }),
    decreases count,
{
    if count > 0 {
        lemma_units(sessions, count - 1);
        let before = tabs::units_upto(sessions, count - 1);
        let list = tabs::units_upto(sessions, count);
        assert forall|i: int| 0 <= i < count && #[trigger] tabs::is_unit(
            sessions,
            i,
        ) implies list.contains(i as usize) by {
            if i < count - 1 {
                let k = choose|k: int| 0 <= k < before.len() && before[k] == i as usize;
                assert(list[k] == i as usize);
            } else {
                assert(list[list.len() - 1] == i as usize);
            }
        }
    }
}

/// The units of the top level are the sessions without a group and the first ones of each group,
/// in the order of the sessions.
pub proof fn units_are_in_order(sessions: Seq<SessionView>)
    requires
        sessions.len() <= usize::MAX,
    ensures
        forall|k: int|
            0 <= k < tabs::units(sessions).len() ==> (#[trigger] tabs::units(sessions)[k])
                < sessions.len() && tabs::is_unit(sessions, tabs::units(sessions)[k] as int),
        forall|j: int, k: int|
            0 <= j < k < tabs::units(sessions).len() ==> #[trigger] tabs::units(sessions)[j]
                < #[trigger] tabs::units(sessions)[k],
        forall|i: int|
            0 <= i < sessions.len() && #[trigger] tabs::is_unit(sessions, i) ==> tabs::units(
                sessions,
            ).contains(i as usize),
{
    lemma_units(sessions, sessions.len() as int);
}

/// The first member of a group, from `from` on, stands for it.
proof fn lemma_group_has_unit(sessions: Seq<SessionView>, index: int, from: int) -> (unit: int)
    requires
        0 <= from <= index < sessions.len(),
        sessions[index].group is Some,
        forall|j: int| 0 <= j < from ==> (#[trigger] sessions[j]).group != sessions[index].group,
    ensures
        from <= unit <= index,
        sessions[unit].group == sessions[index].group,
        tabs::is_unit(sessions, unit),
    decreases index - from,
{
    if sessions[from].group == sessions[index].group {
        from
    } else {
        lemma_group_has_unit(sessions, index, from + 1)
    }
}

proof fn lemma_place_found(
    sessions: Seq<SessionView>,
    list: Seq<usize>,
    index: int,
    from: int,
    place: int,
)
    requires
        0 <= from <= place < list.len(),
        tabs::is_unit_of(sessions, list[place] as int, index),
    ensures
        tabs::unit_place_from(sessions, list, index, from) matches Some(found) && from <= found
            <= place && tabs::is_unit_of(sessions, list[found] as int, index),
    decreases place - from,
{
    if !tabs::is_unit_of(sessions, list[from] as int, index) {
        lemma_place_found(sessions, list, index, from + 1, place);
    }
}

/// Every session belongs to exactly one unit of the top level.
pub proof fn every_session_has_one_unit(sessions: Seq<SessionView>, index: int)
    requires
        0 <= index < sessions.len() <= usize::MAX,
    ensures
        tabs::unit_place(sessions, index) matches Some(place) && 0 <= place < tabs::units(
            sessions,
        ).len() && forall|k: int|
            0 <= k < tabs::units(sessions).len() ==> (#[trigger] tabs::is_unit_of(
                sessions,
                tabs::units(sessions)[k] as int,
                index,
            ) <==> k == place),
{
    units_are_in_order(sessions);
    let list = tabs::units(sessions);
    let unit = if sessions[index].group is Some {
        lemma_group_has_unit(sessions, index, 0)
    } else {
        index
    };
    assert(tabs::is_unit(sessions, unit));
    let k = choose|k: int| 0 <= k < list.len() && list[k] == unit as usize;
    lemma_place_found(sessions, list, index, 0, k);
    let place = tabs::unit_place(sessions, index)->0;
    assert forall|j: int| 0 <= j < list.len() && #[trigger] tabs::is_unit_of(
        sessions,
        list[j] as int,
        index,
    ) implies j == place by {
        let a = list[j] as int;
        let b = list[place] as int;
        assert(tabs::is_unit(sessions, a) && tabs::is_unit(sessions, b));
        assert(a == b) by {
            if sessions[index].group is None {
                assert(a == index && b == index);
            } else {
                assert(sessions[a].group == sessions[index].group);
                assert(sessions[b].group == sessions[index].group);
                if a < b {
                    assert(sessions[a].group != sessions[b].group);
                }
                if b < a {
                    assert(sessions[b].group != sessions[a].group);
                }
            }
        }
    }
}

/// A unit is found at its own place.
proof fn lemma_place_of_unit(sessions: Seq<SessionView>, position: int)
    requires
        sessions.len() <= usize::MAX,
        0 <= position < tabs::units(sessions).len(),
    ensures
        tabs::unit_place(sessions, tabs::units(sessions)[position] as int) == Some(position),
{
    units_are_in_order(sessions);
    let index = tabs::units(sessions)[position] as int;
    every_session_has_one_unit(sessions, index);
    assert(tabs::is_unit_of(sessions, tabs::units(sessions)[position] as int, index));
}

/// The number that the collapsed sidebar shows for a tab is that of the key which selects it: the
/// ninth and the tenth unit included.
pub proof fn labels_show_the_selecting_keys(app: AppView, position: int)
    requires
        app.sessions.len() <= usize::MAX,
        0 <= position < tabs::units(app.sessions).len(),
    ensures
        ({
            let label = tabs::row_label(
                app.sessions,
                tabs::selected(app, position).active as int,
            );
            &&& position <= 8 ==> label == " "@ + text::decimal((position + 1) as nat) + " "@
            &&& position == 9 ==> label == " 0 "@
        }),
{
    lemma_place_of_unit(app.sessions, position);
}

/// Selecting the next unit and then the one before it leads back to the unit one came from, and so
/// does the other way round.
pub proof fn cycling_back_undoes_cycling(app: AppView, delta: int)
    requires
        app.active < app.sessions.len() <= usize::MAX,
    ensures
        ({
            let back = tabs::cycled(tabs::cycled(app, delta), -delta);
            tabs::is_unit_of(app.sessions, back.active as int, app.active as int)
        }),
{
    let list = tabs::units(app.sessions);
    every_session_has_one_unit(app.sessions, app.active as int);
    let current = tabs::unit_place(app.sessions, app.active as int)->0;
    let count = list.len() as int;
    let there = (current + delta) % count;
    lemma_place_of_unit(app.sessions, there);
    let step = tabs::cycled(app, delta);
    assert(step.sessions == app.sessions);
    assert((there - delta) % count == current) by {
        vstd::arithmetic::div_mod::lemma_sub_mod_noop(current + delta, delta, count);
        vstd::arithmetic::div_mod::lemma_sub_mod_noop(there, delta, count);
        vstd::arithmetic::div_mod::lemma_mod_twice(current + delta, count);
        vstd::arithmetic::div_mod::lemma_small_mod(current as nat, count as nat);
    }
    assert(there + -delta == there - delta);
}

/// Moving on by some units and then by some more is moving on by all of them.
pub proof fn cycling_adds_up(app: AppView, one: int, two: int)
    requires
        app.active < app.sessions.len() <= usize::MAX,
    ensures
        tabs::cycled(tabs::cycled(app, one), two).active == tabs::cycled(app, one + two).active,
        tabs::is_unit_of(
            app.sessions,
            tabs::cycled(app, 0).active as int,
            app.active as int,
        ),
{
    let list = tabs::units(app.sessions);
    every_session_has_one_unit(app.sessions, app.active as int);
    let current = tabs::unit_place(app.sessions, app.active as int)->0;
    let count = list.len() as int;
    let there = (current + one) % count;
    lemma_place_of_unit(app.sessions, there);
    assert(tabs::cycled(app, one).sessions == app.sessions);
    vstd::arithmetic::div_mod::lemma_add_mod_noop(current + one, two, count);
    vstd::arithmetic::div_mod::lemma_add_mod_noop(there, two, count);
    vstd::arithmetic::div_mod::lemma_mod_twice(current + one, count);
    assert(current + (one + two) == (current + one) + two);
    vstd::arithmetic::div_mod::lemma_small_mod(current as nat, count as nat);
    assert(tabs::is_unit_of(app.sessions, list[current] as int, app.active as int));
}

/// Moving to another pane goes to a pane in the asked direction, and none in that direction is
/// nearer. Without such a pane the active one stays.
pub proof fn focus_moves_to_the_nearest_pane(app: AppView, direction: KeyCode, place: int)
    requires
        tabs::pane_place_from(app.hits.panes, app.active, 0) == Some(place),
    ensures
        ({
            let panes = app.hits.panes;
            let current = panes[place].1;
            let after = tabs::focused(app, direction).active;
            ||| exists|i: int| #[trigger]
                tabs::is_nearest(panes, app.active, direction, current, i) && after == panes[i].0
            ||| after == app.active && forall|i: int|
                !#[trigger] tabs::is_candidate(panes, app.active, direction, current, i)
        }),
{
    let panes = app.hits.panes;
    let current = panes[place].1;
    match tabs::nearest(panes, app.active, direction, current) {
        Some(i) => {
            assert(tabs::is_nearest(panes, app.active, direction, current, i));
        },
        None => {
            assert forall|i: int|
                !#[trigger] tabs::is_candidate(panes, app.active, direction, current, i) by {
                if tabs::is_candidate(panes, app.active, direction, current, i) {
                    let best = lemma_some_nearest(panes, app.active, direction, current, i);
                    assert(tabs::is_nearest(panes, app.active, direction, current, best));
                }
            }
        },
    }
}

/// Of the candidates up to a place, `best` is the nearest one, and the first one of those.
spec fn is_best(
    panes: Seq<(usize, Rect)>,
    active: usize,
    direction: KeyCode,
    current: Rect,
    best: int,
    upto: int,
) -> bool {
    &&& tabs::is_candidate(panes, active, direction, current, best)
    &&& forall|j: int| #[trigger]
        tabs::is_candidate(panes, active, direction, current, j) && j < upto ==> {
            let own = tabs::remoteness(direction, current, panes[best].1);
            let other = tabs::remoteness(direction, current, panes[j].1);
            own <= other && (j < best ==> own < other)
        }
}

proof fn lemma_best_upto(
    panes: Seq<(usize, Rect)>,
    active: usize,
    direction: KeyCode,
    current: Rect,
    some: int,
    upto: int,
) -> (best: int)
    requires
        tabs::is_candidate(panes, active, direction, current, some),
        some < upto <= panes.len(),
    ensures
        is_best(panes, active, direction, current, best, upto),
        best < upto,
    decreases upto,
{
    let last = upto - 1;
    if exists|j: int| #[trigger] tabs::is_candidate(panes, active, direction, current, j) && j < last {
        let other = choose|j: int| #[trigger]
            tabs::is_candidate(panes, active, direction, current, j) && j < last;
        let best = lemma_best_upto(panes, active, direction, current, other, last);
        if tabs::is_candidate(panes, active, direction, current, last) && tabs::remoteness(
            direction,
            current,
            panes[last].1,
        ) < tabs::remoteness(direction, current, panes[best].1) {
            last
        } else {
            best
        }
    } else {
        some
    }
}

proof fn lemma_some_nearest(
    panes: Seq<(usize, Rect)>,
    active: usize,
    direction: KeyCode,
    current: Rect,
    some: int,
) -> (best: int)
    requires
        tabs::is_candidate(panes, active, direction, current, some),
    ensures
        tabs::is_nearest(panes, active, direction, current, best),
{
    lemma_best_upto(panes, active, direction, current, some, panes.len() as int)
}

} // verus!
