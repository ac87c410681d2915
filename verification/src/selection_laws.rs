//! Which tab a key selects, and in which order the tabs stand.

use crate::app::AppView;
use crate::events::{KeyCode, KeyEvent};
use crate::focus_laws;
use crate::input;
use crate::session::SessionView;
use crate::tab_laws;
use crate::tabs;
use vstd::prelude::*;

verus! {

/// The session stands for itself or is the first one of its group.
pub open spec fn leads(sessions: Seq<SessionView>, i: int) -> bool {
    &&& 0 <= i < sessions.len()
    &&& sessions[i].group is None || forall|j: int|
        0 <= j < i ==> (#[trigger] sessions[j]).group != sessions[i].group
}

/// How many of the first `count` sessions lead.
pub open spec fn leading(sessions: Seq<SessionView>, count: int) -> int
    decreases count,
{
    if count <= 0 {
        0
    } else {
        leading(sessions, count - 1) + if leads(sessions, count - 1) { 1int } else { 0 }
    }
}

/// The session at `i` leads the one at `index`: it is that session, or the first one of its group.
pub open spec fn is_lead_of(sessions: Seq<SessionView>, i: int, index: int) -> bool {
    &&& leads(sessions, i)
    &&& 0 <= index < sessions.len()
    &&& i == index || (sessions[index].group is Some && sessions[i].group == sessions[index].group)
}

proof fn lemma_units_lead(sessions: Seq<SessionView>, count: int)
    requires
        0 <= count <= sessions.len() <= usize::MAX,
    ensures
        tabs::units_upto(sessions, count).len() == leading(sessions, count),
        0 <= leading(sessions, count) <= count,
        forall|i: int|
            0 <= i < count && #[trigger] leads(sessions, i) ==> 0 <= leading(sessions, i) < leading(
                sessions,
                count,
            ) && tabs::units_upto(sessions, count)[leading(sessions, i)] == i,
    decreases count,
{
    if count > 0 {
        lemma_units_lead(sessions, count - 1);
        assert(tabs::is_unit(sessions, count - 1) == leads(sessions, count - 1));
        assert forall|i: int| 0 <= i < count && #[trigger] leads(sessions, i) implies 0 <= leading(
            sessions,
            i,
        ) < leading(sessions, count) && tabs::units_upto(sessions, count)[leading(sessions, i)]
            == i by {
            if i < count - 1 {
                assert(tabs::units_upto(sessions, count - 1)[leading(sessions, i)] == i);
            }
        }
    }
}

/// A session that leads stands among the units, behind those that lead before it.
proof fn lemma_place_among_units(sessions: Seq<SessionView>, i: int) -> (k: int)
    requires
        sessions.len() <= usize::MAX,
        leads(sessions, i),
    ensures
        k == leading(sessions, i),
        0 <= k < tabs::units(sessions).len(),
        tabs::units(sessions)[k] == i,
{
    lemma_units_lead(sessions, sessions.len() as int);
    lemma_units_lead(sessions, i);
    assert(tabs::units_upto(sessions, sessions.len() as int)[leading(sessions, i)] == i);
    leading(sessions, i)
}

/// After the prefix key, a digit selects the tab or group with that number in the sidebar, counted
/// from one, with zero for the tenth. A number that none has changes nothing.
pub proof fn digits_select_by_number(app: AppView, key: KeyEvent, c: char, index: int, now: u64)
    requires
        focus_laws::follows_prefix(app, key, now),
        app.sessions.len() <= usize::MAX,
        key.code == KeyCode::Char(c),
        '0' <= c <= '9',
    ensures
        ({
            let number = if c == '0' { 10int } else { c as int - '0' as int };
            let after = input::keyed(app, key, now).0;
            &&& after.sessions == app.sessions
            &&& leads(app.sessions, index) && leading(app.sessions, index) + 1 == number ==> {
                &&& after.active == index
                &&& input::keyed(app, key, now).1 is Resize
            }
            &&& leading(app.sessions, app.sessions.len() as int) < number ==> {
                &&& after.active == app.active
                &&& input::keyed(app, key, now).1 is Idle
            }
        }),
{
    lemma_units_lead(app.sessions, app.sessions.len() as int);
    if leads(app.sessions, index) {
        let k = lemma_place_among_units(app.sessions, index);
    }
}

/// After the prefix key, the right arrow selects the next tab or group below the active one, and
/// the first one behind the last.
pub proof fn the_right_arrow_selects_the_next(app: AppView, key: KeyEvent, lead: int, now: u64)
    requires
        focus_laws::follows_prefix(app, key, now),
        app.sessions.len() <= usize::MAX,
        key.code == KeyCode::Right,
        is_lead_of(app.sessions, lead, app.active as int),
    ensures
        ({
            let after = input::keyed(app, key, now).0.active as int;
            &&& input::keyed(app, key, now).0.sessions == app.sessions
            &&& input::keyed(app, key, now).1 is Resize
            &&& leads(app.sessions, after)
            &&& (exists|i: int| i > lead && leads(app.sessions, i)) ==> after > lead && forall|i: int|
                lead < i < after ==> !leads(app.sessions, i)
            &&& !(exists|i: int| i > lead && leads(app.sessions, i)) ==> after == 0
        }),
{
    let sessions = app.sessions;
    let list = tabs::units(sessions);
    let (place, after) = lemma_step(app, key, lead, 1, now);
    lemma_first_leads(sessions);
    assert forall|i: int| i > lead && leads(sessions, i) implies place + 1 < list.len() && after
        > lead && after <= i by {
        let k = lemma_place_among_units(sessions, i);
        if k < place {
            assert(list[k] < list[place]);
        }
        if place + 1 < k {
            assert(list[place + 1] < list[k]);
        }
    }
    if !(exists|i: int| i > lead && leads(sessions, i)) {
        if place + 1 < list.len() {
            assert(list[place] < list[place + 1]);
            assert(leads(sessions, list[place + 1] as int));
        }
        assert(list[0] == 0);
    }
}

/// After the prefix key, the left arrow selects the next tab or group above the active one, and the
/// last one before the first.
pub proof fn the_left_arrow_selects_the_previous(app: AppView, key: KeyEvent, lead: int, now: u64)
    requires
        focus_laws::follows_prefix(app, key, now),
        app.sessions.len() <= usize::MAX,
        key.code == KeyCode::Left,
        is_lead_of(app.sessions, lead, app.active as int),
    ensures
        ({
            let after = input::keyed(app, key, now).0.active as int;
            &&& input::keyed(app, key, now).0.sessions == app.sessions
            &&& input::keyed(app, key, now).1 is Resize
            &&& leads(app.sessions, after)
            &&& lead > 0 ==> after < lead && forall|i: int|
                after < i < lead ==> !leads(app.sessions, i)
            &&& lead == 0 ==> forall|i: int| after < i ==> !leads(app.sessions, i)
        }),
{
    let sessions = app.sessions;
    let list = tabs::units(sessions);
    let (place, after) = lemma_step(app, key, lead, -1, now);
    lemma_first_leads(sessions);
    assert(list[0] == 0);
    lemma_units_lead(sessions, sessions.len() as int);
    if lead > 0 {
        assert(place > 0);
        assert(list[place - 1] < list[place]);
        assert forall|i: int| after < i < lead implies !leads(sessions, i) by {
            if leads(sessions, i) {
                let k = lemma_place_among_units(sessions, i);
                if k < place - 1 {
                    assert(list[k] < list[place - 1]);
                }
                if place < k {
                    assert(list[place] < list[k]);
                }
            }
        }
    } else {
        if place > 0 {
            assert(list[0] < list[place]);
        }
        assert forall|i: int| after < i implies !leads(sessions, i) by {
            if leads(sessions, i) {
                let k = lemma_place_among_units(sessions, i);
                if k < list.len() - 1 {
                    assert(list[k] < list[list.len() - 1]);
                }
            }
        }
    }
}

proof fn lemma_first_leads(sessions: Seq<SessionView>)
    requires
        0 < sessions.len() <= usize::MAX,
    ensures
        tabs::units(sessions).len() > 0,
        tabs::units(sessions)[0] == 0,
{
    assert(leads(sessions, 0));
    let k = lemma_place_among_units(sessions, 0);
}

/// The place of the lead of the active session among the units, and the session that an arrow
/// selects.
proof fn lemma_step(app: AppView, key: KeyEvent, lead: int, delta: int, now: u64) -> (r: (
    int,
    int,
))
    requires
        focus_laws::follows_prefix(app, key, now),
        app.sessions.len() <= usize::MAX,
        delta == 1 && key.code == KeyCode::Right || delta == -1 && key.code == KeyCode::Left,
        is_lead_of(app.sessions, lead, app.active as int),
    ensures
        ({
            let list = tabs::units(app.sessions);
            &&& 0 <= r.0 < list.len()
            &&& list[r.0] == lead
            &&& r.1 == input::keyed(app, key, now).0.active
            &&& r.1 == if 0 <= r.0 + delta < list.len() {
                list[r.0 + delta] as int
            } else if delta == 1 {
                list[0] as int
            } else {
                list[list.len() - 1] as int
            }
            &&& leads(app.sessions, r.1)
            &&& forall|j: int, k: int|
                0 <= j < k < list.len() ==> #[trigger] list[j] < #[trigger] list[k]
            &&& forall|k: int| 0 <= k < list.len() ==> leads(app.sessions, #[trigger] list[k] as int)
        }),
        input::keyed(app, key, now).0.sessions == app.sessions,
        input::keyed(app, key, now).1 is Resize,
{
    let sessions = app.sessions;
    let list = tabs::units(sessions);
    let active = app.active as int;
    lemma_units_lead(sessions, sessions.len() as int);
    tab_laws::units_are_in_order(sessions);
    tab_laws::every_session_has_one_unit(sessions, active);
    let place = lemma_place_among_units(sessions, lead);
    assert(tabs::is_unit_of(sessions, list[place] as int, active));
    assert forall|k: int| 0 <= k < list.len() implies leads(
        sessions,
        #[trigger] list[k] as int,
    ) by {
        assert(tabs::is_unit(sessions, list[k] as int));
    }
    let start = AppView { prefix_started: None, ..app };
    let after = tabs::cycled(start, delta);
    assert(input::keyed(app, key, now).0 == after);
    let n = list.len() as int;
    if place + delta == n {
        assert(n % n == 0) by (nonlinear_arith)
            requires
                n > 0,
        ;
    } else if place + delta == -1 {
        assert(-1 % n == n - 1) by (nonlinear_arith)
            requires
                n > 0,
        ;
    } else {
        vstd::arithmetic::div_mod::lemma_small_mod((place + delta) as nat, n as nat);
    }
    (place, after.active as int)
}

/// The session that leads the one at `index`.
pub open spec fn lead_from(sessions: Seq<SessionView>, index: int, from: int) -> int
    decreases index - from,
{
    if from >= index || (sessions[index].group is Some && sessions[from].group
        == sessions[index].group) {
        from
    } else {
        lead_from(sessions, index, from + 1)
    }
}

/// The first session of the group of the one at `index`, or that session itself.
pub open spec fn lead_of(sessions: Seq<SessionView>, index: int) -> int {
    lead_from(sessions, index, 0)
}

/// The rows of the sidebar are ordered by the first session of each group, and those of one group
/// by their own places.
pub proof fn rows_follow_the_sessions(sessions: Seq<SessionView>, j: int, k: int)
    requires
        sessions.len() <= usize::MAX,
        0 <= j < k < tabs::order(sessions).len(),
    ensures
        ({
            let above = tabs::order(sessions)[j] as int;
            let below = tabs::order(sessions)[k] as int;
            let lead = lead_of(sessions, above);
            let other = lead_of(sessions, below);
            lead < other || lead == other && above < below
        }),
{
    lemma_rows_ordered(sessions, sessions.len() as int);
}

/// The rows come in order, and their leads are among the first `count` sessions.
spec fn is_ordered(sessions: Seq<SessionView>, list: Seq<usize>, count: int) -> bool {
    &&& forall|k: int|
        0 <= k < list.len() ==> (#[trigger] list[k]) < sessions.len() && lead_of(
            sessions,
            list[k] as int,
        ) < count
    &&& forall|j: int, k: int|
        0 <= j < k < list.len() ==> {
            let lead = lead_of(sessions, #[trigger] list[j] as int);
            let other = lead_of(sessions, #[trigger] list[k] as int);
            lead < other || lead == other && list[j] < list[k]
        }
}

proof fn lemma_lead(sessions: Seq<SessionView>, index: int, from: int, lead: int)
    requires
        0 <= from <= lead <= index < sessions.len(),
        lead == index || (sessions[index].group is Some && sessions[lead].group
            == sessions[index].group),
        sessions[index].group is None ==> lead == index,
        forall|j: int|
            from <= j < lead ==> sessions[index].group is None || (#[trigger] sessions[j]).group
                != sessions[index].group,
    ensures
        lead_from(sessions, index, from) == lead,
    decreases lead - from,
{
    if from < lead {
        assert(sessions[index].group is None || sessions[from].group != sessions[index].group);
        lemma_lead(sessions, index, from + 1, lead);
    }
}

proof fn lemma_rows_ordered(sessions: Seq<SessionView>, count: int)
    requires
        0 <= count <= sessions.len() <= usize::MAX,
    ensures
        is_ordered(sessions, tabs::order_upto(sessions, count), count),
    decreases count,
{
    if count > 0 {
        let last = count - 1;
        lemma_rows_ordered(sessions, last);
        let before = tabs::order_upto(sessions, last);
        let rows = tabs::rows_of(sessions, last);
        let all = tabs::order_upto(sessions, count);
        assert(all == before + rows);
        assert forall|k: int| 0 <= k < rows.len() implies (#[trigger] rows[k]) < sessions.len()
            && lead_of(sessions, rows[k] as int) == last by {
            match sessions[last].group {
                None => lemma_lead(sessions, last, 0, last),
                Some(group) => {
                    tabs::lemma_member_places(sessions, group, sessions.len() as int);
                    let index = rows[k] as int;
                    assert(sessions[index].group == Some(group));
                    assert(index >= last) by {
                        if index < last {
                            assert(sessions[index].group != sessions[last].group);
                        }
                    }
                    lemma_lead(sessions, index, 0, last);
                },
            }
        }
        assert forall|j: int, k: int| 0 <= j < k < rows.len() implies #[trigger] rows[j]
            < #[trigger] rows[k] by {
            if let Some(group) = sessions[last].group {
                tabs::lemma_member_places(sessions, group, sessions.len() as int);
            }
        }
        assert forall|k: int| 0 <= k < all.len() implies (#[trigger] all[k]) < sessions.len()
            && lead_of(sessions, all[k] as int) < count by {
            if k < before.len() {
                assert(all[k] == before[k]);
            } else {
                assert(all[k] == rows[k - before.len()]);
            }
        }
        assert forall|j: int, k: int| 0 <= j < k < all.len() implies ({
            let lead = lead_of(sessions, #[trigger] all[j] as int);
            let other = lead_of(sessions, #[trigger] all[k] as int);
            lead < other || lead == other && all[j] < all[k]
        }) by {
            if k < before.len() {
                assert(all[j] == before[j] && all[k] == before[k]);
            } else if j >= before.len() {
                assert(all[j] == rows[j - before.len()] && all[k] == rows[k - before.len()]);
            } else {
                assert(all[j] == before[j] && all[k] == rows[k - before.len()]);
            }
        }
    }
}

/// The label of a tab in the collapsed sidebar is the key that selects it: its number up to nine,
/// and zero for the tenth. The further tabs of a group, and tabs behind the tenth, have a dot.
pub proof fn labels_are_the_numbers_of_tabs(sessions: Seq<SessionView>, index: int)
    requires
        0 <= index < sessions.len() <= usize::MAX,
    ensures
        ({
            let number = leading(sessions, index) + 1;
            let label = tabs::row_label(sessions, index);
            &&& leads(sessions, index) && number <= 9 ==> label == seq![
                ' ',
                (number + '0' as int) as char,
                ' ',
            ]
            &&& leads(sessions, index) && number == 10 ==> label == " 0 "@
            &&& leads(sessions, index) && number > 10 ==> label == " · "@
            &&& !leads(sessions, index) ==> label == " · "@
        }),
{
    let list = tabs::units(sessions);
    tab_laws::every_session_has_one_unit(sessions, index);
    tab_laws::units_are_in_order(sessions);
    let place = tabs::unit_place(sessions, index)->0;
    if leads(sessions, index) {
        let k = lemma_place_among_units(sessions, index);
        assert(tabs::is_unit_of(sessions, list[k] as int, index));
        assert(place == k);
        if k <= 8 {
            reveal_strlit(" ");
            assert(tabs::row_label(sessions, index) =~= seq![
                ' ',
                (k + 1 + '0' as int) as char,
                ' ',
            ]);
        }
    } else {
        assert(tabs::is_unit(sessions, list[place] as int));
        if list[place] == index {
            assert(leads(sessions, index));
        }
    }
}

/// A row of the sidebar belongs to the first session of a group exactly if the row above it, if
/// there is one, does not belong to the group.
pub proof fn groups_start_with_their_first_session(sessions: Seq<SessionView>, k: int)
    requires
        sessions.len() <= usize::MAX,
        0 <= k < tabs::order(sessions).len(),
        sessions[tabs::order(sessions)[k] as int].group is Some,
    ensures
        leads(sessions, tabs::order(sessions)[k] as int) == (k == 0 || sessions[tabs::order(
            sessions,
        )[k - 1] as int].group != sessions[tabs::order(sessions)[k] as int].group),
{
    let list = tabs::order(sessions);
    let own = list[k] as int;
    tab_laws::every_session_has_one_row(sessions);
    let lead = lemma_lead_exists(sessions, own, 0);
    if k > 0 {
        rows_follow_the_sessions(sessions, k - 1, k);
        let above = list[k - 1] as int;
        if sessions[above].group == sessions[own].group {
            let other = lemma_lead_exists(sessions, above, 0);
            if leads(sessions, own) {
                assert(lead == own);
                assert(above > own || above == own) by {
                    if above < own {
                        assert(sessions[above].group != sessions[own].group);
                    }
                }
                assert(other == lead) by {
                    if other < lead {
                        assert(sessions[other].group != sessions[lead].group);
                    }
                    if lead < other {
                        assert(sessions[lead].group != sessions[other].group);
                    }
                }
            }
        }
    }
    if !leads(sessions, own) {
        assert(list.contains(lead as usize));
        let j = choose|j: int| 0 <= j < list.len() && list[j] == lead as usize;
        assert(lead < own);
        lemma_lead_exists(sessions, lead, 0);
        if k < j {
            rows_follow_the_sessions(sessions, k, j);
            lemma_lead(sessions, lead, 0, lead);
            lemma_lead(sessions, own, 0, lead);
        }
        assert(j < k);
        tab_laws::groups_stay_together(sessions, j, k - 1, k);
    }
}

proof fn lemma_lead_exists(sessions: Seq<SessionView>, index: int, from: int) -> (lead: int)
    requires
        0 <= from <= index < sessions.len(),
        sessions[index].group is Some,
        forall|j: int| 0 <= j < from ==> (#[trigger] sessions[j]).group != sessions[index].group,
    ensures
        from <= lead <= index,
        sessions[lead].group == sessions[index].group,
        leads(sessions, lead),
        lead_from(sessions, index, from) == lead,
        leads(sessions, index) ==> lead == index,
    decreases index - from,
{
    if sessions[from].group == sessions[index].group {
        from
    } else {
        lemma_lead_exists(sessions, index, from + 1)
    }
}

} // verus!
