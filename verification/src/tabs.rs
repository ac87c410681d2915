//! The order of the tabs, and moving between tabs and panes.

use crate::app;
use crate::app::{App, AppView};
use crate::events::KeyCode;
use crate::geometry::Rect;
use crate::session;
use crate::session::{Session, SessionView};
use crate::text;
use crate::text::decimal_text;
use vstd::prelude::*;

verus! {

/// No session before `index` is in the group of the session there.
pub open spec fn opens_group(sessions: Seq<SessionView>, index: int) -> bool {
    &&& sessions[index].group is Some
    &&& forall|j: int| 0 <= j < index ==> (#[trigger] sessions[j]).group != sessions[index].group
}

/// The session at `index` stands for a unit of the top level: a session without a group, or the
/// first one of its group.
pub open spec fn is_unit(sessions: Seq<SessionView>, index: int) -> bool {
    sessions[index].group is None || opens_group(sessions, index)
}

/// The units among the first `count` sessions.
pub open spec fn units_upto(sessions: Seq<SessionView>, count: int) -> Seq<usize>
    decreases count,
{
    if count <= 0 {
        Seq::empty()
    } else if is_unit(sessions, count - 1) {
        units_upto(sessions, count - 1).push((count - 1) as usize)
    } else {
        units_upto(sessions, count - 1)
    }
}

/// The units of the top level, in order.
pub open spec fn units(sessions: Seq<SessionView>) -> Seq<usize> {
    units_upto(sessions, sessions.len() as int)
}

/// Whether an earlier session is in the group.
fn seen_before(sessions: &Vec<Session>, index: usize, group: u64) -> (r: bool)
    requires
        index < sessions@.len(),
        sessions@[index as int].group == Some(group),
    ensures
        r == !opens_group(session::session_views(sessions@), index as int),
{
    let ghost views = session::session_views(sessions@);
    for j in 0..index
        invariant
            index < sessions@.len(),
            views == session::session_views(sessions@),
            views[index as int].group == Some(group),
            forall|k: int| 0 <= k < j ==> (#[trigger] views[k]).group != views[index as int].group,
    {
        if let Some(own) = sessions[j].group {
            if own == group {
                assert(views[j as int].group == views[index as int].group);
                return true;
            }
        }
    }
    false
}

/// The places of the sessions that stand for the units of the top level.
pub fn top_level_units(app: &App) -> (r: Vec<usize>)
    ensures
        r@ == units(app@.sessions),
{
    let ghost views = app@.sessions;
    let mut r: Vec<usize> = Vec::new();
    for index in 0..app.sessions.len()
        invariant
            views == session::session_views(app.sessions@),
            r@ == units_upto(views, index as int),
    {
        assert(views[index as int] == app.sessions@[index as int]@);
        match app.sessions[index].group {
            Some(group) => {
                if !seen_before(&app.sessions, index, group) {
                    r.push(index);
                }
            },
            None => r.push(index),
        }
    }
    r
}

/// The places of the members of a group among the first `count` sessions.
pub open spec fn member_places(sessions: Seq<SessionView>, group: u64, count: int) -> Seq<usize>
    decreases count,
{
    if count <= 0 {
        Seq::empty()
    } else if sessions[count - 1].group == Some(group) {
        member_places(sessions, group, count - 1).push((count - 1) as usize)
    } else {
        member_places(sessions, group, count - 1)
    }
}

/// What a session adds to the order of the sidebar: itself, if it has no group; all members of its
/// group, if it is the first of them; nothing otherwise.
pub open spec fn rows_of(sessions: Seq<SessionView>, index: int) -> Seq<usize> {
    match sessions[index].group {
        None => seq![index as usize],
        Some(group) => if opens_group(sessions, index) {
            member_places(sessions, group, sessions.len() as int)
        } else {
            Seq::empty()
        },
    }
}

/// The rows of the sidebar for the first `count` sessions.
pub open spec fn order_upto(sessions: Seq<SessionView>, count: int) -> Seq<usize>
    decreases count,
{
    if count <= 0 {
        Seq::empty()
    } else {
        order_upto(sessions, count - 1) + rows_of(sessions, count - 1)
    }
}

/// The order of the sessions in the sidebar.
pub open spec fn order(sessions: Seq<SessionView>) -> Seq<usize> {
    order_upto(sessions, sessions.len() as int)
}

/// The order of the sessions in the sidebar: as they are, but with the members of a group together
/// at the place of the first of them.
pub fn sidebar_order(app: &App) -> (r: Vec<usize>)
    ensures
        r@ == order(app@.sessions),
{
    let ghost views = app@.sessions;
    let mut r: Vec<usize> = Vec::new();
    for index in 0..app.sessions.len()
        invariant
            views == session::session_views(app.sessions@),
            r@ == order_upto(views, index as int),
    {
        let ghost before = r@;
        assert(views[index as int] == app.sessions@[index as int]@);
        match app.sessions[index].group {
            Some(group) => {
                if !seen_before(&app.sessions, index, group) {
                    assert(before + member_places(views, group, 0) == before);
                    for member in 0..app.sessions.len()
                        invariant
                            views == session::session_views(app.sessions@),
                            r@ == before + member_places(views, group, member as int),
                    {
                        assert(views[member as int] == app.sessions@[member as int]@);
                        if let Some(own) = app.sessions[member].group {
                            if own == group {
                                r.push(member);
                            }
                        }
                        assert(r@ == before + member_places(views, group, member as int + 1));
                    }
                }
            },
            None => r.push(index),
        }
        assert(r@ == before + rows_of(views, index as int));
    }
    r
}

/// The unit at place `unit` is that of the session at `index`: the session itself, or the one that
/// stands for its group.
pub open spec fn is_unit_of(sessions: Seq<SessionView>, unit: int, index: int) -> bool {
    unit == index || (app::group_at(sessions, index) is Some && app::group_at(sessions, unit)
        == app::group_at(sessions, index))
}

/// The place in a list of units, from `from` on, of the unit of a session.
pub open spec fn unit_place_from(
    sessions: Seq<SessionView>,
    list: Seq<usize>,
    index: int,
    from: int,
) -> Option<int>
    decreases list.len() - from,
{
    if from < 0 || from >= list.len() {
        None
    } else if is_unit_of(sessions, list[from] as int, index) {
        Some(from)
    } else {
        unit_place_from(sessions, list, index, from + 1)
    }
}

/// The place of the unit of a session among the units.
pub open spec fn unit_place(sessions: Seq<SessionView>, index: int) -> Option<int> {
    unit_place_from(sessions, units(sessions), index, 0)
}

fn place_of_unit(app: &App, list: &Vec<usize>, index: usize) -> (r: Option<usize>)
    ensures
        match r {
            Some(place) => place < list@.len() && unit_place_from(
                app@.sessions,
                list@,
                index as int,
                0,
            ) == Some(place as int),
            None => unit_place_from(app@.sessions, list@, index as int, 0) is None,
        },
{
    let ghost views = app@.sessions;
    let group: Option<u64> = if index < app.sessions.len() {
        app.sessions[index].group
    } else {
        None
    };
    assert(group == app::group_at(views, index as int));
    let mut i: usize = 0;
    while i < list.len()
        invariant
            i <= list@.len(),
            views == session::session_views(app.sessions@),
            group == app::group_at(views, index as int),
            unit_place_from(views, list@, index as int, 0) == unit_place_from(
                views,
                list@,
                index as int,
                i as int,
            ),
        decreases list@.len() - i,
    {
        let unit = list[i];
        if unit == index {
            return Some(i);
        }
        if let Some(own) = group {
            if unit < app.sessions.len() {
                assert(views[unit as int] == app.sessions@[unit as int]@);
                if let Some(other) = app.sessions[unit].group {
                    if other == own {
                        return Some(i);
                    }
                }
            }
        }
        i += 1;
    }
    None
}

/// The label of a row of the collapsed sidebar: the number of the key that selects its unit, or a
/// dot for the further members of a group and for units without a key.
pub open spec fn row_label(sessions: Seq<SessionView>, index: int) -> Seq<char> {
    match unit_place(sessions, index) {
        Some(place) => if sessions[index].group is Some && units(sessions)[place] != index {
            " · "@
        } else if place <= 8 {
            " "@ + text::decimal((place + 1) as nat) + " "@
        } else if place == 9 {
            " 0 "@
        } else {
            " · "@
        },
        None => "   "@,
    }
}

pub fn collapsed_sidebar_label(app: &App, index: usize) -> (r: String)
    requires
        index < app@.sessions.len(),
    ensures
        r@ == row_label(app@.sessions, index as int),
{
    let units = top_level_units(app);
    assert(app@.sessions[index as int] == app.sessions@[index as int]@);
    match place_of_unit(app, &units, index) {
        Some(place) => {
            if app.sessions[index].group.is_some() && units[place] != index {
                return " · ".to_owned();
            }
            if place <= 8 {
                let number = decimal_text(place as u64 + 1);
                " ".to_owned().concat(number.as_str()).concat(" ")
            } else if place == 9 {
                " 0 ".to_owned()
            } else {
                " · ".to_owned()
            }
        },
        None => "   ".to_owned(),
    }
}

/// The workspace with the unit at a position of the top level active, if there is one.
pub open spec fn selected(app: AppView, position: int) -> AppView {
    if 0 <= position < units(app.sessions).len() {
        app::refitted(AppView { active: units(app.sessions)[position], ..app })
    } else {
        app
    }
}

/// The workspace with the unit active that comes `delta` places behind the active one. Behind the
/// last unit comes the first.
pub open spec fn cycled(app: AppView, delta: int) -> AppView {
    let list = units(app.sessions);
    if list.len() == 0 {
        app
    } else {
        let current = match unit_place(app.sessions, app.active as int) {
            Some(place) => place,
            None => 0,
        };
        app::refitted(AppView { active: list[(current + delta) % list.len() as int], ..app })
    }
}

/// The column and row of the middle of an area.
pub open spec fn center(area: Rect) -> (int, int) {
    (area.x + area.width as int / 2, area.y + area.height as int / 2)
}

pub open spec fn distance(a: int, b: int) -> int {
    if a <= b { b - a } else { a - b }
}

/// The middle of the other area lies in the given direction.
pub open spec fn lies_toward(direction: KeyCode, current: Rect, other: Rect) -> bool {
    match direction {
        KeyCode::Left => center(other).0 < center(current).0,
        KeyCode::Right => center(other).0 > center(current).0,
        KeyCode::Up => center(other).1 < center(current).1,
        KeyCode::Down => center(other).1 > center(current).1,
        _ => false,
    }
}

/// How far the other area is: the distance in the given direction counts before that across.
pub open spec fn remoteness(direction: KeyCode, current: Rect, other: Rect) -> int {
    let across = distance(center(other).0, center(current).0);
    let along = distance(center(other).1, center(current).1);
    if direction == KeyCode::Left || direction == KeyCode::Right {
        across * 1000 + along
    } else {
        along * 1000 + across
    }
}

/// The place of the first pane of a session, from `from` on.
pub open spec fn pane_place_from(panes: Seq<(usize, Rect)>, index: usize, from: int) -> Option<int>
    decreases panes.len() - from,
{
    if from < 0 || from >= panes.len() {
        None
    } else if panes[from].0 == index {
        Some(from)
    } else {
        pane_place_from(panes, index, from + 1)
    }
}

/// The pane at place `i` belongs to another session and lies in the given direction.
pub open spec fn is_candidate(
    panes: Seq<(usize, Rect)>,
    active: usize,
    direction: KeyCode,
    current: Rect,
    i: int,
) -> bool {
    &&& 0 <= i < panes.len()
    &&& panes[i].0 != active
    &&& lies_toward(direction, current, panes[i].1)
}

/// The pane at place `i` is the nearest one in the given direction, and the first one of those
/// that are equally near.
pub open spec fn is_nearest(
    panes: Seq<(usize, Rect)>,
    active: usize,
    direction: KeyCode,
    current: Rect,
    i: int,
) -> bool {
    &&& is_candidate(panes, active, direction, current, i)
    &&& forall|j: int| #[trigger]
        is_candidate(panes, active, direction, current, j) ==> {
            &&& remoteness(direction, current, panes[i].1) <= remoteness(
                direction,
                current,
                panes[j].1,
            )
            &&& j < i ==> remoteness(direction, current, panes[i].1) < remoteness(
                direction,
                current,
                panes[j].1,
            )
        }
}

/// The place of the nearest pane in a direction.
pub open spec fn nearest(
    panes: Seq<(usize, Rect)>,
    active: usize,
    direction: KeyCode,
    current: Rect,
) -> Option<int> {
    if exists|i: int| is_nearest(panes, active, direction, current, i) {
        Some(choose|i: int| is_nearest(panes, active, direction, current, i))
    } else {
        None
    }
}

/// The session whose pane is the next one from the active pane in a direction.
pub open spec fn neighbor(
    panes: Seq<(usize, Rect)>,
    active: usize,
    direction: KeyCode,
) -> Option<usize> {
    match pane_place_from(panes, active, 0) {
        Some(place) => match nearest(panes, active, direction, panes[place].1) {
            Some(i) => Some(panes[i].0),
            None => None,
        },
        None => None,
    }
}

/// The workspace with the next pane in a direction active, if there is one.
pub open spec fn focused(app: AppView, direction: KeyCode) -> AppView {
    match neighbor(app.hits.panes, app.active, direction) {
        Some(index) => AppView { active: index, ..app },
        None => app,
    }
}

fn center_of(area: Rect) -> (r: (u16, u16))
    requires
        area.wf(),
    ensures
        r.0 == center(area).0,
        r.1 == center(area).1,
{
    (area.x + area.width / 2, area.y + area.height / 2)
}

fn gap(a: u16, b: u16) -> (r: u32)
    ensures
        r == distance(a as int, b as int),
        r <= 65535,
{
    if a <= b { (b - a) as u32 } else { (a - b) as u32 }
}

impl App {
    /// Makes the unit at a position of the top level active, if there is one. Tells whether there
    /// is.
    pub fn select_top_level(&mut self, position: usize) -> (r: bool)
        ensures
            final(self)@ == selected(old(self)@, position as int),
            r == (position < units(old(self)@.sessions).len()),
    {
        let units = top_level_units(self);
        if position < units.len() {
            self.active = units[position];
            self.refit();
            true
        } else {
            false
        }
    }

    /// Makes the unit active that comes `delta` places behind the active one. Tells whether there
    /// is any unit.
    pub fn cycle_top_level(&mut self, delta: isize) -> (r: bool)
        ensures
            final(self)@ == cycled(old(self)@, delta as int),
            r == (units(old(self)@.sessions).len() > 0),
    {
        let units = top_level_units(self);
        if units.len() == 0 {
            return false;
        }
        let current: usize = match place_of_unit(self, &units, self.active) {
            Some(place) => place,
            None => 0,
        };
        let count: u128 = units.len() as u128;
        let next: u128 = if delta >= 0 {
            (current as u128 + delta as u128) % count
        } else {
            let back: u128 = ((-(delta as i128)) as u128) % count;
            proof {
                vstd::arithmetic::div_mod::lemma_fundamental_div_mod(
                    -(delta as int),
                    count as int,
                );
                let whole = -(delta as int) / (count as int);
                assert(current + count - back == (current + delta) + (whole + 1) * count)
                    by (nonlinear_arith)
                    requires
                        -(delta as int) == count as int * whole + back as int,
                ;
                vstd::arithmetic::div_mod::lemma_mod_multiples_vanish(
                    whole + 1,
                    current + delta,
                    count as int,
                );
                assert((whole + 1) * count == count * (whole + 1)) by (nonlinear_arith);
            }
            (current as u128 + count - back) % count
        };
        assert(next < count);
        self.active = units[next as usize];
        self.refit();
        true
    }

    /// Makes the next pane in a direction active, if there is one.
    pub fn focus_pane(&mut self, direction: KeyCode)
        requires
            old(self)@.wf(),
        ensures
            final(self)@ == focused(old(self)@, direction),
    {
        let ghost before = self@;
        let ghost panes = self.hits.panes@;
        let active = self.active;
        let mut place: usize = 0;
        while place < self.hits.panes.len() && self.hits.panes[place].0 != active
            invariant
                self@ == before,
                place <= panes.len(),
                panes == self.hits.panes@,
                pane_place_from(panes, active, 0) == pane_place_from(panes, active, place as int),
            decreases panes.len() - place,
        {
            place += 1;
        }
        if place >= self.hits.panes.len() {
            return ;
        }
        let current = self.hits.panes[place].1;
        let (cx, cy) = center_of(current);
        let mut best: Option<(usize, u32)> = None;
        let ghost mut best_place: int = -1;
        for i in 0..self.hits.panes.len()
            invariant
                self@ == before,
                before.wf(),
                panes == self.hits.panes@,
                before.hits.panes == panes,
                cx == center(current).0,
                cy == center(current).1,
                match best {
                    Some((index, score)) => {
                        &&& is_candidate(panes, active, direction, current, best_place)
                        &&& best_place < i
                        &&& index == panes[best_place].0
                        &&& score == remoteness(direction, current, panes[best_place].1)
                        &&& forall|j: int| #[trigger]
                            is_candidate(panes, active, direction, current, j) && j < i ==> {
                                &&& score <= remoteness(direction, current, panes[j].1)
                                &&& j < best_place ==> score < remoteness(
                                    direction,
                                    current,
                                    panes[j].1,
                                )
                            }
                    },
                    None => forall|j: int| #[trigger]
                        is_candidate(panes, active, direction, current, j) ==> j >= i,
                },
        {
            let (index, area) = self.hits.panes[i];
            assert(panes[i as int].1.wf());
            if index != active {
                let (ox, oy) = center_of(area);
                let toward = match direction {
                    KeyCode::Left => ox < cx,
                    KeyCode::Right => ox > cx,
                    KeyCode::Up => oy < cy,
                    KeyCode::Down => oy > cy,
                    _ => false,
                };
                if toward {
                    assert(is_candidate(panes, active, direction, current, i as int));
                    let across = gap(ox, cx);
                    let along = gap(oy, cy);
                    let score: u32 = match direction {
                        KeyCode::Left => across * 1000 + along,
                        KeyCode::Right => across * 1000 + along,
                        _ => along * 1000 + across,
                    };
                    assert(score == remoteness(direction, current, area));
                    let better = match best {
                        Some((_, least)) => score < least,
                        None => true,
                    };
                    if better {
                        best = Some((index, score));
                        proof {
                            best_place = i as int;
                        }
                    }
                } else {
                    assert(!is_candidate(panes, active, direction, current, i as int));
                }
            }
        }
        if let Some((index, _)) = best {
            self.active = index;
            proof {
                assert(is_nearest(panes, active, direction, current, best_place));
                let chosen = nearest(panes, active, direction, current)->0;
                assert(is_nearest(panes, active, direction, current, chosen));
                assert(is_candidate(panes, active, direction, current, chosen));
                assert(is_candidate(panes, active, direction, current, best_place));
                assert(chosen == best_place);
            }
        }
    }
}

pub(crate) proof fn lemma_member_places(sessions: Seq<SessionView>, group: u64, count: int)
    requires
        0 <= count <= sessions.len() <= usize::MAX,
    ensures
        ({
            let places = member_places(sessions, group, count);
            &&& forall|k: int|
                0 <= k < places.len() ==> (#[trigger] places[k]) < count
                    && sessions[places[k] as int].group == Some(group)
            &&& forall|j: int, k: int|
                0 <= j < k < places.len() ==> #[trigger] places[j] < #[trigger] places[k]
            &&& forall|i: int|
                0 <= i < count && (#[trigger] sessions[i]).group == Some(group)
                    ==> places.contains(i as usize)
        }),
    decreases count,
{
    if count > 0 {
        lemma_member_places(sessions, group, count - 1);
        let before = member_places(sessions, group, count - 1);
        let places = member_places(sessions, group, count);
        assert forall|i: int|
            0 <= i < count && (#[trigger] sessions[i]).group == Some(
                group,
            ) implies places.contains(i as usize) by {
            if i < count - 1 {
                let k = choose|k: int| 0 <= k < before.len() && before[k] == i as usize;
                assert(places[k] == i as usize);
            } else {
                assert(places[places.len() - 1] == i as usize);
            }
        }
    }
}

} // verus!
