//! Where the keys `h`, `j`, `k` and `l` move the focus.

use crate::app::AppView;
use crate::events::{KeyCode, KeyEvent, KeyEventKind};
use crate::geometry::Rect;
use crate::input;
use crate::tab_laws;
use crate::tabs;
use vstd::prelude::*;

verus! {

/// The column in the middle of an area.
pub open spec fn middle_column(area: Rect) -> int {
    area.x + area.width as int / 2
}

/// The row in the middle of an area.
pub open spec fn middle_row(area: Rect) -> int {
    area.y + area.height as int / 2
}

/// How far the middle of an area lies ahead of that of another one in the direction of a key: `h`
/// is left, `j` is down, `k` is up and `l` is right.
pub open spec fn ahead(c: char, from: Rect, to: Rect) -> int {
    if c == 'h' {
        middle_column(from) - middle_column(to)
    } else if c == 'l' {
        middle_column(to) - middle_column(from)
    } else if c == 'k' {
        middle_row(from) - middle_row(to)
    } else {
        middle_row(to) - middle_row(from)
    }
}

/// How far the middles of two areas lie apart across the direction of a key.
pub open spec fn aside(c: char, from: Rect, to: Rect) -> int {
    let apart = if c == 'h' || c == 'l' {
        middle_row(to) - middle_row(from)
    } else {
        middle_column(to) - middle_column(from)
    };
    if apart < 0 { -apart } else { apart }
}

/// The key was pressed within a second after the prefix key, while nothing is edited or asked.
pub open spec fn follows_prefix(app: AppView, key: KeyEvent, now: u64) -> bool {
    &&& key.kind == KeyEventKind::Press
    &&& app.input_mode is Normal
    &&& app.prefix_started matches Some(started) && now - started <= 1_000_000_000
}

/// The pane at a place is the first one of the active session.
pub open spec fn is_current(app: AppView, place: int) -> bool {
    &&& 0 <= place < app.hits.panes.len()
    &&& app.hits.panes[place].0 == app.active
    &&& forall|j: int| 0 <= j < place ==> (#[trigger] app.hits.panes[j]).0 != app.active
}

/// The pane at a place belongs to another session and lies in the direction of a key.
pub open spec fn is_ahead(app: AppView, c: char, current: Rect, i: int) -> bool {
    &&& 0 <= i < app.hits.panes.len()
    &&& app.hits.panes[i].0 != app.active
    &&& ahead(c, current, app.hits.panes[i].1) > 0
}

proof fn lemma_pane_place(panes: Seq<(usize, Rect)>, index: usize, from: int, place: int)
    requires
        0 <= from <= place < panes.len(),
        panes[place].0 == index,
        forall|j: int| from <= j < place ==> (#[trigger] panes[j]).0 != index,
    ensures
        tabs::pane_place_from(panes, index, from) == Some(place),
    decreases place - from,
{
    if from < place {
        assert(panes[from].0 != index);
        lemma_pane_place(panes, index, from + 1, place);
    }
}

/// The key moves the focus to a pane that lies in its direction. No other pane in that direction is
/// nearer: not one that is equally far across, nor one that is equally far ahead. A cell ahead
/// counts as much as a thousand across. Where no pane lies in the direction, the focus stays. The
/// key changes nothing else.
pub proof fn focus_moves_to_the_next_pane(
    app: AppView,
    key: KeyEvent,
    c: char,
    place: int,
    now: u64,
) -> (next: int)
    requires
        follows_prefix(app, key, now),
        key.code == KeyCode::Char(c),
        c == 'h' || c == 'j' || c == 'k' || c == 'l',
        is_current(app, place),
    ensures
        ({
            let panes = app.hits.panes;
            let current = panes[place].1;
            let after = input::keyed(app, key, now).0;
            &&& input::keyed(app, key, now).1 is Idle
            &&& after == (AppView { active: after.active, prefix_started: None, ..app })
            &&& (exists|i: int| is_ahead(app, c, current, i)) ==> {
                &&& is_ahead(app, c, current, next)
                &&& after.active == panes[next].0
                &&& forall|j: int| #[trigger]
                    is_ahead(app, c, current, j) ==> {
                        let gone = ahead(c, current, panes[next].1);
                        let passed = ahead(c, current, panes[j].1);
                        let off = aside(c, current, panes[next].1);
                        let beside = aside(c, current, panes[j].1);
                        &&& off == beside ==> gone <= passed
                        &&& gone == passed ==> off <= beside
                        &&& 1000 * (gone - passed) <= beside - off
                        &&& j < next ==> 1000 * (gone - passed) < beside - off
                    }
            }
            &&& !(exists|i: int| is_ahead(app, c, current, i)) ==> after.active == app.active
        }),
{
    let panes = app.hits.panes;
    let current = panes[place].1;
    let start = AppView { prefix_started: None, ..app };
    let direction = if c == 'h' {
        KeyCode::Left
    } else if c == 'j' {
        KeyCode::Down
    } else if c == 'k' {
        KeyCode::Up
    } else {
        KeyCode::Right
    };
    lemma_pane_place(panes, app.active, 0, place);
    tab_laws::focus_moves_to_the_nearest_pane(start, direction, place);
    assert(input::keyed(app, key, now).0 == tabs::focused(start, direction));
    assert forall|i: int| is_ahead(app, c, current, i) == tabs::is_candidate(
        panes,
        app.active,
        direction,
        current,
        i,
    ) by {}
    if exists|i: int| is_ahead(app, c, current, i) {
        let some = choose|i: int| is_ahead(app, c, current, i);
        assert(tabs::is_candidate(panes, app.active, direction, current, some));
        let next = choose|i: int| #[trigger]
            tabs::is_nearest(panes, app.active, direction, current, i) && tabs::focused(
                start,
                direction,
            ).active == panes[i].0;
        assert(tabs::is_nearest(panes, app.active, direction, current, next));
        assert forall|j: int| #[trigger] is_ahead(app, c, current, j) implies 1000 * (ahead(
            c,
            current,
            panes[next].1,
        ) - ahead(c, current, panes[j].1)) <= aside(c, current, panes[j].1) - aside(
            c,
            current,
            panes[next].1,
        ) && (j < next ==> 1000 * (ahead(c, current, panes[next].1) - ahead(
            c,
            current,
            panes[j].1,
        )) < aside(c, current, panes[j].1) - aside(c, current, panes[next].1)) by {
            assert(tabs::is_candidate(panes, app.active, direction, current, j));
        }
        next
    } else {
        assert(!tabs::is_candidate(panes, app.active, direction, current, place));
        assert forall|i: int| !tabs::is_candidate(panes, app.active, direction, current, i) by {
            assert(!is_ahead(app, c, current, i));
        }
        place
    }
}

/// The panes lie side by side from left to right, in the same rows.
pub open spec fn in_a_row(panes: Seq<(usize, Rect)>) -> bool {
    &&& forall|i: int, j: int|
        0 <= i < j < panes.len() ==> (#[trigger] panes[i]).1.x + panes[i].1.width <= (
        #[trigger] panes[j]).1.x && panes[i].1.y == panes[j].1.y && panes[i].1.height
            == panes[j].1.height && panes[i].0 != panes[j].0
    &&& forall|i: int| 0 <= i < panes.len() ==> (#[trigger] panes[i]).1.width >= 1
}

/// The panes lie on top of each other from the top down, in the same columns.
pub open spec fn in_a_column(panes: Seq<(usize, Rect)>) -> bool {
    &&& forall|i: int, j: int|
        0 <= i < j < panes.len() ==> (#[trigger] panes[i]).1.y + panes[i].1.height <= (
        #[trigger] panes[j]).1.y && panes[i].1.x == panes[j].1.x && panes[i].1.width
            == panes[j].1.width && panes[i].0 != panes[j].0
    &&& forall|i: int| 0 <= i < panes.len() ==> (#[trigger] panes[i]).1.height >= 1
}

/// In a row of panes, `l` and `h` move to the pane next to the active one, and stay at the ends of
/// the row. In a column of panes, `j` and `k` do.
pub proof fn focus_moves_to_the_adjacent_pane(
    app: AppView,
    key: KeyEvent,
    c: char,
    place: int,
    now: u64,
)
    requires
        follows_prefix(app, key, now),
        key.code == KeyCode::Char(c),
        is_current(app, place),
        in_a_row(app.hits.panes) && (c == 'h' || c == 'l') || in_a_column(app.hits.panes) && (c
            == 'j' || c == 'k'),
    ensures
        ({
            let panes = app.hits.panes;
            let after = input::keyed(app, key, now).0.active;
            let wanted = if c == 'l' || c == 'j' { place + 1 } else { place - 1 };
            after == if 0 <= wanted < panes.len() { panes[wanted].0 } else { app.active }
        }),
{
    let panes = app.hits.panes;
    let current = panes[place].1;
    let wanted = if c == 'l' || c == 'j' { place + 1 } else { place - 1 };
    let next = focus_moves_to_the_next_pane(app, key, c, place, now);
    assert forall|i: int| 0 <= i < panes.len() && i != place implies aside(
        c,
        current,
        panes[i].1,
    ) == 0 && (ahead(c, current, panes[i].1) > 0) == (if c == 'l' || c == 'j' {
        i > place
    } else {
        i < place
    }) by {
        if i < place {
            assert(panes[i].0 != panes[place].0);
        } else {
            assert(panes[place].0 != panes[i].0);
        }
    }
    if 0 <= wanted < panes.len() {
        assert(panes[wanted].0 != app.active);
        assert(is_ahead(app, c, current, wanted));
        if next != wanted {
            assert(is_ahead(app, c, current, next));
            assert(ahead(c, current, panes[next].1) > ahead(c, current, panes[wanted].1)) by {
                if c == 'l' || c == 'j' {
                    assert(wanted < next);
                } else {
                    assert(next < wanted);
                }
            }
        }
    } else {
        assert forall|i: int| !is_ahead(app, c, current, i) by {
            if 0 <= i < panes.len() && i != place {
                assert(aside(c, current, panes[i].1) == 0);
            }
        }
    }
}

} // verus!
