//! Layouts of panes and the split of the screen.

use plexr::geometry::{contains, terminal_area, Rect, COLLAPSED_WIDTH, SIDEBAR_WIDTH};
use plexr::layout::{
    balanced_layout, balanced_layout_ids, collect_layout_geometry, equalize_layout,
    insert_layout_leaf, layout_at_path_mut, layout_fits, layout_for_group, remove_layout_leaf,
    PaneLayout, SplitAxis, SplitHit,
};
use plexr::session::Session;

fn layout_leaf_ids(layout: &PaneLayout) -> Vec<u64> {
    match layout {
        PaneLayout::Leaf(id) => vec![*id],
        PaneLayout::Split { first, second, .. } => {
            let mut ids = layout_leaf_ids(first);
            ids.extend(layout_leaf_ids(second));
            ids
        }
    }
}

fn sessions(count: u64, group: Option<u64>) -> Vec<Session> {
    (1..=count)
        .map(|id| {
            let mut session = Session::fresh(id, b"/".to_vec(), None);
            session.group = group;
            session
        })
        .collect()
}

fn geometry_of(
    layout: &PaneLayout,
    area: Rect,
    sessions: &[Session],
) -> (Vec<(usize, Rect)>, Vec<SplitHit>) {
    let mut panes = Vec::new();
    let mut dividers = Vec::new();
    assert!(layout_fits(layout, area));
    collect_layout_geometry(
        layout,
        area,
        3,
        &mut Vec::new(),
        sessions,
        &mut panes,
        &mut dividers,
    );
    (panes, dividers)
}

#[test]
fn expanded_and_collapsed_layout_reserve_expected_width() {
    let area = Rect::new(0, 0, 120, 40);
    assert_eq!(
        terminal_area(area, false),
        Rect::new(SIDEBAR_WIDTH, 0, 91, 40)
    );
    assert_eq!(
        terminal_area(area, true),
        Rect::new(COLLAPSED_WIDTH, 0, 116, 40)
    );
}

#[test]
fn hit_testing_excludes_right_and_bottom_edges() {
    let area = Rect::new(5, 7, 10, 4);
    assert!(contains(area, 5, 7));
    assert!(contains(area, 14, 10));
    assert!(!contains(area, 15, 10));
    assert!(!contains(area, 14, 11));
}

#[test]
fn balanced_layout_uses_requested_orientation_and_all_panes() {
    let layout = balanced_layout_ids(&[1, 2, 3, 4], SplitAxis::Vertical);
    let PaneLayout::Split { axis, .. } = &layout else {
        panic!("multiple panes should create a split");
    };
    assert_eq!(*axis, SplitAxis::Vertical);
    assert_eq!(layout_leaf_ids(&layout), vec![1, 2, 3, 4]);
}

#[test]
fn a_group_layout_can_contain_one_pane() {
    let layout = balanced_layout_ids(&[42], SplitAxis::Horizontal);
    assert_eq!(layout_leaf_ids(&layout), vec![42]);
    assert!(matches!(layout, PaneLayout::Leaf(42)));
}

#[test]
fn removing_a_layout_leaf_collapses_its_empty_split() {
    let layout = balanced_layout_ids(&[1, 2, 3], SplitAxis::Horizontal);
    let layout = remove_layout_leaf(layout, 2).expect("other panes remain");
    assert_eq!(layout_leaf_ids(&layout), vec![1, 3]);
}

#[test]
fn pane_can_be_inserted_below_a_specific_target() {
    let mut layout = balanced_layout_ids(&[1, 2, 3, 4], SplitAxis::Horizontal);
    let layout_without_four = remove_layout_leaf(layout, 4).expect("other panes remain");
    layout = layout_without_four;
    assert!(insert_layout_leaf(&mut layout, 3, 4, SplitAxis::Vertical));
    let PaneLayout::Split {
        axis: root_axis,
        second,
        ..
    } = &layout
    else {
        panic!("expected root split");
    };
    assert_eq!(*root_axis, SplitAxis::Horizontal);
    let PaneLayout::Split {
        axis: branch_axis, ..
    } = second.as_ref()
    else {
        panic!("expected nested split");
    };
    assert_eq!(*branch_axis, SplitAxis::Vertical);
    assert_eq!(layout_leaf_ids(&layout), vec![1, 2, 3, 4]);
}

#[test]
fn the_sidebar_gives_way_to_one_terminal_column() {
    for collapsed in [false, true] {
        let wanted: u16 = if collapsed { 4 } else { 29 };
        for width in 0..=400u16 {
            let area = Rect::new(3, 2, width, 20);
            let terminal = terminal_area(area, collapsed);
            let left = wanted.min(width.saturating_sub(1));
            assert_eq!(terminal, Rect::new(3 + left, 2, width - left, 20));
        }
    }
    assert_eq!(
        terminal_area(Rect::new(0, 0, 65535, 65535), false),
        Rect::new(29, 0, 65506, 65535)
    );
}

#[test]
fn sidebar_and_terminal_cover_the_screen_once() {
    let area = Rect::new(1, 1, 40, 3);
    let terminal = terminal_area(area, false);
    for x in 0..45u16 {
        for y in 0..6u16 {
            let in_sidebar = contains(area, x, y) && x < terminal.x;
            assert_eq!(
                contains(area, x, y),
                in_sidebar || contains(terminal, x, y)
            );
        }
    }
}

#[test]
fn rectangles_are_cut_at_the_end_of_the_coordinates() {
    assert_eq!(Rect::new(65530, 65534, 10, 10).right(), 65535);
    assert_eq!(Rect::new(65530, 65534, 10, 10).width, 5);
    assert_eq!(Rect::new(65530, 65534, 10, 10).height, 1);
    assert_eq!(Rect::default(), Rect::new(0, 0, 0, 0));
    assert!(!contains(Rect::default(), 0, 0));
}

#[test]
fn the_first_part_of_a_balanced_layout_is_the_larger_one() {
    let PaneLayout::Split { ratio, first, second, .. } =
        balanced_layout_ids(&[1, 2, 3], SplitAxis::Horizontal)
    else {
        panic!("expected a split");
    };
    assert_eq!(layout_leaf_ids(&first), vec![1, 2]);
    assert_eq!(layout_leaf_ids(&second), vec![3]);
    assert_eq!(ratio, 66);
    assert!(matches!(
        balanced_layout_ids(&[], SplitAxis::Vertical),
        PaneLayout::Leaf(0)
    ));
}

#[test]
fn panes_and_dividers_fill_the_area() {
    let layout = balanced_layout_ids(&[1, 2], SplitAxis::Horizontal);
    let list = sessions(2, Some(3));
    let (panes, dividers) = geometry_of(&layout, Rect::new(0, 0, 81, 10), &list);
    assert_eq!(
        panes,
        vec![(0, Rect::new(0, 0, 40, 10)), (1, Rect::new(41, 0, 40, 10))]
    );
    assert_eq!(dividers.len(), 1);
    assert_eq!(dividers[0].divider, Rect::new(40, 0, 1, 10));
    assert_eq!(dividers[0].container, Rect::new(0, 0, 81, 10));
    assert_eq!(dividers[0].group, 3);
    assert!(dividers[0].path.is_empty());
}

#[test]
fn every_cell_of_a_tiled_area_is_covered_once() {
    let mut layout = balanced_layout_ids(&[1, 2, 3, 4, 5], SplitAxis::Horizontal);
    assert!(insert_layout_leaf(&mut layout, 3, 6, SplitAxis::Vertical));
    let list = sessions(6, Some(3));
    let area = Rect::new(4, 2, 90, 30);
    let (panes, dividers) = geometry_of(&layout, area, &list);
    assert_eq!(panes.len(), 6);
    assert_eq!(dividers.len(), 5);
    for x in 0..100u16 {
        for y in 0..40u16 {
            let count = panes.iter().filter(|(_, a)| contains(*a, x, y)).count()
                + dividers.iter().filter(|d| contains(d.divider, x, y)).count();
            assert_eq!(count, usize::from(contains(area, x, y)));
        }
    }
}

#[test]
fn leaves_without_a_session_have_no_pane() {
    let layout = balanced_layout_ids(&[1, 99, 2], SplitAxis::Vertical);
    let list = sessions(2, Some(3));
    let (panes, _) = geometry_of(&layout, Rect::new(0, 0, 80, 31), &list);
    assert_eq!(panes.iter().map(|p| p.0).collect::<Vec<_>>(), vec![0, 1]);
}

#[test]
fn a_divider_leads_to_its_split() {
    let mut layout = balanced_layout_ids(&[1, 2, 3, 4], SplitAxis::Horizontal);
    let list = sessions(4, Some(3));
    let (_, dividers) = geometry_of(&layout, Rect::new(0, 0, 83, 10), &list);
    for hit in dividers {
        let part = layout_at_path_mut(&mut layout, &hit.path);
        assert!(matches!(part, Some(PaneLayout::Split { .. })));
    }
    assert!(layout_at_path_mut(&mut layout, &[true, true, true]).is_none());
    match layout_at_path_mut(&mut layout, &[true, false]) {
        Some(PaneLayout::Leaf(id)) => assert_eq!(*id, 3),
        _ => panic!("expected a leaf"),
    }
}

#[test]
fn a_part_can_be_replaced_through_its_path() {
    let mut layout = balanced_layout_ids(&[1, 2, 3], SplitAxis::Horizontal);
    if let Some(part) = layout_at_path_mut(&mut layout, &[false, true]) {
        *part = PaneLayout::Leaf(7);
    }
    assert_eq!(layout_leaf_ids(&layout), vec![1, 7, 3]);
}

#[test]
fn equalizing_halves_every_split() {
    let mut layout = balanced_layout_ids(&[1, 2, 3], SplitAxis::Horizontal);
    equalize_layout(&mut layout);
    let PaneLayout::Split { ratio, first, .. } = &layout else {
        panic!("expected a split");
    };
    assert_eq!(*ratio, 50);
    assert!(matches!(first.as_ref(), PaneLayout::Split { ratio: 50, .. }));
    assert_eq!(layout_leaf_ids(&layout), vec![1, 2, 3]);
}

#[test]
fn removing_undoes_inserting() {
    let mut layout = balanced_layout_ids(&[1, 2, 3], SplitAxis::Horizontal);
    assert!(insert_layout_leaf(&mut layout, 2, 9, SplitAxis::Vertical));
    assert_eq!(layout_leaf_ids(&layout), vec![1, 2, 9, 3]);
    let layout = remove_layout_leaf(layout, 9).expect("other panes remain");
    assert_eq!(layout_leaf_ids(&layout), vec![1, 2, 3]);
    let mut layout = remove_layout_leaf(layout, 9).expect("nothing was removed");
    assert!(!insert_layout_leaf(&mut layout, 77, 9, SplitAxis::Vertical));
    assert_eq!(layout_leaf_ids(&layout), vec![1, 2, 3]);
    assert!(remove_layout_leaf(PaneLayout::Leaf(5), 5).is_none());
}

#[test]
fn group_layouts_hold_the_members_in_order() {
    let mut list = sessions(4, Some(3));
    list[1].group = None;
    let layout = balanced_layout(&list, 3, SplitAxis::Vertical);
    assert_eq!(layout_leaf_ids(&layout), vec![1, 3, 4]);
    assert_eq!(layout_leaf_ids(&layout_for_group(&list, 3)), vec![1, 3, 4]);
    assert!(matches!(
        layout_for_group(&list, 3),
        PaneLayout::Split { axis: SplitAxis::Horizontal, .. }
    ));
}

#[test]
fn layouts_beyond_the_coordinates_do_not_fit() {
    let layout = balanced_layout_ids(&[1, 2], SplitAxis::Horizontal);
    assert!(layout_fits(&layout, Rect::new(0, 0, 80, 24)));
    assert!(!layout_fits(&layout, Rect::new(65535, 0, 0, 24)));
}
