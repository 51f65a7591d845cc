use taffy_3d::geometry::{Point3, Size3};
use taffy_3d::layout::{compute_block_layout, compute_grid_layout, compute_layout, FlexDirection3D, Layout3D, Node3D, Style3D};
use taffy_3d::style::{AlignItems, Dimension, JustifyContent, UNIT};

fn sized(w: i64, h: i64, d: i64) -> Style3D {
    Style3D {
        size: Size3 { width: Dimension::length(w * UNIT), height: Dimension::length(h * UNIT), depth: Dimension::length(d * UNIT) },
        ..Style3D::default()
    }
}

fn leaf(w: i64, h: i64, d: i64) -> Node3D {
    Node3D::new(sized(w, h, d), vec![])
}

fn layouts(node: &Node3D, out: &mut Vec<Layout3D>) {
    out.push(node.layout);
    for c in &node.children {
        layouts(c, out);
    }
}

#[test]
fn flex_row_positions_children() {
    let mut root = Node3D::new(Style3D::default(), vec![leaf(10, 5, 1), leaf(4, 5, 1)]);

    compute_layout(&mut root);
    assert_eq!(root.children[0].layout.location, Point3 { x: 0, y: 0, z: 0 });
    assert_eq!(root.children[1].layout.location.x, 10 * UNIT);
    assert_eq!(root.layout.size.width, 14 * UNIT);
}

#[test]
fn wrap_places_child_on_new_line() {
    let mut root = Node3D::new(
        Style3D {
            size: Size3 { width: Dimension::length(10 * UNIT), height: Dimension::auto(), depth: Dimension::auto() },
            wrap: true,
            ..Style3D::default()
        },
        vec![leaf(6, 2, 1), leaf(6, 2, 1)],
    );

    compute_layout(&mut root);
    assert_eq!(root.children[1].layout.location.y > 0, true);
    assert_eq!(root.children[0].layout.location.x, 0);
    assert_eq!(root.children[1].layout.location.x, 0);
    assert_eq!(root.layout.size.height, 4 * UNIT);
}

#[test]
fn align_center_positions_child() {
    let mut root = Node3D::new(Style3D { align_items: AlignItems::Center, ..sized(10, 10, 2) }, vec![leaf(2, 2, 1)]);

    compute_layout(&mut root);
    assert_eq!(root.children[0].layout.location.y, 4 * UNIT);
    assert_eq!(root.children[0].layout.location.z, UNIT / 2);
    assert_eq!(root.children[0].layout.location.x, 0);
}

#[test]
fn stretch_fills_line_and_depth() {
    let mut root = Node3D::new(Style3D { align_items: AlignItems::Stretch, ..sized(10, 10, 2) }, vec![leaf(2, 2, 1)]);

    compute_layout(&mut root);
    let child = &root.children[0];
    assert_eq!(child.layout.location, Point3 { x: 0, y: 0, z: 0 });
    assert_eq!(child.layout.size.depth, 2 * UNIT);
    // a single line in a container of fixed height spans that height
    assert_eq!(child.layout.size.height, 10 * UNIT);
    assert_eq!(child.layout.size.width, 2 * UNIT);
}

#[test]
fn row_auto_width_sums_children_and_gaps() {
    let style = Style3D { gap: 2 * UNIT, ..Style3D::default() };
    let mut root = Node3D::new(style, vec![leaf(1, 1, 1), leaf(2, 1, 1), leaf(3, 1, 1)]);
    compute_layout(&mut root);
    assert_eq!(root.layout.size.width, 10 * UNIT);
    assert_eq!(root.children[1].layout.location.x, 3 * UNIT);
    assert_eq!(root.children[2].layout.location.x, 7 * UNIT);
}

#[test]
fn row_center_offsets_first_child_by_half_free_space() {
    let style = Style3D {
        gap: 2 * UNIT,
        justify_content: JustifyContent::Center,
        size: Size3 { width: Dimension::length(20 * UNIT), height: Dimension::auto(), depth: Dimension::auto() },
        ..Style3D::default()
    };
    let mut root = Node3D::new(style, vec![leaf(1, 1, 1), leaf(2, 1, 1), leaf(3, 1, 1)]);
    compute_layout(&mut root);
    assert_eq!(root.layout.size.width, 20 * UNIT);
    assert_eq!(root.children[0].layout.location.x, 5 * UNIT);
}

#[test]
fn justify_flex_end_and_space_between() {
    let end = Style3D { justify_content: JustifyContent::FlexEnd, ..sized(10, 5, 1) };
    let mut root = Node3D::new(end, vec![leaf(2, 1, 1), leaf(3, 1, 1)]);
    compute_layout(&mut root);
    assert_eq!(root.children[0].layout.location.x, 5 * UNIT);
    assert_eq!(root.children[1].layout.location.x, 7 * UNIT);

    let between = Style3D { justify_content: JustifyContent::SpaceBetween, ..sized(10, 5, 1) };
    let mut root = Node3D::new(between, vec![leaf(2, 1, 1), leaf(3, 1, 1)]);
    compute_layout(&mut root);
    assert_eq!(root.children[0].layout.location.x, 0);
    assert_eq!(root.children[1].layout.location.x, 7 * UNIT);

    let single = Style3D { justify_content: JustifyContent::SpaceBetween, ..sized(10, 5, 1) };
    let mut root = Node3D::new(single, vec![leaf(2, 1, 1)]);
    compute_layout(&mut root);
    assert_eq!(root.children[0].layout.location.x, 0);
}

#[test]
fn unhandled_justify_behaves_as_flex_start() {
    let style = Style3D { justify_content: JustifyContent::SpaceAround, gap: UNIT, ..sized(10, 5, 1) };
    let mut root = Node3D::new(style, vec![leaf(2, 1, 1), leaf(3, 1, 1)]);
    compute_layout(&mut root);
    assert_eq!(root.children[0].layout.location.x, 0);
    assert_eq!(root.children[1].layout.location.x, 3 * UNIT);
}

#[test]
fn negative_free_space_overlaps() {
    let style = Style3D { justify_content: JustifyContent::Center, ..sized(2, 5, 1) };
    let mut root = Node3D::new(style, vec![leaf(3, 1, 1), leaf(3, 1, 1)]);
    compute_layout(&mut root);
    assert_eq!(root.children[0].layout.location.x, -2 * UNIT);
    assert_eq!(root.children[1].layout.location.x, UNIT);
}

#[test]
fn align_flex_end_in_row() {
    let style = Style3D { align_items: AlignItems::FlexEnd, ..sized(10, 10, 2) };
    let mut root = Node3D::new(style, vec![leaf(2, 2, 1)]);
    compute_layout(&mut root);
    assert_eq!(root.children[0].layout.location, Point3 { x: 0, y: 8 * UNIT, z: UNIT });
    assert_eq!(root.children[0].layout.size, Size3 { width: 2 * UNIT, height: 2 * UNIT, depth: UNIT });
}

#[test]
fn column_stacks_and_stretches_width() {
    let style = Style3D { flex_direction: FlexDirection3D::Column, gap: UNIT, ..Style3D::default() };
    let mut root = Node3D::new(style, vec![leaf(2, 3, 1), leaf(5, 4, 2)]);
    compute_layout(&mut root);
    assert_eq!(root.layout.size, Size3 { width: 5 * UNIT, height: 8 * UNIT, depth: 2 * UNIT });
    assert_eq!(root.children[0].layout.location, Point3 { x: 0, y: 0, z: 0 });
    assert_eq!(root.children[1].layout.location, Point3 { x: 0, y: 4 * UNIT, z: 0 });
    assert_eq!(root.children[0].layout.size, Size3 { width: 5 * UNIT, height: 3 * UNIT, depth: 2 * UNIT });
}

#[test]
fn column_wraps_into_new_column() {
    let style = Style3D {
        flex_direction: FlexDirection3D::Column,
        wrap: true,
        align_items: AlignItems::FlexStart,
        size: Size3 { width: Dimension::auto(), height: Dimension::length(5 * UNIT), depth: Dimension::auto() },
        ..Style3D::default()
    };
    let mut root = Node3D::new(style, vec![leaf(2, 3, 1), leaf(4, 3, 1)]);
    compute_layout(&mut root);
    assert_eq!(root.children[1].layout.location, Point3 { x: 2 * UNIT, y: 0, z: 0 });
    assert_eq!(root.layout.size.width, 6 * UNIT);
}

#[test]
fn zero_fixed_cross_size_is_kept() {
    let style = Style3D {
        size: Size3 { width: Dimension::auto(), height: Dimension::length(0), depth: Dimension::auto() },
        ..Style3D::default()
    };
    let mut root = Node3D::new(style, vec![leaf(1, 3, 1)]);
    compute_layout(&mut root);
    assert_eq!(root.layout.size.height, 0);

    let column = Style3D {
        flex_direction: FlexDirection3D::Column,
        size: Size3 { width: Dimension::length(0), height: Dimension::auto(), depth: Dimension::auto() },
        ..Style3D::default()
    };
    let mut root = Node3D::new(column, vec![leaf(2, 3, 1)]);
    compute_layout(&mut root);
    assert_eq!(root.layout.size.width, 0);
}

#[test]
fn column_centres_within_container_width() {
    let style = Style3D { flex_direction: FlexDirection3D::Column, align_items: AlignItems::Center, ..sized(10, 10, 2) };
    let mut root = Node3D::new(style, vec![leaf(2, 2, 1)]);
    compute_layout(&mut root);
    assert_eq!(root.children[0].layout.location, Point3 { x: 4 * UNIT, y: 0, z: UNIT / 2 });
}

#[test]
fn column_stretch_fills_fixed_width() {
    let style = Style3D {
        flex_direction: FlexDirection3D::Column,
        size: Size3 { width: Dimension::length(10 * UNIT), height: Dimension::auto(), depth: Dimension::auto() },
        ..Style3D::default()
    };
    let mut root = Node3D::new(style, vec![leaf(2, 2, 1), leaf(3, 1, 2)]);
    compute_layout(&mut root);
    for child in &root.children {
        assert_eq!(child.layout.size.width, 10 * UNIT);
        assert_eq!(child.layout.size.depth, 2 * UNIT);
        assert_eq!(child.layout.location.x, 0);
        assert_eq!(child.layout.location.z, 0);
    }
    assert_eq!(root.children[1].layout.size.height, UNIT);
}

#[test]
fn negative_gap_gives_negative_automatic_extent() {
    let style = Style3D { gap: -UNIT, ..Style3D::default() };
    let mut root = Node3D::new(style, vec![leaf(0, 0, 0), leaf(0, 0, 0)]);
    compute_layout(&mut root);
    assert_eq!(root.layout.size.width, -UNIT);

    let column = Style3D { flex_direction: FlexDirection3D::Column, gap: -UNIT, ..Style3D::default() };
    let mut root = Node3D::new(column, vec![leaf(0, 0, 0), leaf(0, 0, 0)]);
    compute_layout(&mut root);
    assert_eq!(root.layout.size.height, -UNIT);
}

#[test]
fn depth_stack_drops_trailing_gap_whenever_it_has_children() {
    let style = Style3D { flex_direction: FlexDirection3D::Depth, gap: -UNIT, ..Style3D::default() };
    let mut root = Node3D::new(style, vec![leaf(1, 1, 0)]);
    compute_layout(&mut root);
    assert_eq!(root.layout.size.depth, 0);
}

#[test]
fn empty_container_is_zero_sized() {
    let mut root = Node3D::new(Style3D::default(), vec![]);
    compute_layout(&mut root);
    assert_eq!(root.layout.size, Size3 { width: 0, height: 0, depth: 0 });
}

#[test]
fn grid_cells_divide_container() {
    let mut root = Node3D::new(Style3D::default(), (0..6).map(|_| leaf(1, 1, 1)).collect());
    root.layout.size = Size3 { width: 12 * UNIT, height: 9 * UNIT, depth: 6 * UNIT };
    compute_grid_layout(&mut root, 3, 3, 2);
    for child in &root.children {
        assert_eq!(child.layout.size, Size3 { width: 4 * UNIT, height: 3 * UNIT, depth: 3 * UNIT });
    }
    assert_eq!(root.children[4].layout.location, Point3 { x: 4 * UNIT, y: 3 * UNIT, z: 0 });
    assert_eq!(root.children[5].layout.location, Point3 { x: 8 * UNIT, y: 3 * UNIT, z: 0 });
}

#[test]
fn grid_moves_to_next_layer() {
    let mut root = Node3D::new(Style3D::default(), (0..5).map(|_| leaf(1, 1, 1)).collect());
    root.layout.size = Size3 { width: 4 * UNIT, height: 4 * UNIT, depth: 4 * UNIT };
    compute_grid_layout(&mut root, 2, 2, 2);
    assert_eq!(root.children[4].layout.location, Point3 { x: 0, y: 0, z: 2 * UNIT });
}

#[test]
fn depth_stack_accumulates_depths() {
    let style = Style3D { flex_direction: FlexDirection3D::Depth, gap: UNIT, ..Style3D::default() };
    let mut root = Node3D::new(style, vec![leaf(1, 2, 1), leaf(3, 1, 2), leaf(2, 1, 3)]);
    compute_layout(&mut root);
    let zs: Vec<i64> = root.children.iter().map(|c| c.layout.location.z).collect();
    assert_eq!(zs, vec![0, 2 * UNIT, 5 * UNIT]);
    assert!(zs.windows(2).all(|w| w[0] <= w[1]));
    assert_eq!(root.layout.size, Size3 { width: 3 * UNIT, height: 2 * UNIT, depth: 8 * UNIT });
}

#[test]
fn depth_wrap_restarts_cursor_and_widens() {
    let style = Style3D {
        flex_direction: FlexDirection3D::Depth,
        wrap: true,
        size: Size3 { width: Dimension::auto(), height: Dimension::auto(), depth: Dimension::length(3 * UNIT) },
        ..Style3D::default()
    };
    let mut root = Node3D::new(style, vec![leaf(1, 1, 2), leaf(1, 1, 2)]);
    compute_layout(&mut root);
    assert_eq!(root.children[0].layout.location.z, 0);
    assert_eq!(root.children[1].layout.location.z, 0);
    assert_eq!(root.layout.size, Size3 { width: 2 * UNIT, height: UNIT, depth: 3 * UNIT });
}

#[test]
fn block_stacks_along_height() {
    let inner = Node3D::new(Style3D { gap: UNIT, ..Style3D::default() }, vec![leaf(1, 1, 1), leaf(2, 1, 3)]);
    let style = Style3D { gap: 2 * UNIT, ..Style3D::default() };
    let mut root = Node3D::new(style, vec![leaf(1, 1, 1), inner, leaf(1, 1, 1)]);
    compute_block_layout(&mut root);
    assert_eq!(root.children[1].layout.size, Size3 { width: 2 * UNIT, height: 3 * UNIT, depth: 3 * UNIT });
    assert_eq!(root.children[1].children[1].layout.location.y, 2 * UNIT);
    assert_eq!(root.children[1].layout.location.y, 3 * UNIT);
    assert_eq!(root.children[2].layout.location.y, 8 * UNIT);
    assert_eq!(root.layout.size, Size3 { width: 2 * UNIT, height: 9 * UNIT, depth: 3 * UNIT });
}

#[test]
fn block_keeps_fixed_sizes() {
    let mut node = leaf(10, 5, 1);
    compute_block_layout(&mut node);
    assert_eq!(node.layout.size, Size3 { width: 10 * UNIT, height: 5 * UNIT, depth: UNIT });
}

#[test]
fn block_drops_trailing_gap_whenever_it_has_children() {
    let style = Style3D { gap: -UNIT, ..Style3D::default() };
    let mut root = Node3D::new(style, vec![leaf(0, 0, 0), leaf(0, 0, 0)]);
    compute_block_layout(&mut root);
    assert_eq!(root.layout.size.height, -UNIT);
}

#[test]
fn block_relayout_is_idempotent() {
    let inner = Node3D::new(Style3D { gap: UNIT, ..Style3D::default() }, vec![leaf(1, 2, 1), leaf(2, 1, 3)]);
    let mut root = Node3D::new(Style3D { gap: UNIT, ..Style3D::default() }, vec![inner, leaf(4, 5, 2)]);
    compute_block_layout(&mut root);
    let mut first = Vec::new();
    layouts(&root, &mut first);
    compute_block_layout(&mut root);
    let mut second = Vec::new();
    layouts(&root, &mut second);
    assert_eq!(first, second);
}

#[test]
fn relayout_is_idempotent() {
    let inner = Node3D::new(
        Style3D { flex_direction: FlexDirection3D::Depth, gap: UNIT, ..Style3D::default() },
        vec![leaf(1, 2, 1), leaf(2, 1, 3)],
    );
    let style = Style3D { wrap: true, gap: UNIT, ..sized(6, 0, 4) };
    let mut root = Node3D::new(style, vec![leaf(3, 1, 1), inner, leaf(4, 5, 2)]);
    compute_layout(&mut root);
    let mut first = Vec::new();
    layouts(&root, &mut first);
    compute_layout(&mut root);
    let mut second = Vec::new();
    layouts(&root, &mut second);
    assert_eq!(first, second);
}

#[test]
fn style_defaults() {
    let s = Style3D::default();
    assert_eq!(s.flex_direction, FlexDirection3D::Row);
    assert_eq!(s.gap, 0);
    assert!(!s.wrap);
    assert_eq!(s.justify_content, JustifyContent::FlexStart);
    assert_eq!(s.align_items, AlignItems::Stretch);
    assert!(s.size.width.is_auto() && s.size.height.is_auto() && s.size.depth.is_auto());
    assert_eq!(FlexDirection3D::default(), FlexDirection3D::Row);
    assert_eq!(Layout3D::default(), Layout3D { location: Point3 { x: 0, y: 0, z: 0 }, size: Size3 { width: 0, height: 0, depth: 0 } });
}
