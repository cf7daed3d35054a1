use shift::events::FrameworkError;
use shift::layout::{
    clamp_point_to_layout, is_contiguous, is_valid_edge_contiguous_layout, layout_horizontal,
    move_cursor_no_tunnel, LayoutContext, MonitorPlacement, MonitorSpec,
};

fn spec(id: &str, width: i32, height: i32) -> MonitorSpec {
    MonitorSpec { id: id.into(), width, height }
}

fn place(id: &str, x: i32, y: i32, width: i32, height: i32) -> MonitorPlacement {
    MonitorPlacement { id: id.into(), x, y, width, height }
}

#[test]
fn horizontal_layout_is_deterministic() {
    let in_monitors = vec![
        MonitorSpec { id: "mon_b".into(), width: 2560, height: 1440 },
        MonitorSpec { id: "mon_a".into(), width: 1920, height: 1080 },
    ];
    let placed = layout_horizontal(&in_monitors);
    assert_eq!(placed.len(), 2);
    assert_eq!(placed[0].id, "mon_a");
    assert_eq!(placed[0].x, 0);
    assert_eq!(placed[1].id, "mon_b");
    assert_eq!(placed[1].x, 1920);
}

#[test]
fn contiguity_detects_gaps() {
    let ok = vec![
        MonitorPlacement { id: "a".into(), x: 0, y: 0, width: 100, height: 100 },
        MonitorPlacement { id: "b".into(), x: 100, y: 0, width: 100, height: 100 },
    ];
    let gap = vec![
        MonitorPlacement { id: "a".into(), x: 0, y: 0, width: 100, height: 100 },
        MonitorPlacement { id: "b".into(), x: 120, y: 0, width: 100, height: 100 },
    ];
    assert!(is_contiguous(&ok));
    assert!(!is_contiguous(&gap));
}

#[test]
fn strict_layout_rejects_overlap_and_islands() {
    let overlap = vec![
        MonitorPlacement { id: "a".into(), x: 0, y: 0, width: 100, height: 100 },
        MonitorPlacement { id: "b".into(), x: 50, y: 0, width: 100, height: 100 },
    ];
    let island = vec![
        MonitorPlacement { id: "a".into(), x: 0, y: 0, width: 100, height: 100 },
        MonitorPlacement { id: "b".into(), x: 100, y: 0, width: 100, height: 100 },
        MonitorPlacement { id: "c".into(), x: 500, y: 0, width: 100, height: 100 },
    ];
    let ok = vec![
        MonitorPlacement { id: "a".into(), x: 0, y: 0, width: 100, height: 100 },
        MonitorPlacement { id: "b".into(), x: 100, y: 0, width: 100, height: 100 },
        MonitorPlacement { id: "c".into(), x: 200, y: 0, width: 100, height: 100 },
    ];
    assert!(!is_valid_edge_contiguous_layout(&overlap));
    assert!(!is_valid_edge_contiguous_layout(&island));
    assert!(is_valid_edge_contiguous_layout(&ok));
}

#[test]
fn no_tunnel_across_monitors() {
    let layout = vec![
        MonitorPlacement { id: "a".into(), x: 0, y: 0, width: 100, height: 100 },
        MonitorPlacement { id: "b".into(), x: 100, y: 0, width: 100, height: 100 },
    ];
    let (x, y) = move_cursor_no_tunnel(&layout, 10, 50, 250, 0);
    assert!(x <= 200);
    assert_eq!(y, 50);
}

#[test]
fn packing_places_sorted_monitors_side_by_side() {
    let placed = layout_horizontal(&[spec("b", 2560, 1440), spec("a", 1920, 1080)]);
    assert_eq!(placed, vec![place("a", 0, 0, 1920, 1080), place("b", 1920, 0, 2560, 1440)]);
}

#[test]
fn packing_ignores_input_order() {
    let one = layout_horizontal(&[spec("c", 10, 10), spec("a", 20, 5), spec("b", 30, 7)]);
    let two = layout_horizontal(&[spec("b", 30, 7), spec("c", 10, 10), spec("a", 20, 5)]);
    assert_eq!(one, two);
    assert_eq!(one[2], place("c", 50, 0, 10, 10));
}

#[test]
fn packing_orders_equal_ids_by_size() {
    let one = layout_horizontal(&[spec("a", 30, 1), spec("a", 20, 1)]);
    let two = layout_horizontal(&[spec("a", 20, 1), spec("a", 30, 1)]);
    assert_eq!(one, two);
    assert_eq!(one[0].width, 20);
    assert_eq!(one[1].x, 20);
}

#[test]
fn packing_treats_negative_width_as_zero_and_saturates() {
    let placed = layout_horizontal(&[spec("a", -5, 10), spec("b", i32::MAX, 10), spec("c", 7, 10)]);
    assert_eq!(placed[1].x, 0);
    assert_eq!(placed[2].x, i32::MAX);
}

#[test]
fn packing_of_nothing_is_empty() {
    assert!(layout_horizontal(&[]).is_empty());
}

#[test]
fn single_monitor_and_empty_layouts_are_valid() {
    assert!(is_valid_edge_contiguous_layout(&[]));
    assert!(is_valid_edge_contiguous_layout(&[place("a", 5, 5, 10, 10)]));
    assert!(is_contiguous(&[]));
}

#[test]
fn vertical_stack_is_valid_and_corner_contact_is_not() {
    let stacked = vec![place("a", 0, 0, 100, 100), place("b", 0, 100, 100, 50)];
    assert!(is_valid_edge_contiguous_layout(&stacked));
    let corner = vec![place("a", 0, 0, 100, 100), place("b", 100, 100, 100, 100)];
    assert!(!is_valid_edge_contiguous_layout(&corner));
}

#[test]
fn clamp_keeps_points_inside() {
    let layout = vec![place("a", 0, 0, 100, 100)];
    assert_eq!(clamp_point_to_layout(&layout, 10, 20), (10, 20));
}

#[test]
fn clamp_projects_onto_nearest_monitor() {
    let layout = vec![place("a", 0, 0, 100, 100), place("b", 100, 0, 100, 100)];
    assert_eq!(clamp_point_to_layout(&layout, 250, 50), (200, 50));
    assert_eq!(clamp_point_to_layout(&layout, -30, -40), (0, 0));
}

#[test]
fn clamp_breaks_ties_by_first_monitor() {
    let layout = vec![place("a", 0, 0, 10, 10), place("b", 20, 0, 10, 10)];
    assert_eq!(clamp_point_to_layout(&layout, 15, 5), (10, 5));
}

#[test]
fn clamp_is_idempotent() {
    let layout = vec![place("a", 0, 0, 100, 100), place("b", 100, 50, 100, 100)];
    let once = clamp_point_to_layout(&layout, 500, -20);
    assert_eq!(clamp_point_to_layout(&layout, once.0, once.1), once);
}

#[test]
fn clamp_on_empty_layout_is_identity() {
    assert_eq!(clamp_point_to_layout(&[], -7, 9), (-7, 9));
}

#[test]
fn motion_inside_a_monitor_is_exact() {
    let layout = vec![place("a", 0, 0, 100, 100), place("b", 100, 0, 100, 100)];
    assert_eq!(move_cursor_no_tunnel(&layout, 10, 50, 30, -20), (40, 30));
    assert_eq!(move_cursor_no_tunnel(&layout, 90, 50, 20, 0), (110, 50));
}

#[test]
fn motion_stops_at_a_gap() {
    let layout = vec![place("a", 0, 0, 100, 100), place("c", 300, 0, 100, 100)];
    let (x, y) = move_cursor_no_tunnel(&layout, 50, 50, 400, 0);
    assert_eq!((x, y), (100, 50));
}

#[test]
fn motion_on_empty_layout_adds_delta() {
    assert_eq!(move_cursor_no_tunnel(&[], 5, 6, 7, -8), (12, -2));
}

#[test]
fn motion_starts_from_clamped_point() {
    let layout = vec![place("a", 0, 0, 100, 100)];
    assert_eq!(move_cursor_no_tunnel(&layout, -50, 10, 0, 0), (0, 10));
}

#[test]
fn set_monitor_position_accepts_valid_layout() {
    let mut ctx = LayoutContext::new(vec![place("a", 0, 0, 100, 100), place("b", 100, 0, 100, 100)], 150, 50);
    assert_eq!(ctx.set_monitor_position("b", 0, 100), Ok(()));
    assert_eq!(ctx.monitors()[1], place("b", 0, 100, 100, 100));
    assert!(is_valid_edge_contiguous_layout(ctx.monitors()));
    assert_eq!(ctx.cursor_position(), (100, 50));
}

#[test]
fn set_monitor_position_rolls_back_invalid_layout() {
    let mut ctx = LayoutContext::new(vec![place("a", 0, 0, 100, 100), place("b", 100, 0, 100, 100)], 150, 50);
    let r = ctx.set_monitor_position("b", 500, 0);
    assert!(matches!(r, Err(FrameworkError::Config(_))));
    assert_eq!(ctx.monitors()[1], place("b", 100, 0, 100, 100));
    assert_eq!(ctx.cursor_position(), (150, 50));
}

#[test]
fn set_monitor_position_reports_unknown_monitor() {
    let mut ctx = LayoutContext::new(vec![place("a", 0, 0, 100, 100)], 0, 0);
    assert_eq!(ctx.set_monitor_position("zz", 0, 0), Err(FrameworkError::MonitorNotFound("zz".into())));
}

#[test]
fn context_cursor_stays_on_layout() {
    let mut ctx = LayoutContext::new(vec![place("a", 0, 0, 100, 100), place("b", 100, 0, 100, 100)], -10, 500);
    assert_eq!(ctx.cursor_position(), (0, 100));
    ctx.move_cursor(250, 0);
    assert_eq!(ctx.cursor_position().1, 100);
    assert!(ctx.cursor_position().0 <= 200);
    ctx.warp_cursor(1000, 1000);
    assert_eq!(ctx.cursor_position(), (200, 100));
}

#[test]
fn horizontal_relayout_moves_monitors_and_cursor() {
    let mut ctx = LayoutContext::new(vec![place("b", 0, 100, 50, 50), place("a", 0, 0, 100, 100)], 10, 120);
    ctx.apply_horizontal_layout();
    assert_eq!(ctx.monitors(), &[place("b", 100, 0, 50, 50), place("a", 0, 0, 100, 100)][..]);
    assert!(is_valid_edge_contiguous_layout(ctx.monitors()));
    assert_eq!(ctx.cursor_position(), (10, 100));
}
