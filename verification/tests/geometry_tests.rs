use maenggu::geometry::compute_bounds;
use maenggu::geometry::BoundingRect;
use maenggu::geometry::MonitorDescriptor;

fn monitor(x: i32, y: i32, width: u32, height: u32) -> MonitorDescriptor {
    MonitorDescriptor { x, y, width, height }
}

#[test]
fn no_monitors_no_bounds() {
    let monitors: Vec<MonitorDescriptor> = Vec::new();
    assert_eq!(compute_bounds(&monitors), None);
}

#[test]
fn two_monitors_spanning_rect() {
    let monitors = vec![monitor(0, 0, 1920, 1080), monitor(-1280, 0, 1280, 1024)];
    let bounds = compute_bounds(&monitors);
    assert_eq!(
        bounds,
        Some(BoundingRect { x: -1280, y: 0, width: 3200, height: 1080 })
    );
}

#[test]
fn single_monitor_is_its_own_bounds() {
    let monitors = vec![monitor(100, -50, 2560, 1440)];
    assert_eq!(
        compute_bounds(&monitors),
        Some(BoundingRect { x: 100, y: -50, width: 2560, height: 1440 })
    );
}

#[test]
fn duplicate_monitors_need_no_tie_break() {
    let monitors = vec![
        monitor(0, 0, 1920, 1080),
        monitor(0, 0, 1920, 1080),
        monitor(0, 0, 1920, 1080),
    ];
    assert_eq!(
        compute_bounds(&monitors),
        Some(BoundingRect { x: 0, y: 0, width: 1920, height: 1080 })
    );
}

#[test]
fn monitor_above_and_left_of_primary() {
    let monitors = vec![monitor(0, 0, 1920, 1080), monitor(-1920, -1080, 1920, 1080)];
    assert_eq!(
        compute_bounds(&monitors),
        Some(BoundingRect { x: -1920, y: -1080, width: 3840, height: 2160 })
    );
}

#[test]
fn stacked_monitors_of_differing_sizes() {
    let monitors = vec![monitor(0, 0, 3840, 2160), monitor(500, 2160, 1280, 1024)];
    assert_eq!(
        compute_bounds(&monitors),
        Some(BoundingRect { x: 0, y: 0, width: 3840, height: 3184 })
    );
}

#[test]
fn widest_representable_span_has_bounds() {
    let monitors = vec![monitor(i32::MIN, 0, 1, 1), monitor(i32::MAX - 1, 0, 1, 1)];
    assert_eq!(
        compute_bounds(&monitors),
        Some(BoundingRect { x: i32::MIN, y: 0, width: u32::MAX, height: 1 })
    );
}

#[test]
fn span_too_wide_for_pixel_fields_no_bounds() {
    let monitors = vec![monitor(i32::MIN, 0, 1, 1), monitor(i32::MAX - 1, 0, 2, 1)];
    assert_eq!(compute_bounds(&monitors), None);
}
