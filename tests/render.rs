use raytracer::render::{next_step, pixel_at, should_trace, PathEvent, PathStep, MAX_DEPTH};

#[test]
fn exhausted_budget_is_black_whatever_happens() {
    for event in [PathEvent::Missed, PathEvent::Absorbed, PathEvent::Scattered] {
        assert_eq!(PathStep::Black, next_step(0, event));
        assert_eq!(PathStep::Black, next_step(-3, event));
    }
    assert!(!should_trace(0));
    assert!(!should_trace(-1));
}

#[test]
fn live_budget_follows_the_event() {
    assert!(should_trace(MAX_DEPTH));
    assert_eq!(PathStep::Background, next_step(MAX_DEPTH, PathEvent::Missed));
    assert_eq!(PathStep::Black, next_step(MAX_DEPTH, PathEvent::Absorbed));
    assert_eq!(PathStep::Continue(49), next_step(MAX_DEPTH, PathEvent::Scattered));
    assert_eq!(PathStep::Continue(0), next_step(1, PathEvent::Scattered));
}

#[test]
fn pixels_come_top_row_first() {
    assert_eq!((0, 2), pixel_at(0, 4, 3));
    assert_eq!((3, 2), pixel_at(3, 4, 3));
    assert_eq!((0, 1), pixel_at(4, 4, 3));
    assert_eq!((3, 0), pixel_at(11, 4, 3));
}

#[test]
fn pixel_order_visits_each_pixel_once() {
    let (width, height) = (5, 3);
    let mut seen = vec![false; 15];
    for index in 0..15u64 {
        let (column, row) = pixel_at(index, width, height);
        let slot = (row * width + column) as usize;
        assert!(!seen[slot]);
        seen[slot] = true;
    }
    assert!(seen.iter().all(|s| *s));
}
