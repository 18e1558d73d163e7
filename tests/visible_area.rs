use snake_view::visible::{calc_visible_area, visible_range, VisibleArea};

#[test]
fn end_to_end_ten_by_ten_unit_zoom() {
    let vis = calc_visible_area(10, 10, 0, 0, 5, 5);
    assert_eq!(vis.rows, 0..8);
    assert_eq!(vis.cols, 0..8);
    assert!(!vis.is_too_big());
}

#[test]
fn upper_bound_clamped_at_extent() {
    let vis = calc_visible_area(10, 12, 2, 4, 9, 9);
    assert_eq!(vis.rows, 1..10);
    assert_eq!(vis.cols, 0..12);
}

#[test]
fn viewport_past_the_grid_gives_empty_range_in_bounds() {
    let r = visible_range(10, 100, 200);
    assert_eq!(r, 10..10);
    let r = visible_range(10, -50, -20);
    assert_eq!(r, 0..0);
}

#[test]
fn margin_reaches_back_from_far_side() {
    let r = visible_range(10, 12, 20);
    assert_eq!(r, 9..10);
    let r = visible_range(10, -40, -3);
    assert_eq!(r, 0..0);
    let r = visible_range(10, -40, -2);
    assert_eq!(r, 0..1);
}

#[test]
fn extreme_bounds_do_not_overflow() {
    let r = visible_range(7, i64::MIN, i64::MAX);
    assert_eq!(r, 0..7);
    let r = visible_range(0, -5, 5);
    assert_eq!(r, 0..0);
}

#[test]
fn containment_over_many_viewports() {
    let extent: usize = 10;
    for lo in -20i64..20 {
        for hi in lo..25 {
            let r = visible_range(extent, lo, hi);
            assert!(r.start <= r.end && r.end <= extent);
            for i in 0..extent as i64 {
                let inside = lo - 3 <= i && i < hi + 3;
                assert_eq!(inside, r.start as i64 <= i && i < r.end as i64);
            }
        }
    }
}

#[test]
fn budget_exact_boundary() {
    let at = VisibleArea { rows: 0..100, cols: 0..200 };
    assert!(at.is_too_big());
    let below = VisibleArea { rows: 0..100, cols: 0..199 };
    assert!(!below.is_too_big());
    let above = VisibleArea { rows: 5..20006, cols: 3..4 };
    assert!(above.is_too_big());
    let just_below = VisibleArea { rows: 1..20000, cols: 0..1 };
    assert!(!just_below.is_too_big());
}

#[test]
fn budget_empty_and_huge_areas() {
    let empty = VisibleArea { rows: 4..4, cols: 0..1_000_000 };
    assert!(!empty.is_too_big());
    let reversed = VisibleArea { rows: 9..2, cols: 0..1_000_000 };
    assert!(!reversed.is_too_big());
    let huge = VisibleArea { rows: 0..usize::MAX, cols: 0..usize::MAX };
    assert!(huge.is_too_big());
}
