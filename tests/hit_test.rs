use snake_view::hit::{highlight, nearest_object, select, Highlight};

#[test]
fn identical_objects_first_wins() {
    // two unit circles at the cursor: both surfaces one unit inside
    assert_eq!(nearest_object(&[-10, -10], 50), Some(0));
}

#[test]
fn threshold_excludes_far_object() {
    // distances in tenths of a pixel against a threshold of five pixels
    assert_eq!(nearest_object(&[60], 50), None);
    assert_eq!(nearest_object(&[49], 50), Some(0));
}

#[test]
fn threshold_is_strict() {
    assert_eq!(nearest_object(&[50], 50), None);
}

#[test]
fn nearest_of_several() {
    assert_eq!(nearest_object(&[30, 12, 40, 12, -3, 7], 50), Some(4));
    assert_eq!(nearest_object(&[30, 12, 40, 12], 50), Some(1));
    assert_eq!(nearest_object(&[], 50), None);
}

#[test]
fn click_chooses_hovered_object() {
    assert_eq!(select(None, Some(3), true), Some(3));
    assert_eq!(select(Some(1), Some(3), true), Some(3));
    assert_eq!(select(Some(1), Some(3), false), Some(1));
    assert_eq!(select(Some(1), None, true), Some(1));
    assert_eq!(select(None, None, true), None);
}

#[test]
fn chosen_drawn_over_hovered() {
    assert_eq!(highlight(2, Some(2), Some(2)), Highlight::Chosen);
    assert_eq!(highlight(2, Some(2), Some(1)), Highlight::Hovered);
    assert_eq!(highlight(2, None, None), Highlight::Plain);
    assert_eq!(highlight(1, Some(2), Some(1)), Highlight::Chosen);
}
