use snake_view::field::{field_color, field_min_max, Cell, Rgb};
use snake_view::number::{parse_i64, parse_usize};
use snake_view::scanner::Scanner;
use snake_view::input::{parse_cost, parse_move, read_field, read_snake};
use snake_view::snake::{adjacent_steps, is_adjacent, snake_parts, step, trace_snake, visible_segments, Move};
use snake_view::visible::VisibleArea;
use snake_view::scene::Scene;
use snake_view::image::{field_image, PIXELS_PER_CELL};

fn cell(col: usize, row: usize) -> Cell {
    Cell { col, row }
}

#[test]
fn min_max_includes_zero() {
    let a = vec![vec![Some(5), None], vec![Some(3), Some(9)]];
    assert_eq!(field_min_max(&a), (0, 9));
    let b = vec![vec![Some(-4), Some(-7)], vec![None, Some(2)]];
    assert_eq!(field_min_max(&b), (-7, 2));
    let empty: Vec<Vec<Option<i64>>> = vec![vec![None]];
    assert_eq!(field_min_max(&empty), (0, 0));
}

#[test]
fn colors_by_sign_and_share() {
    let a = vec![vec![Some(-4), Some(-8), None], vec![Some(0), Some(5), Some(10)]];
    let (lo, hi) = field_min_max(&a);
    assert_eq!(field_color(&a, lo, hi, 0, 0), Rgb { r: 127, g: 0, b: 0 });
    assert_eq!(field_color(&a, lo, hi, 0, 1), Rgb { r: 255, g: 0, b: 0 });
    assert_eq!(field_color(&a, lo, hi, 0, 2), Rgb { r: 255, g: 255, b: 255 });
    assert_eq!(field_color(&a, lo, hi, 1, 0), Rgb { r: 160, g: 160, b: 160 });
    assert_eq!(field_color(&a, lo, hi, 1, 1), Rgb { r: 0, g: 127, b: 0 });
    assert_eq!(field_color(&a, lo, hi, 1, 2), Rgb { r: 0, g: 255, b: 0 });
}

#[test]
fn extreme_costs_keep_intensity_in_range() {
    let a = vec![vec![Some(i64::MIN), Some(i64::MAX), Some(-1)]];
    let (lo, hi) = field_min_max(&a);
    assert_eq!((lo, hi), (i64::MIN, i64::MAX));
    assert_eq!(field_color(&a, lo, hi, 0, 0).r, 255);
    assert_eq!(field_color(&a, lo, hi, 0, 1).g, 255);
    assert_eq!(field_color(&a, lo, hi, 0, 2).r, 0);
}

#[test]
fn integers_parse_as_std_does() {
    assert_eq!(parse_usize("42"), Some(42));
    assert_eq!(parse_usize("+7"), Some(7));
    assert_eq!(parse_usize("-0"), None);
    assert_eq!(parse_usize(""), None);
    assert_eq!(parse_usize("+"), None);
    assert_eq!(parse_usize("4x"), None);
    assert_eq!(parse_usize("18446744073709551615"), Some(usize::MAX));
    assert_eq!(parse_usize("18446744073709551616"), None);
    assert_eq!(parse_i64("-17"), Some(-17));
    assert_eq!(parse_i64("+17"), Some(17));
    assert_eq!(parse_i64("-"), None);
    assert_eq!(parse_i64("9223372036854775807"), Some(i64::MAX));
    assert_eq!(parse_i64("9223372036854775808"), None);
    assert_eq!(parse_i64("-9223372036854775808"), Some(i64::MIN));
    assert_eq!(parse_i64("-9223372036854775809"), None);
    for s in ["0", "12", "-3", "+5", "007", "x", "1 2", "--1"] {
        assert_eq!(parse_i64(s), s.parse::<i64>().ok());
        assert_eq!(parse_usize(s), s.parse::<usize>().ok());
    }
}

#[test]
fn scanner_splits_on_ascii_whitespace() {
    let mut sc = Scanner::new("  3 4\t\n*  -2\r\nR\x0cD ");
    let mut got = vec![];
    while let Some(t) = sc.next() {
        got.push(t);
    }
    assert_eq!(got, vec!["3", "4", "*", "-2", "R", "D"]);
    assert_eq!(sc.next(), None);
    let mut empty = Scanner::new(" \n ");
    assert_eq!(empty.next(), None);
}

#[test]
fn tokens_parse_to_costs_and_moves() {
    assert_eq!(parse_cost("*"), Some(None));
    assert_eq!(parse_cost("-12"), Some(Some(-12)));
    assert_eq!(parse_cost("**"), None);
    assert_eq!(parse_move("R"), Some(Move::Right));
    assert_eq!(parse_move("D"), Some(Move::Down));
    assert_eq!(parse_move("L"), Some(Move::Left));
    assert_eq!(parse_move("U"), Some(Move::Up));
    assert_eq!(parse_move("r"), None);
    assert_eq!(parse_move("RR"), None);
}

#[test]
fn steps_wrap_at_edges() {
    assert_eq!(step(cell(2, 1), Move::Right, 3, 3), cell(0, 1));
    assert_eq!(step(cell(0, 1), Move::Left, 3, 3), cell(2, 1));
    assert_eq!(step(cell(1, 0), Move::Up, 3, 3), cell(1, 2));
    assert_eq!(step(cell(1, 2), Move::Down, 3, 3), cell(1, 0));
    assert_eq!(step(cell(1, 1), Move::Right, 3, 3), cell(2, 1));
    assert_eq!(step(cell(1, 1), Move::Up, 3, 3), cell(1, 0));
}

#[test]
fn trace_follows_moves() {
    let path = trace_snake(cell(0, 0), &[Move::Right, Move::Down, Move::Left], 4, 4);
    assert_eq!(path, vec![cell(0, 0), cell(1, 0), cell(1, 1), cell(0, 1)]);
    let single = trace_snake(cell(3, 2), &[], 4, 4);
    assert_eq!(single, vec![cell(3, 2)]);
}

#[test]
fn adjacency_is_one_step_on_one_axis() {
    assert!(is_adjacent(cell(0, 0), cell(1, 0), 5, 5));
    assert!(is_adjacent(cell(2, 3), cell(2, 2), 5, 5));
    assert!(!is_adjacent(cell(0, 0), cell(1, 1), 5, 5));
    assert!(!is_adjacent(cell(0, 0), cell(0, 0), 5, 5));
    assert!(!is_adjacent(cell(0, 0), cell(4, 0), 5, 5));
}

#[test]
fn parts_skip_wrapped_steps() {
    // the last step wraps from column 2 to column 0 and is not drawn
    let snakes = vec![vec![cell(1, 0), cell(2, 0), cell(0, 0)], vec![cell(1, 1), cell(1, 0), cell(2, 0)]];
    let parts = snake_parts(&snakes, 2, 3);
    assert_eq!(parts[0][1], vec![cell(2, 0), cell(2, 0)]);
    assert_eq!(parts[0][2], Vec::<Cell>::new());
    assert_eq!(parts[1][1], vec![cell(1, 0)]);
    assert_eq!(parts[0][0], Vec::<Cell>::new());
    let vis = VisibleArea { rows: 0..2, cols: 1..2 };
    assert_eq!(
        visible_segments(&parts, &vis),
        vec![(cell(1, 0), cell(2, 0)), (cell(1, 0), cell(2, 0)), (cell(1, 1), cell(1, 0))]
    );
    let none = VisibleArea { rows: 1..1, cols: 0..3 };
    assert_eq!(visible_segments(&parts, &none), vec![]);
}

#[test]
fn field_and_path_read_from_tokens() {
    let mut sc = Scanner::new("1 * -3 4 5 0 rest");
    let a = read_field(&mut sc, 2, 3).unwrap();
    assert_eq!(a, vec![vec![Some(1), None, Some(-3)], vec![Some(4), Some(5), Some(0)]]);
    assert_eq!(sc.next(), Some("rest".to_string()));
    let mut short = Scanner::new("1 2 3");
    assert_eq!(read_field(&mut short, 2, 2), None);
    let mut bad = Scanner::new("1 x 3 4");
    assert_eq!(read_field(&mut bad, 2, 2), None);

    let mut out = Scanner::new("2 0 R D L");
    let path = read_snake(&mut out, 4, 2, 3).unwrap();
    assert_eq!(path, vec![cell(2, 0), cell(0, 0), cell(0, 1), cell(2, 1)]);
    let mut outside = Scanner::new("3 0 R");
    assert_eq!(read_snake(&mut outside, 2, 2, 3), None);
    let mut bad_move = Scanner::new("0 0 X");
    assert_eq!(read_snake(&mut bad_move, 2, 2, 3), None);
}

#[test]
fn scene_loads_and_culls() {
    let input = "3 2 2\n3 2\n1 * -3\n4 5 0\n";
    let output = "0 0 R D\n2 1 U\n";
    let scene = Scene::load(input, output).unwrap();
    assert_eq!((scene.rows, scene.cols), (2, 3));
    assert_eq!((scene.min_cost, scene.max_cost), (-3, 5));
    assert_eq!(scene.snakes, vec![vec![cell(0, 0), cell(1, 0), cell(1, 1)], vec![cell(2, 1), cell(2, 0)]]);
    assert_eq!(scene.field_color(1, 1), Rgb { r: 0, g: 255, b: 0 });
    assert_eq!(scene.field_color(0, 1), Rgb { r: 255, g: 255, b: 255 });
    let vis = scene.calc_visible_area(0, 0, 1, 1);
    assert_eq!((vis.rows.clone(), vis.cols.clone()), (0..2, 0..3));
    assert_eq!(
        scene.visible_segments(&vis),
        vec![(cell(0, 0), cell(1, 0)), (cell(1, 0), cell(1, 1)), (cell(2, 1), cell(2, 0))]
    );
    assert!(Scene::load("3 2 1\n2\n1 2 3 4 5", output).is_none());
    assert!(Scene::load(input, "0 0 R").is_none());
}

#[test]
fn image_blocks_and_path_line() {
    let a = vec![vec![Some(-2), Some(4)]];
    let snakes = vec![vec![cell(0, 0), cell(1, 0)]];
    let img = field_image(&a, -2, 4, &snakes, 1, 2);
    let w = 2 * PIXELS_PER_CELL;
    assert_eq!(img.len(), w * PIXELS_PER_CELL);
    let red = Rgb { r: 255, g: 0, b: 0 };
    let green = Rgb { r: 0, g: 255, b: 0 };
    let blue = Rgb { r: 0, g: 0, b: 255 };
    for y in 0..PIXELS_PER_CELL {
        for x in 0..w {
            let expected = if y == 2 && (2..=7).contains(&x) {
                blue
            } else if x < PIXELS_PER_CELL {
                red
            } else {
                green
            };
            assert_eq!(img[y * w + x], expected, "pixel ({x}, {y})");
        }
    }
}

#[test]
fn image_skips_wrapped_step() {
    let a = vec![vec![None, None, None]];
    let snakes = vec![vec![cell(2, 0), cell(0, 0)]];
    let img = field_image(&a, 0, 0, &snakes, 1, 3);
    assert!(img.iter().all(|p| *p == Rgb { r: 255, g: 255, b: 255 }));
}

#[test]
fn vertical_path_line_in_scene_image() {
    let scene = Scene::load("1 2 1 2 0 0", "0 0 D").unwrap();
    let img = scene.field_image();
    assert_eq!(img.len(), 5 * 10);
    let blue = Rgb { r: 0, g: 0, b: 255 };
    let gray = Rgb { r: 160, g: 160, b: 160 };
    for y in 0..10 {
        for x in 0..5 {
            let expected = if x == 2 && (2..=7).contains(&y) { blue } else { gray };
            assert_eq!(img[y * 5 + x], expected);
        }
    }
}

#[test]
fn scene_with_no_paths_and_header_errors() {
    let scene = Scene::load("2 1 0 7 -7", "").unwrap();
    assert_eq!(scene.snakes.len(), 0);
    assert_eq!((scene.min_cost, scene.max_cost), (-7, 7));
    assert!(Scene::load("2 1", "").is_none());
    assert!(Scene::load("2 x 0 1 1", "").is_none());
    assert!(Scene::load("2 1 2 3", "").is_none());
    // a path of length zero still reads its start
    let one = Scene::load("2 1 1 0 5 6", "1 0").unwrap();
    assert_eq!(one.snakes, vec![vec![cell(1, 0)]]);
}

#[test]
fn whole_path_steps_skip_wraps() {
    let path = vec![cell(0, 0), cell(1, 0), cell(2, 0), cell(0, 0), cell(0, 1)];
    assert_eq!(
        adjacent_steps(&path, 2, 3),
        vec![(cell(0, 0), cell(1, 0)), (cell(1, 0), cell(2, 0)), (cell(0, 0), cell(0, 1))]
    );
    assert_eq!(adjacent_steps(&[], 2, 3), vec![]);
    assert_eq!(adjacent_steps(&[cell(1, 1)], 2, 3), vec![]);
}
