use rusty_svg::canon::{canonicalize_path_text, canonicalize_spans};

fn canon(s: &str) -> String {
    String::from_utf8(canonicalize_path_text(s.as_bytes())).unwrap()
}

fn numbers(s: &str) -> usize {
    s.split_whitespace().filter(|t| t.parse::<f64>().is_ok()).count()
}

#[test]
fn doubled_control_point_becomes_quadratic() {
    assert_eq!(canon("<path d=\"M 10 20 C 1 2 1 2 5 6 Z\"/>"), "<path d=\"M 10 20 Q 1 2 5 6 Z\"/>");
}

#[test]
fn distinct_control_points_stay_cubic() {
    let s = "<path d=\"M 10 20 C 1 2 3 4 5 6 Z\"/>";
    assert_eq!(canon(s), s);
}

#[test]
fn numerically_equal_but_differently_written_stay_cubic() {
    let s = "M 0 0 C 1.0 2 1 2 5 6";
    assert_eq!(canon(s), s);
}

#[test]
fn lower_case_command_keeps_its_case() {
    assert_eq!(canon("M 0 0 c 1.5 2.25 1.5 2.25 5 6"), "M 0 0 q 1.5 2.25 5 6");
}

#[test]
fn several_commands_in_a_row() {
    let s = "M 0 0 C 1 1 1 1 2 2 C 3 3 4 4 5 5 C 6 6 6 6 7 7 Z";
    let out = canon(s);
    assert_eq!(out, "M 0 0 Q 1 1 2 2 C 3 3 4 4 5 5 Q 6 6 7 7 Z");
    assert!(numbers(&out) < numbers(s));
    assert!(out.len() <= s.len());
}

#[test]
fn text_without_commands_is_kept() {
    assert_eq!(canon(""), "");
    assert_eq!(canon("<svg width=\"10\"/>"), "<svg width=\"10\"/>");
}

#[test]
fn spans_out_of_order_or_range_are_passed_over() {
    let text = b"X C 1 2 1 2 3 4 Y";
    let spans = vec![Some((2usize, 15usize)), Some((0, 3)), None, Some((10, 100))];
    assert_eq!(canonicalize_spans(text, &spans), b"X Q 1 2 3 4 Y".to_vec());
}

#[test]
fn negative_coordinates_are_recognised() {
    assert_eq!(canon("M 0 0 C -1 2 -1 2 5 -6"), "M 0 0 Q -1 2 5 -6");
    assert_eq!(canon("M 0 0 C -1 2 1 2 5 -6"), "M 0 0 C -1 2 1 2 5 -6");
}
