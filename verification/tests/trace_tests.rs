use wireframe::trace::draw_line_trace;

#[test]
fn trace_line_matches_debug_tuple_format() {
    let bytes = draw_line_trace(1, 2, 3, 4);
    let expect = format!("\nDraw line [{:?}| {:?}]", (1, 2), (3, 4));
    assert_eq!(bytes, expect.into_bytes());
}

#[test]
fn trace_line_simple() {
    let bytes = draw_line_trace(500, 500, 0, 1000);
    assert_eq!(bytes, b"\nDraw line [(500, 500)| (0, 1000)]".to_vec());
}

#[test]
fn trace_line_negative_coordinates() {
    let bytes = draw_line_trace(-1, -20, 7, -300);
    assert_eq!(bytes, b"\nDraw line [(-1, -20)| (7, -300)]".to_vec());
}

#[test]
fn trace_line_extreme_values() {
    let bytes = draw_line_trace(i32::MIN, i32::MAX, 0, -1);
    let expect = format!("\nDraw line [{:?}| {:?}]", (i32::MIN, i32::MAX), (0, -1));
    assert_eq!(bytes, expect.into_bytes());
}
