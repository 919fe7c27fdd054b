use wireframe::scene::{
    data_lines, parse_scene, parse_u8, parse_usize, split_bytes, trim_bytes, Rgba, SceneField,
};

fn one_object() -> String {
    String::from("# a comment\n\n1;2;3\n0.1;0.2;0.3\n0;0;0|1;0;0\n0;1\n255;0;0;255\n")
}

#[test]
fn parses_one_object() {
    let recs = parse_scene(one_object().as_bytes()).unwrap();
    assert_eq!(recs.len(), 1);
    let rec = &recs[0];
    assert_eq!(rec.position.x, b"1".to_vec());
    assert_eq!(rec.position.y, b"2".to_vec());
    assert_eq!(rec.position.z, b"3".to_vec());
    assert_eq!(rec.rotation.x, b"0.1".to_vec());
    assert_eq!(rec.points.len(), 2);
    assert_eq!(rec.points[1].x, b"1".to_vec());
    assert_eq!(rec.edges, vec![(0usize, 1usize)]);
    assert_eq!(rec.color, Rgba { r: 255, g: 0, b: 0, a: 255 });
}

#[test]
fn empty_file_holds_no_objects() {
    let recs = parse_scene(b"").unwrap();
    assert_eq!(recs.len(), 0);
}

#[test]
fn comment_and_blank_lines_are_ignored() {
    let text = String::from("#x\n#y\n\n\n") + &one_object();
    let recs = parse_scene(text.as_bytes()).unwrap();
    assert_eq!(recs.len(), 1);
}

#[test]
fn trailing_short_group_is_ignored() {
    let text = one_object() + "9;9;9\n0;0;0\n";
    let recs = parse_scene(text.as_bytes()).unwrap();
    assert_eq!(recs.len(), 1);
}

#[test]
fn extra_coordinate_fields_are_ignored() {
    let text = String::from("1;2;3;4;5\n0;0;0\n0;0;0\n0;0\n1;2;3;4\n");
    let recs = parse_scene(text.as_bytes()).unwrap();
    assert_eq!(recs[0].position.z, b"3".to_vec());
}

#[test]
fn short_position_line_is_an_error() {
    let text = String::from("1;2\n0;0;0\n0;0;0\n0;0\n1;2;3;4\n");
    let err = parse_scene(text.as_bytes()).unwrap_err();
    assert_eq!(err.field, SceneField::Position);
    assert_eq!(err.object, 0);
    assert_eq!(err.line, b"1;2".to_vec());
}

#[test]
fn short_rotation_line_is_an_error() {
    let text = String::from("1;2;3\n0;0\n0;0;0\n0;0\n1;2;3;4\n");
    let err = parse_scene(text.as_bytes()).unwrap_err();
    assert_eq!(err.field, SceneField::Rotation);
    assert_eq!(err.line, b"0;0".to_vec());
}

#[test]
fn short_point_group_is_an_error() {
    let text = String::from("1;2;3\n0;0;0\n0;0;0|1;0\n0;0\n1;2;3;4\n");
    let err = parse_scene(text.as_bytes()).unwrap_err();
    assert_eq!(err.field, SceneField::Points);
    assert_eq!(err.line, b"0;0;0|1;0".to_vec());
}

#[test]
fn edge_index_out_of_range_is_an_error() {
    let text = String::from("1;2;3\n0;0;0\n0;0;0|1;0;0\n0;2\n1;2;3;4\n");
    let err = parse_scene(text.as_bytes()).unwrap_err();
    assert_eq!(err.field, SceneField::Edges);
    assert_eq!(err.line, b"0;2".to_vec());
}

#[test]
fn non_numeric_edge_is_an_error() {
    let text = String::from("1;2;3\n0;0;0\n0;0;0|1;0;0\n0;a\n1;2;3;4\n");
    let err = parse_scene(text.as_bytes()).unwrap_err();
    assert_eq!(err.field, SceneField::Edges);
}

#[test]
fn color_channel_above_255_is_an_error() {
    let text = String::from("1;2;3\n0;0;0\n0;0;0|1;0;0\n0;1\n256;0;0;255\n");
    let err = parse_scene(text.as_bytes()).unwrap_err();
    assert_eq!(err.field, SceneField::Color);
    assert_eq!(err.line, b"256;0;0;255".to_vec());
}

#[test]
fn short_color_line_is_an_error() {
    let text = String::from("1;2;3\n0;0;0\n0;0;0|1;0;0\n0;1\n1;2;3\n");
    let err = parse_scene(text.as_bytes()).unwrap_err();
    assert_eq!(err.field, SceneField::Color);
}

#[test]
fn error_reports_second_object() {
    let text = one_object() + "1;2;3\n0;0;0\n0;0;0\nbad\n1;2;3;4\n";
    let err = parse_scene(text.as_bytes()).unwrap_err();
    assert_eq!(err.object, 1);
    assert_eq!(err.field, SceneField::Edges);
    assert_eq!(err.line, b"bad".to_vec());
}

#[test]
fn integer_fields_take_spaces_and_plus_signs() {
    let text = String::from("1;2;3\n0;0;0\n0;0;0|1;0;0\n +0 ; 1\n 10;+20; 30 ;40\n");
    let recs = parse_scene(text.as_bytes()).unwrap();
    assert_eq!(recs[0].edges, vec![(0usize, 1usize)]);
    assert_eq!(recs[0].color, Rgba { r: 10, g: 20, b: 30, a: 40 });
}

#[test]
fn data_lines_drop_comments_and_blanks() {
    let kept = data_lines(b"# comment\na\n\nb\n#c\nd");
    assert_eq!(kept, vec![b"a".to_vec(), b"b".to_vec(), b"d".to_vec()]);
    assert_eq!(data_lines(b""), Vec::<Vec<u8>>::new());
}

#[test]
fn split_keeps_empty_tokens() {
    let toks = split_bytes(b"a;;b", 59);
    assert_eq!(toks, vec![b"a".to_vec(), b"".to_vec(), b"b".to_vec()]);
    let toks = split_bytes(b"", 59);
    assert_eq!(toks, vec![b"".to_vec()]);
}

#[test]
fn trim_strips_ascii_whitespace() {
    assert_eq!(trim_bytes(b" \t 42 \r\n"), b"42".to_vec());
    assert_eq!(trim_bytes(b"   "), b"".to_vec());
    assert_eq!(trim_bytes(b"a b"), b"a b".to_vec());
}

#[test]
fn parse_usize_reads_decimal_text() {
    assert_eq!(parse_usize(b"123"), Some(123));
    assert_eq!(parse_usize(b"+7"), Some(7));
    assert_eq!(parse_usize(b"0"), Some(0));
    assert_eq!(parse_usize(b""), None);
    assert_eq!(parse_usize(b"+"), None);
    assert_eq!(parse_usize(b"12x"), None);
    assert_eq!(parse_usize(b"-3"), None);
    assert_eq!(parse_usize(b"99999999999999999999999999999"), None);
}

#[test]
fn parse_u8_rejects_large_values() {
    assert_eq!(parse_u8(b"255"), Some(255));
    assert_eq!(parse_u8(b"256"), None);
    assert_eq!(parse_u8(b"000"), Some(0));
}
