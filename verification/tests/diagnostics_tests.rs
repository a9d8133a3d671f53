use reqlang_expr::diagnostics::{index_to_position, position_to_index};

#[test]
fn it_should_convert_index_to_position() {
    let source = "let a = 123;\nlet b = 456;";

    let index = 17usize;
    let expected_position = (1, 4);

    let index_to_position = index_to_position(source, index);
    let actual_position = index_to_position;

    assert_eq!(expected_position, actual_position);
}

#[test]
fn it_should_convert_position_to_index() {
    let source = "let a = 123;\nlet b = 456;";
    let position = (1, 4);
    let expected_index = 17usize;
    let actual_index = position_to_index(source, position);

    assert_eq!(expected_index, actual_index);
}

#[test]
fn it_should_convert_position_to_index_and_back() {
    let source = "let a = 123;\nlet b = 456;";
    let position = (1, 4);
    let actual_index = position_to_index(source, position);

    assert_eq!(position, index_to_position(source, actual_index));
}

#[test]
fn it_should_convert_position_to_index_and_back_b() {
    let source = "let a = 123;\n{\n    let b = 456;\n}";
    let position = (2, 12);
    let actual_index = position_to_index(source, position);

    assert_eq!(position, index_to_position(source, actual_index));
}

#[test]
fn it_should_convert_position_to_index_b() {
    let source = "let a = 123;\n{\n    let b = 456;\n}";
    let position = (2, 12);
    let actual_index = position_to_index(source, position);

    assert_eq!(27, actual_index);
}

#[test]
fn it_should_convert_position_to_index_c() {
    let source = "let a = 123;\nlet b = 456;\nlet c = 789;";
    let position = (2, 8);
    let actual_index = position_to_index(source, position);

    assert_eq!(34, actual_index);
}

#[test]
fn it_should_convert_position_to_index_d() {
    let source = "let a = 123;\nlet b = 456;\nlet c = 789;\nlet d = 000;";
    let position = (3, 8);
    let actual_index = position_to_index(source, position);

    assert_eq!(47, actual_index);
}

#[test]
fn it_should_convert_position_to_index_e() {
    let source = "let a = 123;\nlet b = 456;\nlet c = 789;\nlet d = 000;\nlet e = 999;";
    let position = (4, 8);
    let actual_index = position_to_index(source, position);

    assert_eq!(60, actual_index);
}

#[test]
fn it_should_convert_position_to_index_f() {
    let source = "let a = 123;\nlet b = 456;\nlet c = 789;\nlet d = 000;\nlet e = 999;\n";
    let position = (4, 8);
    let actual_index = position_to_index(source, position);

    assert_eq!(60, actual_index);
}

#[test]
fn index_position_round_trip_on_every_index() {
    let source = "ab\n\ncd é\nx";
    for index in 0..=source.len() {
        let position = index_to_position(source, index);
        assert_eq!(index, position_to_index(source, position));
    }
}

#[test]
fn position_past_the_last_line_counts_one_past_the_end() {
    let source = "ab\ncd";
    assert_eq!(source.len() + 1 + 2, position_to_index(source, (5, 2)));
}

#[test]
fn index_to_position_counts_bytes_in_a_line() {
    let source = "é\nab";
    assert_eq!((0, 2), index_to_position(source, 2));
    assert_eq!((1, 1), index_to_position(source, 4));
}
