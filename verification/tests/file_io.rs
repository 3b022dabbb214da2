use traclus::file_io::{
    gather_reports, point_count, push_bytes, push_decimal, read_trajectory_line, same_bytes,
    split_fields, time_to_second, trajectory_id, write_lane, FileError,
};

#[test]
fn a_time_is_turned_into_seconds() {
    assert_eq!(time_to_second("20181222_101112"), Ok(1545473472));
    assert_eq!(time_to_second("20181222_000000"), Ok(1545436800));
    assert_eq!(time_to_second("19700101_000001"), Ok(1));
}

#[test]
fn a_text_that_is_no_time_is_refused() {
    assert_eq!(time_to_second("not a time"), Err(FileError::DimensionPointError));
    assert_eq!(time_to_second(""), Err(FileError::DimensionPointError));
    assert_eq!(time_to_second("20181322_101112"), Err(FileError::DimensionPointError));
    assert_eq!(time_to_second("20181222_256112"), Err(FileError::DimensionPointError));
    assert_eq!(time_to_second("20181222"), Err(FileError::DimensionPointError));
}

#[test]
fn the_number_of_a_trajectory_is_read() {
    assert_eq!(trajectory_id(b"42"), Ok(42));
    assert_eq!(trajectory_id(b"0"), Ok(0));
    assert_eq!(trajectory_id(b"007"), Ok(7));
    assert_eq!(trajectory_id(b"+5"), Ok(5));
    assert_eq!(trajectory_id(b"1234567890"), Ok(1234567890));
}

#[test]
fn the_number_of_a_trajectory_is_read_as_the_standard_library_reads_it() {
    let most = usize::MAX.to_string();
    let mut beyond = most.clone();
    let last = beyond.pop().unwrap();
    beyond.push(((last as u8) + 1) as char);
    for text in [
        "", "+", "-", "0", "-0", "+0", "++1", "+-1", "12a", "a12", "1 2", "\u{661}\u{662}",
        "\u{ff11}\u{ff12}", "0x10", "1e3", "000000000000000000000000000001", most.as_str(),
        beyond.as_str(), "18446744073709551616", "99999999999999999999", "4294967296",
        "+18446744073709551615",
    ] {
        assert_eq!(trajectory_id(text.as_bytes()).ok(), text.parse::<usize>().ok(), "{:?}", text);
    }
    assert_eq!(trajectory_id(most.as_bytes()), Ok(usize::MAX));
}

#[test]
fn a_text_that_is_no_number_is_refused() {
    assert_eq!(trajectory_id(b"abc"), Err(FileError::IdError));
    assert_eq!(trajectory_id(b""), Err(FileError::IdError));
    assert_eq!(trajectory_id(b"-1"), Err(FileError::IdError));
    assert_eq!(trajectory_id(b"1.5"), Err(FileError::IdError));
    assert_eq!(trajectory_id(b" 1"), Err(FileError::IdError));
    assert_eq!(trajectory_id(b"99999999999999999999999999"), Err(FileError::IdError));
    assert_eq!(trajectory_id(b"+"), Err(FileError::IdError));
    assert_eq!(trajectory_id(b"5+"), Err(FileError::IdError));
}

#[test]
fn the_points_of_a_line_are_counted() {
    assert_eq!(point_count(1), Ok(0));
    assert_eq!(point_count(3), Ok(1));
    assert_eq!(point_count(5), Ok(2));
    assert_eq!(point_count(usize::MAX), Ok((usize::MAX - 1) / 2));
}

#[test]
fn a_line_with_half_a_point_is_refused() {
    assert_eq!(point_count(2), Err(FileError::DimensionMismatchError));
    assert_eq!(point_count(4), Err(FileError::DimensionMismatchError));
}

#[test]
fn a_line_without_a_field_has_no_number() {
    assert_eq!(point_count(0), Err(FileError::IdError));
}

#[test]
fn the_errors_differ() {
    assert_ne!(FileError::FileOpenError, FileError::IdError);
    assert_ne!(FileError::DimensionMismatchError, FileError::DimensionPointError);
}

#[test]
fn a_line_is_split_at_its_blanks() {
    assert_eq!(split_fields(b"7 1.5 2.5"), vec![(0, 1), (2, 5), (6, 9)]);
    assert_eq!(split_fields(b"abc"), vec![(0, 3)]);
    assert_eq!(split_fields(b""), vec![(0, 0)]);
    assert_eq!(split_fields(b" "), vec![(0, 0), (1, 1)]);
    assert_eq!(split_fields(b"a  b "), vec![(0, 1), (2, 2), (3, 4), (5, 5)]);
    assert_eq!(split_fields(b"a\tb c"), vec![(0, 3), (4, 5)]);
}

#[test]
fn a_line_is_split_as_the_standard_library_splits_it() {
    for line in ["", " ", "  ", "1 2 3", " 1 2", "1 2 ", "12  34", "x", "\u{e9} \u{4e2d} z"] {
        let expected: Vec<&str> = line.split(' ').collect();
        let fields: Vec<&str> =
            split_fields(line.as_bytes()).iter().map(|(start, end)| &line[*start..*end]).collect();
        assert_eq!(fields, expected, "{:?}", line);
    }
}

#[test]
fn a_trajectory_line_is_read_up_to_its_coordinates() {
    assert_eq!(read_trajectory_line(b"12 1.5 2.5 3 4"), Ok((12, vec![(3, 6), (7, 10), (11, 12), (13, 14)])));
    assert_eq!(read_trajectory_line(b"3"), Ok((3, vec![])));
    assert_eq!(read_trajectory_line(b"3 x y"), Ok((3, vec![(2, 3), (4, 5)])));
}

#[test]
fn a_trajectory_line_is_refused_for_its_fields_before_its_number() {
    assert_eq!(read_trajectory_line(b"12 1.5"), Err(FileError::DimensionMismatchError));
    assert_eq!(read_trajectory_line(b"x 1.5"), Err(FileError::DimensionMismatchError));
    assert_eq!(read_trajectory_line(b"12 1 2 "), Err(FileError::DimensionMismatchError));
    assert_eq!(read_trajectory_line(b"x 1.5 2.5"), Err(FileError::IdError));
    assert_eq!(read_trajectory_line(b""), Err(FileError::IdError));
    assert_eq!(read_trajectory_line(b" 1 2"), Err(FileError::IdError));
    assert_eq!(read_trajectory_line(b"-4 1 2"), Err(FileError::IdError));
}

#[test]
fn a_number_is_written_in_decimal_digits() {
    for (number, digits) in
        [(0usize, "0"), (7, "7"), (10, "10"), (99, "99"), (100, "100"), (1234567890, "1234567890")]
    {
        let mut text = b"n=".to_vec();
        push_decimal(&mut text, number);
        assert_eq!(text, format!("n={}", digits).into_bytes());
    }
    let mut text = Vec::new();
    push_decimal(&mut text, usize::MAX);
    assert_eq!(text, usize::MAX.to_string().into_bytes());
}

#[test]
fn a_written_number_is_read_back() {
    for number in [0usize, 1, 9, 10, 11, 255, 256, 65535, 1 << 40, usize::MAX - 1, usize::MAX] {
        let mut text = Vec::new();
        push_decimal(&mut text, number);
        assert_eq!(trajectory_id(&text), Ok(number));
    }
}

#[test]
fn bytes_are_appended() {
    let mut text = b"ab".to_vec();
    push_bytes(&mut text, b"cd");
    push_bytes(&mut text, b"");
    assert_eq!(text, b"abcd".to_vec());
}

#[test]
fn a_lane_is_written_as_three_lines() {
    let coordinates =
        vec![(b"1.5".to_vec(), b"2".to_vec()), (b"-3".to_vec(), b"4.25".to_vec())];
    assert_eq!(
        write_lane(12, &coordinates),
        b"12 cluster\tpoint num: 2\n1.5 2\t-3 4.25\t\n\n".to_vec()
    );
}

#[test]
fn a_lane_without_points_is_written_with_an_empty_line_of_points() {
    assert_eq!(write_lane(0, &Vec::new()), b"0 cluster\tpoint num: 0\n\n\n".to_vec());
}

#[test]
fn reports_of_one_vessel_in_a_row_make_one_trajectory() {
    let vessels: Vec<Vec<u8>> = ["a", "a", "b", "a", "a", "a", "c", "c"]
        .iter()
        .map(|vessel| vessel.as_bytes().to_vec())
        .collect();
    assert_eq!(gather_reports(&vessels), vec![0, 0, 1, 2, 2, 2, 3, 3]);
    assert_eq!(gather_reports(&Vec::new()), Vec::<usize>::new());
    assert_eq!(gather_reports(&vec![Vec::new()]), vec![0]);
    assert_eq!(gather_reports(&vec![b"ab".to_vec(), b"abc".to_vec(), b"ab".to_vec()]), vec![0, 1, 2]);
}

#[test]
fn texts_are_compared_byte_by_byte() {
    assert!(same_bytes(b"", b""));
    assert!(same_bytes(b"413", b"413"));
    assert!(!same_bytes(b"413", b"412"));
    assert!(!same_bytes(b"413", b"4130"));
    assert!(!same_bytes(b"", b"0"));
}
