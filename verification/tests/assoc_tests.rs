use vors_tracker::assoc::parse_associations;
use vors_tracker::TrackError;

fn parse(text: &str) -> Result<Vec<vors_tracker::assoc::Association>, TrackError> {
    parse_associations(&text.as_bytes().to_vec())
}

#[test]
fn two_lines_keep_input_order() {
    let assocs = parse("1.0 a.png 1.1 b.png\n2.0 c.png 2.1 d.png\n").unwrap();
    assert_eq!(assocs.len(), 2);
    assert_eq!(assocs[0].depth_timestamp, b"1.0".to_vec());
    assert_eq!(assocs[0].depth_file_path, b"a.png".to_vec());
    assert_eq!(assocs[0].color_timestamp, b"1.1".to_vec());
    assert_eq!(assocs[0].color_file_path, b"b.png".to_vec());
    assert_eq!(assocs[1].depth_timestamp, b"2.0".to_vec());
    assert_eq!(assocs[1].depth_file_path, b"c.png".to_vec());
    assert_eq!(assocs[1].color_timestamp, b"2.1".to_vec());
    assert_eq!(assocs[1].color_file_path, b"d.png".to_vec());
}

#[test]
fn comments_and_blank_lines_are_skipped() {
    let text = "# depth and color pairs\n\n   \n1.0 a.png 1.1 b.png\n";
    let assocs = parse(text).unwrap();
    assert_eq!(assocs.len(), 1);
    assert_eq!(assocs[0].depth_file_path, b"a.png".to_vec());
}

#[test]
fn missing_final_newline_is_fine() {
    let assocs = parse("1.0 a.png 1.1 b.png").unwrap();
    assert_eq!(assocs.len(), 1);
}

#[test]
fn windows_line_endings_are_fine() {
    let assocs = parse("1.0 a.png 1.1 b.png\r\n2.0 c.png 2.1 d.png\r\n").unwrap();
    assert_eq!(assocs.len(), 2);
    assert_eq!(assocs[1].color_file_path, b"d.png".to_vec());
}

#[test]
fn three_fields_are_malformed() {
    let err = parse("1.0 a.png 1.1\n").unwrap_err();
    assert_eq!(err, TrackError::MalformedAssociationLine);
}

#[test]
fn five_fields_are_malformed() {
    let err = parse("1.0 a.png 1.1 b.png extra\n").unwrap_err();
    assert_eq!(err, TrackError::MalformedAssociationLine);
}

#[test]
fn non_numeric_timestamp_is_malformed() {
    let err = parse("x.0 a.png 1.1 b.png\n").unwrap_err();
    assert_eq!(err, TrackError::MalformedAssociationLine);
}

#[test]
fn one_bad_line_fails_the_whole_parse() {
    let err = parse("1.0 a.png 1.1 b.png\nbroken line\n").unwrap_err();
    assert_eq!(err, TrackError::MalformedAssociationLine);
}

#[test]
fn timestamp_shapes() {
    assert!(parse("1 a 2 b\n").is_ok());
    assert!(parse("-1.5 a +2 b\n").is_ok());
    assert!(parse("3. a .5 b\n").is_ok());
    assert!(parse("1305031102.175304 d.png 1305031102.175343 c.png\n").is_ok());
    assert!(parse(". a 1.0 b\n").is_err());
    assert!(parse("1.2.3 a 1.0 b\n").is_err());
    assert!(parse("- a 1.0 b\n").is_err());
}
