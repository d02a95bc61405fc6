use genetic_algorithm_rust::input::{read_line, Line};

fn coordinates(line: &str) -> Option<(String, String)> {
    match read_line(line.as_bytes()) {
        Line::Coordinates { first, second } => {
            Some((String::from_utf8(first).unwrap(), String::from_utf8(second).unwrap()))
        }
        _ => None,
    }
}

fn pair(first: &str, second: &str) -> Option<(String, String)> {
    Some((first.to_string(), second.to_string()))
}

#[test]
fn single_dash_ends_a_group() {
    assert!(matches!(read_line(b"-"), Line::Separator));
}

#[test]
fn other_dashes_end_nothing() {
    assert!(matches!(read_line(b"--"), Line::Other));
    assert!(matches!(read_line(b" -"), Line::Other));
    assert!(matches!(read_line(b"- "), Line::Other));
}

#[test]
fn two_fields_are_the_coordinates() {
    assert_eq!(coordinates("-5.79;-35.2"), pair("-5.79", "-35.2"));
}

#[test]
fn comma_stands_for_the_decimal_point() {
    assert_eq!(coordinates("-5,79448;-35,211"), pair("-5.79448", "-35.211"));
    assert_eq!(coordinates("1,2,3;4,,5"), pair("1.2.3", "4..5"));
}

#[test]
fn fields_are_taken_as_they_stand() {
    assert_eq!(coordinates(" 1.5 ;abc"), pair(" 1.5 ", "abc"));
    assert_eq!(coordinates(";"), pair("", ""));
    assert_eq!(coordinates("7;"), pair("7", ""));
    assert_eq!(coordinates(";7"), pair("", "7"));
    assert_eq!(coordinates("-;-"), pair("-", "-"));
}

#[test]
fn line_without_semicolon_says_nothing() {
    assert!(matches!(read_line(b""), Line::Other));
    assert!(matches!(read_line(b"12.5"), Line::Other));
    assert!(matches!(read_line(b"12,5 13,5"), Line::Other));
}

#[test]
fn line_with_several_semicolons_says_nothing() {
    assert!(matches!(read_line(b"1;2;3"), Line::Other));
    assert!(matches!(read_line(b";;"), Line::Other));
    assert!(matches!(read_line(b"1;2;"), Line::Other));
}

#[test]
fn bytes_beyond_ascii_pass_through() {
    let line = "1\u{e9};2\u{2003}";
    assert_eq!(coordinates(line), pair("1\u{e9}", "2\u{2003}"));
}
