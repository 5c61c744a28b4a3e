use kantig::mapper::{mapper_request, parse_mapper_response};
use kantig::{Color, LowPolyError, Point};

fn c(r: u8, g: u8, b: u8) -> Color {
    Color { r, g, b }
}

#[test]
fn request_has_the_documented_three_lines() {
    let req = mapper_request(
        c(1, 2, 3),
        Point { x: 0, y: 0 },
        Point { x: 4, y: 0 },
        Point { x: 0, y: 4 },
        4,
        4,
    );
    assert_eq!(req, b"1 2 3\n0 0 4 0 0 4\n4 4".to_vec());
}

#[test]
fn request_prints_full_decimal_numbers() {
    let req = mapper_request(
        c(255, 0, 17),
        Point { x: 123, y: 4567 },
        Point { x: 89, y: 0 },
        Point { x: 1000000, y: 1 },
        1920,
        1080,
    );
    assert_eq!(req, b"255 0 17\n123 4567 89 0 1000000 1\n1920 1080".to_vec());
}

#[test]
fn malformed_output_is_a_mapper_error() {
    // "abc" instead of three bytes
    let r = parse_mapper_response(&b"abc".to_vec());
    assert_eq!(r, Err(LowPolyError::MapperError));
}

#[test]
fn three_byte_values_parse() {
    assert_eq!(parse_mapper_response(&b"10 20 30".to_vec()), Ok(c(10, 20, 30)));
    assert_eq!(parse_mapper_response(&b"0 0 0".to_vec()), Ok(c(0, 0, 0)));
    assert_eq!(parse_mapper_response(&b"255 255 255".to_vec()), Ok(c(255, 255, 255)));
}

#[test]
fn only_the_first_line_counts() {
    assert_eq!(
        parse_mapper_response(&b"7 8 9\nanything at all\nmore".to_vec()),
        Ok(c(7, 8, 9))
    );
    assert_eq!(
        parse_mapper_response(&b"7 8\n9 10 11".to_vec()),
        Err(LowPolyError::MapperError)
    );
}

#[test]
fn surrounding_whitespace_is_ignored() {
    assert_eq!(parse_mapper_response(&b" 1\t2  3 \r\nrest".to_vec()), Ok(c(1, 2, 3)));
}

#[test]
fn token_count_must_be_exactly_three() {
    assert_eq!(parse_mapper_response(&b"1 2".to_vec()), Err(LowPolyError::MapperError));
    assert_eq!(
        parse_mapper_response(&b"1 2 3 4".to_vec()),
        Err(LowPolyError::MapperError)
    );
    assert_eq!(parse_mapper_response(&b"".to_vec()), Err(LowPolyError::MapperError));
    assert_eq!(parse_mapper_response(&b"   \t ".to_vec()), Err(LowPolyError::MapperError));
}

#[test]
fn values_parse_as_std_parses_bytes() {
    // a leading plus and leading zeros are accepted, as std's u8 parsing has it
    assert_eq!("+7".parse::<u8>(), Ok(7));
    assert_eq!("008".parse::<u8>(), Ok(8));
    assert_eq!(parse_mapper_response(&b"+7 008 0".to_vec()), Ok(c(7, 8, 0)));
    // out-of-range and signed values are rejected, as std rejects them
    assert!("256".parse::<u8>().is_err());
    assert!("-1".parse::<u8>().is_err());
    assert!("+".parse::<u8>().is_err());
    assert_eq!(parse_mapper_response(&b"256 0 0".to_vec()), Err(LowPolyError::MapperError));
    assert_eq!(parse_mapper_response(&b"-1 0 0".to_vec()), Err(LowPolyError::MapperError));
    assert_eq!(parse_mapper_response(&b"+ 0 0".to_vec()), Err(LowPolyError::MapperError));
    assert_eq!(
        parse_mapper_response(&b"999999999999999999 0 0".to_vec()),
        Err(LowPolyError::MapperError)
    );
}
