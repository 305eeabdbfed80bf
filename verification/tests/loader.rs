//! Tests for the height-field text parser. Heights come back in
//! fixed-point micro-units: one whole unit is 1_000_000.

use lrle::loader::{parse_fdf_bytes, parse_fdf_content, parse_value, LoadError};

#[test]
fn test_parse_simple_fdf() {
    let content = "0 1 2\n3 4 5";
    let terrain = parse_fdf_content(content).unwrap();

    assert_eq!(terrain.width, 3);
    assert_eq!(terrain.height, 2);
    assert_eq!(terrain.points[0], vec![0, 1_000_000, 2_000_000]);
    assert_eq!(terrain.points[1], vec![3_000_000, 4_000_000, 5_000_000]);
    assert!(terrain.colors.is_none());
}

#[test]
fn test_parse_with_colors() {
    let content = "0,0xFF0000 1,0x00FF00\n2,0x0000FF 3,0xFFFFFF";
    let terrain = parse_fdf_content(content).unwrap();

    assert!(terrain.colors.is_some());
    let colors = terrain.colors.unwrap();
    assert_eq!(colors[0][0], 0xFF0000);
    assert_eq!(colors[0][1], 0x00FF00);
    assert_eq!(colors[1][0], 0x0000FF);
    assert_eq!(colors[1][1], 0xFFFFFF);
}

#[test]
fn test_parse_inconsistent_rows() {
    let content = "0 1 2\n3 4";
    let result = parse_fdf_content(content);

    assert!(matches!(result, Err(LoadError::InconsistentRow { .. })));
    if let Err(LoadError::InconsistentRow { row, actual, expected }) = result {
        assert_eq!(row, 2);
        assert_eq!(actual, 2);
        assert_eq!(expected, 3);
    }
}

#[test]
fn test_parse_empty_file() {
    let content = "";
    let result = parse_fdf_content(content);

    assert!(matches!(result, Err(LoadError::EmptyFile)));
}

#[test]
fn test_parse_negative_heights() {
    let content = "-5 0 5\n-10 0 10";
    let terrain = parse_fdf_content(content).unwrap();

    assert_eq!(terrain.points[0][0], -5_000_000);
    assert_eq!(terrain.points[1][0], -10_000_000);
}

#[test]
fn test_parse_with_blank_lines() {
    let content = "0 1 2\n\n3 4 5\n";
    let terrain = parse_fdf_content(content).unwrap();

    assert_eq!(terrain.height, 2);
}

#[test]
fn test_parse_float_heights() {
    let content = "0.5 1.5 2.5";
    let terrain = parse_fdf_content(content).unwrap();

    assert_eq!(terrain.points[0], vec![500_000, 1_500_000, 2_500_000]);
}

#[test]
fn test_parse_bad_number_token() {
    let result = parse_fdf_content("0 abc 2");
    assert!(matches!(result, Err(LoadError::ParseError { .. })));
    if let Err(LoadError::ParseError { line, message, token }) = result {
        assert_eq!(line, 1);
        assert_eq!(message, "expected number");
        assert_eq!(token, b"abc".to_vec());
    }
}

#[test]
fn test_parse_bad_color_token() {
    let result = parse_fdf_content("1,0xGG0000");
    assert!(matches!(result, Err(LoadError::ParseError { .. })));
    if let Err(LoadError::ParseError { line, message, token }) = result {
        assert_eq!(line, 1);
        assert_eq!(message, "invalid color format");
        assert_eq!(token, b"1,0xGG0000".to_vec());
    }
}

#[test]
fn test_parse_error_reports_later_line() {
    let result = parse_fdf_content("0 1\n\n2 x");
    if let Err(LoadError::ParseError { line, .. }) = result {
        assert_eq!(line, 3);
    } else {
        panic!("expected a parse error");
    }
}

#[test]
fn test_parse_height_out_of_range() {
    let result = parse_fdf_content("2000000");
    assert!(matches!(result, Err(LoadError::ParseError { .. })));
    if let Err(LoadError::ParseError { line, message, .. }) = result {
        assert_eq!(line, 1);
        assert_eq!(message, "height out of range");
    }
}

#[test]
fn test_parse_value_with_color() {
    let r = parse_value(b"1.5,0xFF0000", 3).unwrap();
    assert_eq!(r.0, 1_500_000);
    assert_eq!(r.1, Some(0xFF0000));
}

#[test]
fn test_parse_value_bare_height() {
    let r = parse_value(b"-2.25", 1).unwrap();
    assert_eq!(r.0, -2_250_000);
    assert_eq!(r.1, None);
}

#[test]
fn test_parse_value_short_hex_color() {
    let r = parse_value(b"0,FF", 1).unwrap();
    assert_eq!(r.1, Some(0xFF));
}

#[test]
fn test_parse_fraction_precision() {
    let terrain = parse_fdf_content("0.000001 .5 7.").unwrap();
    assert_eq!(terrain.points[0], vec![1, 500_000, 7_000_000]);
}

#[test]
fn test_parse_crlf_lines() {
    let terrain = parse_fdf_bytes(b"0 1\r\n2 3\r\n").unwrap();
    assert_eq!(terrain.width, 2);
    assert_eq!(terrain.height, 2);
    assert_eq!(terrain.points[1], vec![2_000_000, 3_000_000]);
}
