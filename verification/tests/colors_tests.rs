use bear_flag::colors::parse_colors;
use bear_flag::error::FlagError;

fn error_message(input: &str) -> String {
    match parse_colors(input) {
        Err(FlagError::InvalidConfig(msg)) => msg,
        other => panic!("expected an invalid configuration, got {:?}", other),
    }
}

#[test]
fn test_parse_colors_simple() {
    let result = parse_colors("FF0000,00FF00,0000FF").unwrap();
    assert_eq!(result, vec![0xFF0000, 0x00FF00, 0x0000FF]);
}

#[test]
fn test_parse_colors_with_hash() {
    let result = parse_colors("#FF0000,#00FF00,#0000FF").unwrap();
    assert_eq!(result, vec![0xFF0000, 0x00FF00, 0x0000FF]);
}

#[test]
fn test_parse_colors_mixed_formats() {
    let result = parse_colors("FF0000,#00FF00,0x0000FF").unwrap();
    assert_eq!(result, vec![0xFF0000, 0x00FF00, 0x0000FF]);
}

#[test]
fn test_parse_colors_lowercase() {
    let result = parse_colors("ff0000,00ff00,0000ff").unwrap();
    assert_eq!(result, vec![0xFF0000, 0x00FF00, 0x0000FF]);
}

#[test]
fn test_parse_colors_invalid() {
    assert!(parse_colors("GGGGGG").is_err());
    assert!(parse_colors("").is_err());
    assert!(parse_colors("FF0000,INVALID").is_err());
}

#[test]
fn parse_colors_skips_blank_entries_and_trims() {
    assert_eq!(parse_colors(" ff0000 , ,\t0X00ff00,").unwrap(), vec![0xFF0000, 0x00FF00]);
    assert_eq!(parse_colors("\u{3000}abc\u{a0}").unwrap(), vec![0xABC]);
    assert_eq!(parse_colors("+FF,#+1").unwrap(), vec![0xFF, 0x1]);
    assert_eq!(parse_colors("000000000000ffffff").unwrap(), vec![0xFFFFFF]);
}

#[test]
fn parse_colors_error_messages() {
    assert_eq!(error_message("GGGGGG"), "Invalid hex color: 'GGGGGG'. Expected format: RRGGBB or #RRGGBB");
    assert_eq!(error_message("#12,0xZZ"), "Invalid hex color: 'ZZ'. Expected format: RRGGBB or #RRGGBB");
    assert_eq!(error_message("0x"), "Invalid hex color: ''. Expected format: RRGGBB or #RRGGBB");
    assert_eq!(error_message("+"), "Invalid hex color: '+'. Expected format: RRGGBB or #RRGGBB");
    assert_eq!(error_message("-1"), "Invalid hex color: '-1'. Expected format: RRGGBB or #RRGGBB");
    assert_eq!(error_message("100000000"), "Invalid hex color: '100000000'. Expected format: RRGGBB or #RRGGBB");
    assert_eq!(error_message("1000000"), "Color value too large: 0x1000000. Must be in range 0x000000-0xFFFFFF");
    assert_eq!(error_message("fffffffF"), "Color value too large: 0xFFFFFFFF. Must be in range 0x000000-0xFFFFFF");
    assert_eq!(error_message(""), "At least one color must be provided");
    assert_eq!(error_message(" , ,"), "At least one color must be provided");
    assert_eq!(error_message("1000000,GG"), "Color value too large: 0x1000000. Must be in range 0x000000-0xFFFFFF");
}

#[test]
fn upper_case_hex_parses_back() {
    for c in [0u32, 0x1, 0xABCDEF, 0xFFFFFF] {
        assert_eq!(parse_colors(&format!("{:X}", c)).unwrap(), vec![c]);
    }
}

#[test]
fn hash_color_lists_parse_back() {
    let v = vec![0x000000u32, 0x0A0B0C, 0xFFFFFF, 0xE40303];
    let s = v.iter().map(|c| format!("#{:06X}", c)).collect::<Vec<_>>().join(",");
    assert_eq!(s, "#000000,#0A0B0C,#FFFFFF,#E40303");
    assert_eq!(parse_colors(&s).unwrap(), v);
}
