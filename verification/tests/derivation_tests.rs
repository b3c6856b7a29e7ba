use html_table::Rgba;
use html_table::attrcache::{derive_border, derive_cellspacing};
use html_table::color::{derive_background_color, parse_legacy_color};
use html_table::strutil::parse_unsigned_integer;

#[test]
fn unsigned_integer_parsing() {
    assert_eq!(parse_unsigned_integer("5"), Some(5));
    assert_eq!(parse_unsigned_integer("  42abc"), Some(42));
    assert_eq!(parse_unsigned_integer("+7"), Some(7));
    assert_eq!(parse_unsigned_integer("-0"), Some(0));
    assert_eq!(parse_unsigned_integer("-3"), None);
    assert_eq!(parse_unsigned_integer(""), None);
    assert_eq!(parse_unsigned_integer("abc"), None);
    assert_eq!(parse_unsigned_integer("   "), None);
    assert_eq!(parse_unsigned_integer("4294967295"), Some(u32::MAX));
    assert_eq!(parse_unsigned_integer("4294967296"), None);
}

#[test]
fn border_absent_gives_none() {
    assert_eq!(derive_border(None), None);
}

#[test]
fn border_fallback_on_unparsable_values() {
    assert_eq!(derive_border(Some("abc")), Some(1));
    assert_eq!(derive_border(Some("")), Some(1));
    assert_eq!(derive_border(Some("-3")), Some(1));
    assert_eq!(derive_border(Some("4294967296")), Some(1));
}

#[test]
fn border_parses_leading_integer() {
    assert_eq!(derive_border(Some("5")), Some(5));
    assert_eq!(derive_border(Some("  12px")), Some(12));
    assert_eq!(derive_border(Some("+0")), Some(0));
}

#[test]
fn cellspacing_cases() {
    assert_eq!(derive_cellspacing(Some("5")), Some(5));
    assert_eq!(derive_cellspacing(Some("abc")), None);
    assert_eq!(derive_cellspacing(None), None);
    assert_eq!(derive_cellspacing(Some("  8 ")), Some(8));
}

#[test]
fn color_rejects_garbage_and_transparent() {
    assert_eq!(parse_legacy_color("notacolor"), None);
    assert_eq!(parse_legacy_color(""), None);
    assert_eq!(parse_legacy_color("transparent"), None);
    assert_eq!(parse_legacy_color("  TrAnSpArEnT  "), None);
    assert_eq!(parse_legacy_color("currentcolor"), None);
}

#[test]
fn color_keywords() {
    assert_eq!(parse_legacy_color("red"), Some(Rgba::new(255, 0, 0)));
    assert_eq!(parse_legacy_color("RED"), Some(Rgba::new(255, 0, 0)));
    assert_eq!(parse_legacy_color("lime"), Some(Rgba::new(0, 255, 0)));
    assert_eq!(parse_legacy_color(" cornflowerblue "), Some(Rgba::new(100, 149, 237)));
}

#[test]
fn color_short_hex() {
    assert_eq!(parse_legacy_color("#0f0"), Some(Rgba::new(0, 255, 0)));
    assert_eq!(parse_legacy_color("#18c"), Some(Rgba::new(17, 136, 204)));
}

#[test]
fn color_hex_round_trip() {
    assert_eq!(parse_legacy_color("#00ac00"), Some(Rgba::new(0, 172, 0)));
    assert_eq!(parse_legacy_color("00ac00"), Some(Rgba::new(0, 172, 0)));
    assert_eq!(parse_legacy_color("#ffffff"), Some(Rgba::new(255, 255, 255)));
    assert_eq!(parse_legacy_color("abc"), Some(Rgba::new(10, 11, 12)));
}

#[test]
fn color_absent_attribute() {
    assert_eq!(derive_background_color(None), None);
    assert_eq!(derive_background_color(Some("navy")), Some(Rgba::new(0, 0, 128)));
}
