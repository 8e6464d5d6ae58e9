use img2pb2::convert::{attach_attribute, material_settings, InsertOption};
use img2pb2::material::{material_name, parse_material, parse_u8, str_equal};
use img2pb2::text::{decimal_string, is_white_space_char, push_hex_byte, trim, xml_escape};

const NOT_A_MATERIAL: &str = "Background must be a material number or custom value starting with c.";
const OUT_OF_RANGE: &str = "Background material must be between 0 and 16.";

#[test]
fn parse_material_accepts_numbers_up_to_sixteen() {
    for n in 0..=16u8 {
        assert_eq!(parse_material(&n.to_string()), Ok(n.to_string()));
    }
}

#[test]
fn parse_material_canonicalises_numbers() {
    assert_eq!(parse_material("  +05 "), Ok("5".to_string()));
    assert_eq!(parse_material("007"), Ok("7".to_string()));
    assert_eq!(parse_material("\t3\n"), Ok("3".to_string()));
}

#[test]
fn parse_material_keeps_custom_values() {
    assert_eq!(parse_material("c12"), Ok("c12".to_string()));
    assert_eq!(parse_material("  cabc  "), Ok("cabc".to_string()));
}

#[test]
fn parse_material_rejects_other_values() {
    assert_eq!(parse_material("c"), Err(NOT_A_MATERIAL.to_string()));
    assert_eq!(parse_material(""), Err(NOT_A_MATERIAL.to_string()));
    assert_eq!(parse_material("-1"), Err(NOT_A_MATERIAL.to_string()));
    assert_eq!(parse_material("+"), Err(NOT_A_MATERIAL.to_string()));
    assert_eq!(parse_material("256"), Err(NOT_A_MATERIAL.to_string()));
    assert_eq!(parse_material("1 2"), Err(NOT_A_MATERIAL.to_string()));
    assert_eq!(parse_material("x5"), Err(NOT_A_MATERIAL.to_string()));
    assert_eq!(parse_material("17"), Err(OUT_OF_RANGE.to_string()));
    assert_eq!(parse_material("255"), Err(OUT_OF_RANGE.to_string()));
}

#[test]
fn parse_u8_agrees_with_std() {
    let samples = [
        "", "+", "-", "0", "+0", "-0", "255", "256", "00000000000255", "+255", "1a", " 1", "99999999999",
        "٣", "12",
    ];
    for s in samples {
        assert_eq!(parse_u8(s), s.parse::<u8>().ok(), "input {s:?}");
    }
}

#[test]
fn material_names() {
    assert_eq!(material_name("0"), "basic");
    assert_eq!(material_name(" 3 "), "white");
    assert_eq!(material_name("10"), "panel default");
    assert_eq!(material_name("16"), "pixel open door");
    assert_eq!(material_name("c"), "custom background");
    assert_eq!(material_name("c99"), "custom background");
    assert_eq!(material_name("17"), "invalid material");
    assert_eq!(material_name("03"), "invalid material");
    assert_eq!(material_name(""), "invalid material");
}

#[test]
fn every_parsed_material_has_a_name() {
    for v in ["0", "+16", " 9", "c1", "cx y", "012"] {
        let m = parse_material(v).unwrap();
        assert_ne!(material_name(&m), "invalid material");
        assert_eq!(parse_material(&m), Ok(m.clone()));
    }
}

#[test]
fn xml_escape_replaces_markup() {
    assert_eq!(xml_escape("a&b\"c<d>e"), "a&amp;b&quot;c&lt;d&gt;e");
    assert_eq!(xml_escape("plain 'text'"), "plain 'text'");
    assert_eq!(xml_escape("&amp;"), "&amp;amp;");
    assert_eq!(xml_escape(""), "");
    let escaped = xml_escape("<<\"x\">>");
    assert!(!escaped.contains('<') && !escaped.contains('>') && !escaped.contains('"'));
}

#[test]
fn trim_agrees_with_std() {
    let samples = [
        "", "   ", " a ", "\u{a0}x\u{3000}", "\u{2028}\t y z\n", "\u{200b}keep\u{200b}", "\u{85}q\u{202f}",
    ];
    for s in samples {
        assert_eq!(trim(s), s.trim(), "input {s:?}");
    }
    for c in ['\u{9}', '\u{d}', ' ', '\u{1680}', '\u{200a}', '\u{205f}', 'a', '\u{200b}', '\u{feff}'] {
        assert_eq!(is_white_space_char(c), c.is_whitespace(), "char {c:?}");
    }
}

#[test]
fn decimal_and_hex_rendering() {
    assert_eq!(decimal_string(0), "0");
    assert_eq!(decimal_string(80_000_000), "80000000");
    assert_eq!(decimal_string(u64::MAX), u64::MAX.to_string());
    let mut s = String::from("#");
    push_hex_byte(&mut s, 0x0a);
    push_hex_byte(&mut s, 0xff);
    push_hex_byte(&mut s, 0x7f);
    assert_eq!(s, "#0AFF7F");
}

#[test]
fn str_equal_compares_characters() {
    assert!(str_equal("abc", "abc"));
    assert!(!str_equal("abc", "abd"));
    assert!(!str_equal("ab", "abc"));
}

#[test]
fn attach_attribute_is_blank_or_escaped() {
    assert_eq!(attach_attribute(""), "");
    assert_eq!(attach_attribute("   "), "");
    assert_eq!(attach_attribute(" door<1> "), " a=\"door&lt;1&gt;\"");
}

#[test]
fn material_settings_escape_and_flag_material_three() {
    assert_eq!(material_settings("3"), Ok(("3".to_string(), true)));
    assert_eq!(material_settings("03"), Ok(("3".to_string(), true)));
    assert_eq!(material_settings("4"), Ok(("4".to_string(), false)));
    assert_eq!(material_settings("c<&>"), Ok(("c&lt;&amp;&gt;".to_string(), false)));
    assert_eq!(material_settings("c3"), Ok(("c3".to_string(), false)));
    assert_eq!(material_settings("42"), Err(OUT_OF_RANGE.to_string()));
}

#[test]
fn insert_option_labels() {
    assert_eq!(InsertOption::Basic.label(), "BASIC");
    assert_eq!(InsertOption::Vertical.label(), "VERTICAL");
    assert_eq!(InsertOption::Horizontal.label(), "HORIZONTAL");
    assert_eq!(InsertOption::TwoDimensional.label(), "TWO DIMENSIONAL");
    assert_eq!(InsertOption::MultilayerOneDimensional.label(), "MULTILAYER 1D");
    assert_eq!(InsertOption::MultilayerTwoDimensional.label(), "MULTILAYER 2D");
}

fn unescape(s: &str) -> String {
    s.replace("&quot;", "\"").replace("&lt;", "<").replace("&gt;", ">").replace("&amp;", "&")
}

#[test]
fn xml_escape_reads_back_and_keeps_plain_text() {
    for v in ["a&b\"c<d>e", "&amp;&lt;", "\"\"", "tom & jerry <3", ""] {
        let escaped = xml_escape(v);
        assert_eq!(unescape(&escaped), v);
        for (i, c) in escaped.char_indices() {
            if c == '&' {
                let rest = &escaped[i..];
                assert!(["&amp;", "&quot;", "&lt;", "&gt;"].iter().any(|e| rest.starts_with(e)));
            }
        }
    }
    assert_eq!(xml_escape("plain text 123 ü"), "plain text 123 ü");
}
