//! Texts, numbers and documents.
use rift_counterpick::json::{num_field, parse_json, str_field, Json};
use rift_counterpick::number::Real;
use rift_counterpick::text::{
    contains, ends_with, is_same, join, parse_i64, parse_natural, same,
    same_ignoring_case, show_i64, show_natural, split, squash, to_lower, to_upper, trim, trim_char,
    trim_start_char,
};

fn bits(x: f64) -> Real {
    Real { bits: x.to_bits() }
}

#[test]
fn letters_and_ends() {
    assert_eq!(to_lower("AbÇ1"), "abÇ1");
    assert_eq!(to_upper("aBç1"), "ABç1");
    assert_eq!(squash("Kai'Sa 2"), "kaisa2");
    assert_eq!(trim("\u{3000}\t x y\u{85} "), "x y");
    assert_eq!(trim("  "), "");
    assert_eq!(trim_char("\"\"a\"b\"", '"'), "a\"b");
    assert_eq!(trim_start_char("vv1v", 'v'), "1v");
    assert!(same_ignoring_case("ChampSelect", "champselect"));
    assert!(!same_ignoring_case("Ç", "ç"));
    assert!(same("a", "a") && !same("a", "b"));
    assert!(is_same(&Some("a".into()), "a") && !is_same(&None, ""));
}

#[test]
fn pieces_and_the_whole() {
    for text in ["", ".", "a.b", "..a", "no dots"] {
        let parts = split(text, '.');
        assert_eq!(parts, text.split('.').collect::<Vec<_>>());
        assert_eq!(join(&parts, "."), text);
    }
    assert_eq!(join(&vec!["a".into(), "b".into()], " · "), "a · b");
    assert_eq!(rift_counterpick::text::concat("a", "b"), "ab");
    assert!(contains("abcabd", "abd") && contains("x", "") && !contains("ab", "abc"));
    assert!(ends_with("a.exe", ".exe") && !ends_with("exe", ".exe"));
}

#[test]
fn whole_numbers_in_texts() {
    assert_eq!(parse_natural("+12", 10, 99), Some(12));
    assert_eq!(parse_natural("100", 10, 99), None);
    assert_eq!(parse_natural("zZ", 36, u64::MAX), Some(35 * 36 + 35));
    assert_eq!(parse_natural("", 10, 99), None);
    assert_eq!(parse_natural("+", 10, 99), None);
    assert_eq!(parse_natural("-1", 10, 99), None);
    assert_eq!(parse_i64("-9223372036854775808"), Some(i64::MIN));
    assert_eq!(parse_i64("9223372036854775808"), None);
    assert_eq!(parse_i64(" 1"), None);
    for n in [0, 7, 10, -1, i64::MAX, i64::MIN] {
        assert_eq!(show_i64(n), n.to_string());
        assert_eq!(parse_i64(&show_i64(n)), Some(n));
    }
    assert_eq!(show_natural(u64::MAX), u64::MAX.to_string());
}

#[test]
fn values_are_ordered_and_cut_off() {
    let samples = [
        f64::NEG_INFINITY, -1e300, -2.5, -1.0, -5e-324, -0.0, 0.0, 5e-324, 0.4, 0.5, 1.0, 15.0,
        20.0, 80.0, 1e300, f64::INFINITY, f64::NAN,
    ];
    for a in samples {
        for b in samples {
            assert_eq!(bits(a).at_least(bits(b)), a >= b, "{a} >= {b}");
            assert_eq!(bits(a).above(bits(b)), a > b, "{a} > {b}");
            if !a.is_nan() && !b.is_nan() {
                assert_eq!(bits(a).order_key() > bits(b).order_key(), a > b);
            }
        }
        assert_eq!(bits(a).to_i64(), a as i64, "{a}");
        assert_eq!(bits(a).not_a_number(), a.is_nan());
    }
    for x in [1.9, -1.9, 8000.0, 9.3e18, -9.3e18, 0.999, 4503599627370497.5] {
        assert_eq!(bits(x).to_i64(), x as i64, "{x}");
    }
}

#[test]
fn documents_are_read() {
    let doc = parse_json(r#"{"a": [1, 2.5, "x", null, true], "b": {"c": -7}, "n": "1e2", "e": ""}"#)
        .expect("document");
    let items = doc.get("a").and_then(|a| a.as_array()).expect("array");
    assert_eq!(items[0].as_i64(), Some(1));
    assert_eq!(items[1].as_i64(), None);
    assert_eq!(items[1].as_rough_i64(), Some(2));
    assert_eq!(items[1].as_value(), Some(bits(2.5)));
    assert_eq!(items[2].as_text().map(String::as_str), Some("x"));
    assert!(items[3].is_null() && !items[4].is_null());
    assert!(matches!(items[4], Json::Bool(true)));
    assert_eq!(doc.get("b").and_then(|b| b.get("c")).and_then(|c| c.as_i64()), Some(-7));
    assert_eq!(doc.as_object().map(|o| o.len()), Some(4));
    assert_eq!(num_field(&doc, "n"), Some(bits(100.0)));
    assert_eq!(num_field(&doc, "e"), None);
    assert_eq!(num_field(&doc, "missing"), None);
    assert_eq!(str_field(&doc, "e"), None);
    assert_eq!(str_field(&doc, "n").as_deref(), Some("1e2"));
    let c = doc.get("b").expect("object");
    assert_eq!(str_field(c, "c").as_deref(), Some("-7"));
    assert_eq!(num_field(c, "c"), Some(bits(-7.0)));
    assert!(parse_json("{").is_none());
    assert!(parse_json("").is_none());
    let copy = doc.clone();
    assert_eq!(copy.get("a").and_then(|a| a.as_array()).map(|a| a.len()), Some(5));
}

#[test]
fn texts_that_spell_values() {
    let doc = parse_json(r#"{"x": "+.5", "y": "inf", "z": "nan", "w": "5.", "v": "0x1", "u": " 1"}"#)
        .expect("document");
    assert_eq!(num_field(&doc, "x"), Some(bits(0.5)));
    assert_eq!(num_field(&doc, "y"), Some(bits(f64::INFINITY)));
    assert!(num_field(&doc, "z").expect("parsed").not_a_number());
    assert_eq!(num_field(&doc, "w"), Some(bits(5.0)));
    assert_eq!(num_field(&doc, "v"), None);
    assert_eq!(num_field(&doc, "u"), None);
}
