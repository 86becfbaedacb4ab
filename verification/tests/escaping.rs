use outflux::decimal::{push_decimal, push_signed_decimal};
use outflux::escape::{escape, Grammar};
use outflux::join::join;
use outflux::float_text::check_float_text;
use outflux::{
    escape_comma_equals_space, escape_field_value, escape_measurement_name, FieldValue, FloatText,
};

fn float(value: f64) -> FieldValue {
    FieldValue::Float(FloatText::new(format!("{}", value)).unwrap())
}

#[test]
fn identifier_escapes_comma_equals_and_space() {
    assert_eq!(escape_comma_equals_space("a,b=c d"), "a\\,b\\=c\\ d");
    assert_eq!(escape_comma_equals_space(",= "), "\\,\\=\\ ");
    assert_eq!(escape_comma_equals_space("a\\b\"c"), "a\\b\"c");
}

#[test]
fn measurement_name_keeps_the_equals_sign() {
    assert_eq!(escape_measurement_name("a,b=c d"), "a\\,b=c\\ d");
    assert_eq!(escape(Grammar::MeasurementName, "cpu=0"), "cpu=0");
}

#[test]
fn string_field_escapes_backslash_and_quote() {
    assert_eq!(escape_field_value("a\\b"), "a\\\\b");
    assert_eq!(escape_field_value("say \"hi\""), "say \\\"hi\\\"");
    assert_eq!(escape_field_value("a,b=c d"), "a,b=c d");
}

#[test]
fn backslash_is_escaped_before_the_quote() {
    assert_eq!(escape_field_value("\\\""), "\\\\\\\"");
    assert_ne!(escape_field_value("\\\""), "\\\\\"");
    assert_eq!(
        FieldValue::String("\\\"".to_string()).to_string(),
        "\"\\\\\\\"\""
    );
}

#[test]
fn text_without_special_characters_is_unchanged() {
    assert_eq!(escape_comma_equals_space("plain_text-1.2"), "plain_text-1.2");
    assert_eq!(escape_field_value("plain text, a=b"), "plain text, a=b");
    assert_eq!(escape_measurement_name("cpu_load"), "cpu_load");
    assert_eq!(escape_comma_equals_space(""), "");
    assert_eq!(escape_field_value(""), "");
}

#[test]
fn escaping_an_escaped_text_escapes_again_only_where_a_rule_applies() {
    let once = escape_comma_equals_space("a b");
    assert_eq!(once, "a\\ b");
    assert_eq!(escape_comma_equals_space(&once), "a\\\\ b");
}

#[test]
fn non_ascii_text_passes_through() {
    assert_eq!(escape_comma_equals_space("🍭"), "🍭");
    assert_eq!(escape_comma_equals_space("é ü"), "é\\ ü");
    assert_eq!(escape_field_value("Launch 🚀"), "Launch 🚀");
    assert_eq!(escape_field_value("🚀\"🚀"), "🚀\\\"🚀");
    assert_eq!(escape_field_value("Launch 🚀").as_bytes(), "Launch 🚀".as_bytes());
}

#[test]
fn field_values_render_by_variant() {
    assert_eq!(float(1.5).to_string(), "1.5");
    assert_eq!(float(-0.25).to_string(), "-0.25");
    assert_eq!(float(1.0).to_string(), "1");
    assert_eq!(FieldValue::Integer(0).to_string(), "0i");
    assert_eq!(FieldValue::Integer(-42).to_string(), "-42i");
    assert_eq!(FieldValue::Integer(1234567890).to_string(), "1234567890i");
    assert_eq!(
        FieldValue::Integer(i64::MIN).to_string(),
        "-9223372036854775808i"
    );
    assert_eq!(
        FieldValue::Integer(i64::MAX).to_string(),
        "9223372036854775807i"
    );
    assert_eq!(FieldValue::UInteger(0).to_string(), "0u");
    assert_eq!(FieldValue::UInteger(100).to_string(), "100u");
    assert_eq!(
        FieldValue::UInteger(u64::MAX).to_string(),
        "18446744073709551615u"
    );
    assert_eq!(FieldValue::Boolean(true).to_string(), "t");
    assert_eq!(FieldValue::Boolean(false).to_string(), "f");
    assert_eq!(FieldValue::String("".to_string()).to_string(), "\"\"");
    assert_eq!(
        FieldValue::String("a b".to_string()).to_string(),
        "\"a b\""
    );
}

#[test]
fn decimal_digits_of_numbers() {
    let mut out = String::from("n=");
    push_decimal(&mut out, 0);
    assert_eq!(out, "n=0");
    let mut out = String::new();
    push_decimal(&mut out, 9);
    push_decimal(&mut out, 10);
    push_decimal(&mut out, 907);
    assert_eq!(out, "910907");
    let mut out = String::new();
    push_decimal(&mut out, u128::MAX);
    assert_eq!(out, "340282366920938463463374607431768211455");
    let mut out = String::new();
    push_signed_decimal(&mut out, -7);
    push_signed_decimal(&mut out, 7);
    assert_eq!(out, "-77");
}

#[test]
fn join_puts_a_separator_between_neighbours_only() {
    assert_eq!(join(&vec![], ','), "");
    assert_eq!(join(&vec!["a".to_string()], ','), "a");
    assert_eq!(
        join(&vec!["a".to_string(), "".to_string(), "c".to_string()], ','),
        "a,,c"
    );
}

#[test]
fn one_as_integer_unsigned_and_float_renders_three_ways() {
    let integer = FieldValue::Integer(1).to_string();
    let unsigned = FieldValue::UInteger(1).to_string();
    let number = float(1.0).to_string();
    assert_eq!(integer, "1i");
    assert_eq!(unsigned, "1u");
    assert_eq!(number, "1");
    assert_ne!(integer, unsigned);
    assert_ne!(integer, number);
    assert_ne!(unsigned, number);
}

#[test]
fn float_text_of_every_kind_of_number_is_taken() {
    for value in [
        0.0_f64,
        -0.0,
        1.0,
        -1.5,
        0.0000001,
        1e21,
        f64::MAX,
        f64::MIN,
        f64::MIN_POSITIVE,
        f64::EPSILON,
        f64::NAN,
        f64::INFINITY,
        f64::NEG_INFINITY,
    ] {
        let text = format!("{}", value);
        assert!(check_float_text(&text), "{}", text);
        assert_eq!(FloatText::new(text.clone()).unwrap().as_str(), text);
    }
    assert_eq!(float(f64::NAN).to_string(), "NaN");
    assert_eq!(float(f64::NEG_INFINITY).to_string(), "-inf");
}

#[test]
fn text_that_is_no_number_is_refused() {
    for text in [
        "", "-", ".", "1.", ".5", "-.5", "1.2.3", "1..2", "1i", "1u", "t", "f", "\"1\"", "1 2",
        "1,2", "a=1", "+1", "--1", "1-", "1e5", "nan", "Inf", "infinity", "-NaN", "1\n", "٣",
    ] {
        assert!(!check_float_text(text), "{}", text);
        assert!(FloatText::new(text.to_string()).is_none(), "{}", text);
    }
}
