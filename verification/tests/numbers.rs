use brightness_control::level::Level;
use brightness_control::text::{
    concat2, concat3, decimal_text, join, parse_signed, parse_unsigned, same_text,
};

fn level(value: f64) -> Level {
    Level { bits: value.to_bits() }
}

#[test]
fn levels_of_whole_percents_are_exact() {
    for percent in 0..=255u8 {
        assert_eq!(Level::from_percent(percent).bits, (percent as f64).to_bits());
        assert_eq!(Level::from_percent(percent).unsigned_percent(), percent);
        assert_eq!(Level::from_percent(percent).whole_percent(), percent as i16);
    }
}

#[test]
fn levels_are_rounded_towards_zero() {
    let values = [
        0.0, -0.0, 0.5, 0.999999, 1.0, 1.5, 10.25, 63.75, 99.99, 100.0, 127.5, 254.9, 255.0, 256.0, 300.0,
        32766.9, 32767.0, 32768.5, 1e300, -0.25, -1.0, -1.75, -100.5, -32768.0, -40000.0, -1e300,
        f64::INFINITY, f64::NEG_INFINITY, f64::NAN, f64::MIN_POSITIVE, 5e-324, 1e15, 9007199254740993.0,
    ];
    for value in values {
        assert_eq!(level(value).whole_percent(), value as i16, "{}", value);
        assert_eq!(level(value).unsigned_percent(), value as u8, "{}", value);
    }
}

#[test]
fn truncation_has_bounds() {
    assert_eq!(level(50.9).truncate(-10, 40), 40);
    assert_eq!(level(-50.9).truncate(-10, 40), -10);
    assert_eq!(level(7.9).truncate(-10, 40), 7);
}

#[test]
fn valid_levels_are_between_zero_and_a_hundred() {
    let values = [
        0.0, -0.0, 1e-300, 0.1, 50.0, 99.999, 100.0, 100.00000000000001, 101.0, -1e-300, -1.0,
        f64::NAN, f64::INFINITY, f64::NEG_INFINITY,
    ];
    for value in values {
        assert_eq!(level(value).is_valid(), (0.0..=100.0).contains(&value), "{}", value);
    }
}

#[test]
fn numbers_are_written_in_base_ten() {
    for number in [0, 7, 10, 99, 100, 6500, 12345678901234567890, u64::MAX] {
        assert_eq!(decimal_text(number), number.to_string());
    }
}

#[test]
fn written_numbers_are_read_back() {
    for number in [0, 9, 10, 255, 65535, u64::MAX] {
        assert_eq!(parse_unsigned(&decimal_text(number), u64::MAX), Some(number));
    }
}

#[test]
fn unsigned_numbers_are_read_as_std_does() {
    let texts = [
        "", "0", "7", "+7", "-7", "255", "256", "0255", "00000256", "+", "-", "++1", "1 ", " 1", "1.0", "x",
        "99999999999999999999999", "١",
    ];
    for text in texts {
        assert_eq!(parse_unsigned(text, 255).map(|n| n as u8), text.parse::<u8>().ok(), "{}", text);
        assert_eq!(
            parse_unsigned(text, u64::MAX),
            text.parse::<u64>().ok(),
            "{}",
            text
        );
    }
}

#[test]
fn signed_numbers_are_read_as_std_does() {
    let texts = [
        "", "0", "-0", "+0", "7", "+7", "-7", "127", "128", "-128", "-129", "+", "-", "+-1", "-+1", "--1", "1e1",
        "0x1", "-0100", "32767", "32768", "-32768", "-32769",
    ];
    for text in texts {
        assert_eq!(parse_signed(text, -128, 127).map(|n| n as i8), text.parse::<i8>().ok(), "{}", text);
        assert_eq!(parse_signed(text, -32768, 32767).map(|n| n as i16), text.parse::<i16>().ok(), "{}", text);
    }
}

#[test]
fn texts_are_put_together() {
    assert_eq!(concat2("ab", "c"), "abc");
    assert_eq!(concat3("a", "", "c"), "ac");
    let parts = |list: &[&str]| list.iter().map(|part| part.to_string()).collect::<Vec<_>>();
    assert_eq!(join(&parts(&[]), ", "), "");
    assert_eq!(join(&parts(&["a"]), ", "), "a");
    assert_eq!(join(&parts(&["a", "", "c"]), ", "), "a, , c");
    assert!(same_text("", ""));
    assert!(same_text("aä", "aä"));
    assert!(!same_text("a", "A"));
}
