use auto_fuel_price::effective::parse_effective_datetime;
use auto_fuel_price::text::{blank, digit_text, parse_u32, push_decimal, same_text, split_words};

#[test]
fn parse_effective_datetime_extracts_thai_date_and_time() {
    let (date, time) = parse_effective_datetime("Are effective on 19 June 2026 from 05:00 AM");
    assert_eq!(date, "19 มิถุนายน 2026");
    assert_eq!(time, "05:00");
}

#[test]
fn parse_effective_datetime_returns_empty_on_garbage_input() {
    let (date, time) = parse_effective_datetime("not a valid remark");
    assert!(date.is_empty());
    assert!(time.is_empty());
}

#[test]
fn every_month_has_a_thai_name() {
    let months = [
        ("January", "มกราคม"),
        ("February", "กุมภาพันธ์"),
        ("March", "มีนาคม"),
        ("April", "เมษายน"),
        ("May", "พฤษภาคม"),
        ("June", "มิถุนายน"),
        ("July", "กรกฎาคม"),
        ("August", "สิงหาคม"),
        ("September", "กันยายน"),
        ("October", "ตุลาคม"),
        ("November", "พฤศจิกายน"),
        ("December", "ธันวาคม"),
    ];
    for (english, thai) in months {
        let remark = format!("Are effective on 1 {} 2027 from 06:30 AM", english);
        let (date, time) = parse_effective_datetime(&remark);
        assert_eq!(date, format!("1 {} 2027", thai));
        assert_eq!(time, "06:30");
    }
}

#[test]
fn only_the_places_of_the_words_count() {
    let (date, time) = parse_effective_datetime("\u{3000}a\tb  c +07 May\n0099 d 5pm e f g ");
    assert_eq!(date, "7 พฤษภาคม 99");
    assert_eq!(time, "5pm");
}

#[test]
fn a_remark_is_understood_whole_or_not_at_all() {
    for remark in [
        "",
        "Are effective on 19 June 2026 from 05:00",
        "Are effective on x9 June 2026 from 05:00 AM",
        "Are effective on 19 june 2026 from 05:00 AM",
        "Are effective on 19 June twenty from 05:00 AM",
        "Are effective on 19 June 4294967296 from 05:00 AM",
        "Are effective on -19 June 2026 from 05:00 AM",
        "Are effective on + June 2026 from 05:00 AM",
    ] {
        assert_eq!(parse_effective_datetime(remark), (String::new(), String::new()));
    }
    let (date, _) = parse_effective_datetime("Are effective on 19 June 4294967295 from 05:00 AM");
    assert_eq!(date, "19 มิถุนายน 4294967295");
}

#[test]
fn blanks_are_the_characters_with_the_white_space_property() {
    for code in 0..=0x10ffffu32 {
        if let Some(c) = char::from_u32(code) {
            assert_eq!(blank(c), c.is_whitespace(), "{:x}", code);
        }
    }
}

#[test]
fn words_are_split_at_blanks() {
    for s in ["", " ", "a", " a", "a ", "a b", "  ab \t c\n", "\u{a0}ก\u{2003}ข", "one two  three"] {
        let expected: Vec<&str> = s.split_whitespace().collect();
        assert_eq!(split_words(s), expected);
    }
}

#[test]
fn joined_words_are_found_again() {
    let parts = vec!["Are", "effective", "on", "19", "มิถุนายน", "!"];
    assert_eq!(split_words(&parts.join(" ")), parts);
}

#[test]
fn numbers_are_read_as_u32() {
    for s in [
        "", "+", "-", "0", "00", "7", "+7", "++7", "-7", "-0", "4294967295", "4294967296", "+4294967295",
        "99999999999999999999", "12a", "a12", " 12", "12 ", "1_000", "٣", "000000000000000012",
    ] {
        assert_eq!(parse_u32(s), s.parse::<u32>().ok(), "{:?}", s);
    }
}

#[test]
fn numerals_are_read_back() {
    for n in [0u32, 1, 9, 10, 99, 100, 2026, 4294967295] {
        let mut out = String::new();
        push_decimal(&mut out, n as u64);
        assert_eq!(out, n.to_string());
        assert_eq!(parse_u32(&out), Some(n));
    }
    let mut out = String::from("x");
    push_decimal(&mut out, u64::MAX);
    assert_eq!(out, "x18446744073709551615");
    assert_eq!(digit_text(4), "4");
}

#[test]
fn texts_are_compared_in_full() {
    assert!(same_text("June", "June"));
    assert!(!same_text("June", "June "));
    assert!(!same_text("June", "july"));
}
