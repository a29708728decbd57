use brb_node_qp2p::actor::ActorId;
use brb_node_qp2p::text::{chars_of, has_prefix, parse_decimal_u64, same_chars, string_chars};

fn actor(first: [u8; 3], fill: u8) -> ActorId {
    let mut key = [fill; 32];
    key[0] = first[0];
    key[1] = first[1];
    key[2] = first[2];
    ActorId { key }
}

#[test]
fn parse_plain_decimal() {
    assert_eq!(parse_decimal_u64("42"), Some(42));
    assert_eq!(parse_decimal_u64("0"), Some(0));
    assert_eq!(parse_decimal_u64("007"), Some(7));
}

#[test]
fn parse_accepts_one_plus_sign() {
    assert_eq!(parse_decimal_u64("+7"), Some(7));
    assert_eq!(parse_decimal_u64("++7"), None);
    assert_eq!(parse_decimal_u64("+"), None);
}

#[test]
fn parse_refuses_empty_negative_and_letters() {
    assert_eq!(parse_decimal_u64(""), None);
    assert_eq!(parse_decimal_u64("-1"), None);
    assert_eq!(parse_decimal_u64("-"), None);
    assert_eq!(parse_decimal_u64("1a"), None);
    assert_eq!(parse_decimal_u64(" 1"), None);
    assert_eq!(parse_decimal_u64("٣"), None);
}

#[test]
fn parse_limits_of_u64() {
    assert_eq!(parse_decimal_u64("18446744073709551615"), Some(u64::MAX));
    assert_eq!(parse_decimal_u64("18446744073709551616"), None);
    assert_eq!(parse_decimal_u64("99999999999999999999x"), None);
}

#[test]
fn parse_agrees_with_std_on_samples() {
    for s in ["", "+", "-", "1", "+1", "-1", "12x", "0000", "184467440737095516150", "+18446744073709551615"] {
        assert_eq!(parse_decimal_u64(s), s.parse::<u64>().ok(), "input {:?}", s);
    }
}

#[test]
fn prefixes_and_equal_text() {
    let s = chars_of("i:877dca");
    assert!(has_prefix(&s, &chars_of("i:87")));
    assert!(has_prefix(&s, &chars_of("")));
    assert!(has_prefix(&s, &chars_of("i:877dca")));
    assert!(!has_prefix(&s, &chars_of("i:877dcab")));
    assert!(!has_prefix(&s, &chars_of("i:88")));
    assert!(same_chars(&chars_of("me"), &chars_of("me")));
    assert!(!same_chars(&chars_of("me"), &chars_of("m")));
    assert_eq!(string_chars(&"héllo".to_string()), vec!['h', 'é', 'l', 'l', 'o']);
}

#[test]
fn label_is_hex_of_first_three_bytes() {
    assert_eq!(actor([0x87, 0x7d, 0xca], 9).label(), "i:877dca");
    assert_eq!(actor([0x00, 0x0f, 0xff], 1).label(), "i:000fff");
    assert_eq!(actor([0x34, 0x97, 0xd6], 0).label(), "i:3497d6");
}

#[test]
fn actors_compare_by_key_bytes() {
    let a = actor([1, 2, 3], 0);
    let b = actor([1, 2, 4], 0);
    let mut c = actor([1, 2, 3], 0);
    c.key[31] = 1;
    assert!(a.precedes(&b));
    assert!(!b.precedes(&a));
    assert!(a.precedes(&c));
    assert!(!a.precedes(&a));
    assert!(a.same(&a));
    assert!(!a.same(&c));
    assert!(a == actor([1, 2, 3], 0));
    assert!(a != b);
}
