use backup_buddy::forms::{parse_policy_id, policy_href};
use backup_buddy::text::{parse_u64, push_decimal, str_eq, trim};

#[test]
fn parse_u64_accepts_plain_and_plus_signed_digits() {
    assert_eq!(parse_u64("42"), Some(42));
    assert_eq!(parse_u64("+7"), Some(7));
    assert_eq!(parse_u64("0"), Some(0));
    assert_eq!(parse_u64("007"), Some(7));
    assert_eq!(parse_u64("18446744073709551615"), Some(u64::MAX));
}

#[test]
fn parse_u64_refuses_what_from_str_refuses() {
    assert_eq!(parse_u64(""), None);
    assert_eq!(parse_u64("+"), None);
    assert_eq!(parse_u64("-1"), None);
    assert_eq!(parse_u64("-0"), None);
    assert_eq!(parse_u64(" 5"), None);
    assert_eq!(parse_u64("5 "), None);
    assert_eq!(parse_u64("1.5"), None);
    assert_eq!(parse_u64("18446744073709551616"), None);
    assert_eq!(parse_u64("99999999999999999999999"), None);
}

#[test]
fn parse_u64_agrees_with_std() {
    for s in ["12", "+12", "", "+", "-3", "a1", "1a", "٣", "18446744073709551615", "18446744073709551616"] {
        assert_eq!(parse_u64(s), s.parse::<u64>().ok(), "input {:?}", s);
    }
}

#[test]
fn decimal_rendering_reads_back() {
    for n in [0u64, 7, 10, 99, 1000, 123456789, u64::MAX] {
        let mut s = String::new();
        push_decimal(&mut s, n);
        assert_eq!(s, n.to_string());
        assert_eq!(parse_u64(&s), Some(n));
    }
    let mut s = String::from("x=");
    push_decimal(&mut s, 305);
    assert_eq!(s, "x=305");
}

#[test]
fn trim_matches_std_trim() {
    for s in ["  a b  ", "\t\n x\r\n", "", "   ", "\u{3000}y\u{a0}", "z", "\u{200b}q"] {
        assert_eq!(trim(s), s.trim(), "input {:?}", s);
    }
}

#[test]
fn str_eq_compares_characters() {
    assert!(str_eq("backup", "backup"));
    assert!(!str_eq("backup", "Backup"));
    assert!(!str_eq("back", "backup"));
    assert!(str_eq("", ""));
}

#[test]
fn policy_ids_are_read_in_every_uuid_form() {
    let id = 0x67e5504410b1426f9247bb680e5fe0c8u128;
    assert_eq!(parse_policy_id("67e55044-10b1-426f-9247-bb680e5fe0c8"), Some(id));
    assert_eq!(parse_policy_id("67E55044-10B1-426F-9247-BB680E5FE0C8"), Some(id));
    assert_eq!(parse_policy_id("67e5504410b1426f9247bb680e5fe0c8"), Some(id));
    assert_eq!(parse_policy_id("{67e55044-10b1-426f-9247-bb680e5fe0c8}"), Some(id));
    assert_eq!(parse_policy_id("URN:uuid:67e55044-10b1-426f-9247-bb680e5fe0c8"), Some(id));
}

#[test]
fn malformed_policy_ids_are_refused() {
    assert_eq!(parse_policy_id(""), None);
    assert_eq!(parse_policy_id("not-a-uuid"), None);
    assert_eq!(parse_policy_id("67e55044-10b1-426f-9247-bb680e5fe0c"), None);
    assert_eq!(parse_policy_id("67e55044_10b1-426f-9247-bb680e5fe0c8"), None);
    assert_eq!(parse_policy_id("g7e55044-10b1-426f-9247-bb680e5fe0c8"), None);
    assert_eq!(parse_policy_id("urn:uid:67e55044-10b1-426f-9247-bb680e5fe0c8"), None);
}

#[test]
fn policy_links_carry_the_hyphenated_id() {
    let id = 0x67e5504410b1426f9247bb680e5fe0c8u128;
    let href = policy_href(id);
    assert_eq!(href, "/backup-buddy/policy/67e55044-10b1-426f-9247-bb680e5fe0c8");
    assert_eq!(parse_policy_id(&href["/backup-buddy/policy/".len()..]), Some(id));
    assert_eq!(policy_href(0), "/backup-buddy/policy/00000000-0000-0000-0000-000000000000");
}

#[test]
fn policy_id_text_is_hyphenated_lower_case() {
    let id = 0xABCDEF0123456789ABCDEF0123456789u128;
    let t = backup_buddy::forms::policy_id_text(id);
    assert_eq!(t, "abcdef01-2345-6789-abcd-ef0123456789");
    assert_eq!(parse_policy_id(&t), Some(id));
}
