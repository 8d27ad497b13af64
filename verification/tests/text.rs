use huayuan::clock::{day_key, today_key, unix_nonce, unix_now};
use huayuan::digest::{hash_password, issue_session_token, issue_session_token_with, to_hex};
use huayuan::order::{sorted_order, text_le_exec};
use huayuan::text::{blank, decimal_string, push_decimal, push_decimal_u128, text_eq, white_space};

#[test]
fn decimal_rendering() {
    assert_eq!(decimal_string(0), "0");
    assert_eq!(decimal_string(-45), "-45");
    assert_eq!(decimal_string(i64::MIN), "-9223372036854775808");
    let mut s = "n=".to_string();
    push_decimal(&mut s, 1200);
    assert_eq!(s, "n=1200");
    let mut t = String::new();
    push_decimal_u128(&mut t, u128::MAX);
    assert_eq!(t, u128::MAX.to_string());
}

#[test]
fn text_equality_and_blankness() {
    assert!(text_eq("庄园", "庄园"));
    assert!(!text_eq("庄园", "庄"));
    assert!(blank(""));
    assert!(blank(" \t\n\u{3000}\u{a0}"));
    assert!(!blank(" a "));
    assert!(white_space('\u{2028}'));
    assert!(!white_space('x'));
}

#[test]
fn byte_order_of_text() {
    assert!(text_le_exec("2048", "make10"));
    assert!(text_le_exec("make10", "match3"));
    assert!(!text_le_exec("match3", "make10"));
    assert!(text_le_exec("ab", "abc"));
    assert!(text_le_exec("same", "same"));
    let keys: Vec<String> = vec!["match3".into(), "2048".into(), "make10".into()];
    assert_eq!(sorted_order(&keys), vec![1, 2, 0]);
}

#[test]
fn hex_is_lowercase_two_digits_per_byte() {
    assert_eq!(to_hex(&[0x00, 0x0f, 0xa0, 0xff]), "000fa0ff");
    assert_eq!(to_hex(&[]), "");
}

#[test]
fn password_hash_is_salted_sha256() {
    assert_eq!(hash_password("admin123!"), "f0474b572c56bca8f5e56f27fae7d8106f58a27b428bfc04e3f3643fe65ed7d1");
    assert_eq!(hash_password(""), "46473b5409c0cb251569cce31c300adad132046d5c75c84b4ebfc2ac7d96b175");
}

#[test]
fn session_token_digests_account_and_nonce() {
    let hash = "f0474b572c56bca8f5e56f27fae7d8106f58a27b428bfc04e3f3643fe65ed7d1";
    assert_eq!(
        issue_session_token_with("admin", hash, 42),
        "791e1d44653b39f3aa7e263f8e587a8433e42f82819280cc0e4c172a869edbf2"
    );
    assert_eq!(issue_session_token("admin", hash).len(), 64);
}

#[test]
fn day_keys_count_whole_days() {
    assert_eq!(day_key(0), "day-0");
    assert_eq!(day_key(86_399), "day-0");
    assert_eq!(day_key(86_400 * 19_000 + 5), "day-19000");
    assert!(today_key().starts_with("day-"));
    assert!(unix_now() > 1_600_000_000);
    assert!(unix_nonce() > 1_600_000_000_000_000_000);
}
