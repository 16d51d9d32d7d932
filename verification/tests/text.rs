use zluda::clock::{now, timestamp};
use zluda::lock::{primary_context_guard, LockOutcome};
use zluda::text::{
    contains, decimal_of, parse_u32, replace, same, same_in_lower_case, starts_with, trim,
};

#[test]
fn searching_and_replacing() {
    assert!(contains("gfx11-generic", "generic"));
    assert!(!contains("gfx1100", "generic"));
    assert!(contains("abc", ""));
    assert_eq!(replace("gfx1030", "gfx", ""), "1030");
    assert_eq!(replace("gfxgfx11", "gfx", ""), "11");
    assert_eq!(replace("aaaa", "aa", "b"), "bb");
    assert_eq!(replace("aaa", "aa", "b"), "ba");
    assert!(same("auto", "auto"));
    assert!(!same("auto", "aut"));
    assert!(same_in_lower_case("AuTo", "auto"));
    assert!(same_in_lower_case("z[@`{Z", "z[@`{z"));
    assert!(!same_in_lower_case("\u{c4}", "\u{e4}"));
    assert!(!same_in_lower_case("auto ", "auto"));
    assert!(starts_with("gfx1201", "gfx12"));
    assert!(!starts_with("gfx1", "gfx12"));
    assert!(!starts_with("xgfx12", "gfx12"));
}

#[test]
fn numbers_in_text() {
    assert_eq!(parse_u32("0"), Some(0));
    assert_eq!(parse_u32("+7"), Some(7));
    assert_eq!(parse_u32("0042"), Some(42));
    assert_eq!(parse_u32("4294967295"), Some(u32::MAX));
    assert_eq!(parse_u32("4294967296"), None);
    assert_eq!(parse_u32(""), None);
    assert_eq!(parse_u32("+"), None);
    assert_eq!(parse_u32("-1"), None);
    assert_eq!(parse_u32(" 1"), None);
    assert_eq!(parse_u32("1x"), None);
    for n in [0, 9, 10, 4096, u32::MAX] {
        assert_eq!(decimal_of(n), n.to_string());
        assert_eq!(parse_u32(&decimal_of(n)), Some(n));
    }
}

#[test]
fn trimming() {
    for text in [
        "", " ", "\t 256\n", "a b", "\u{a0}x\u{2003}", "\u{3000}", "x", "\u{200b}y", "\u{85}z\u{1680}",
    ] {
        assert_eq!(trim(text), text.trim());
    }
}

#[test]
fn poisoned_lock_is_recovered() {
    assert_eq!(primary_context_guard(LockOutcome::Acquired(1)), 1);
    assert_eq!(primary_context_guard(LockOutcome::Poisoned(2)), 2);
}

#[test]
fn stamps() {
    assert_eq!(timestamp(None), 0);
    assert_eq!(timestamp(Some(1_700_000_000_123)), 1_700_000_000_123);
    assert_eq!(timestamp(Some(1 << 64)), 0);
    let earlier = now();
    assert!(earlier > 1_600_000_000_000);
    assert!(now() - earlier < 60_000);
}
