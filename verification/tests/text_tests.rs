use pawse::text::{char_eq_ignore_ascii_case, decimal, eq_ignore_ascii_case, is_whitespace, str_eq, trim};

#[test]
fn ascii_case_insensitive() {
    assert!(eq_ignore_ascii_case("Discord.EXE", "discord.exe"));
    assert!(!eq_ignore_ascii_case("discord.exe", "discord.ex"));
    assert!(!eq_ignore_ascii_case("É", "é"));
    assert!(eq_ignore_ascii_case("", ""));
    assert!(char_eq_ignore_ascii_case('Z', 'z'));
    assert!(!char_eq_ignore_ascii_case('[', '{'));
    assert!(!char_eq_ignore_ascii_case('@', '`'));
}

#[test]
fn exact_equality() {
    assert!(str_eq("abc", "abc"));
    assert!(!str_eq("abc", "abC"));
    assert!(!str_eq("ab", "abc"));
}

#[test]
fn trimming() {
    assert_eq!(trim("  a b  "), "a b");
    assert_eq!(trim("\u{2003}x\u{3000}\n"), "x");
    assert_eq!(trim("   "), "");
    assert_eq!(trim("x"), "x");
    assert_eq!(trim("\u{200b}x"), "\u{200b}x");
    for c in ['\t', '\n', '\u{b}', '\u{c}', '\r', ' ', '\u{85}', '\u{a0}', '\u{1680}', '\u{2000}', '\u{200a}', '\u{2028}', '\u{2029}', '\u{202f}', '\u{205f}', '\u{3000}'] {
        assert!(is_whitespace(c));
        assert_eq!(is_whitespace(c), c.is_whitespace());
    }
    for c in ['a', '\u{200b}', '\u{feff}', '\u{180e}', '_'] {
        assert_eq!(is_whitespace(c), c.is_whitespace());
    }
}

#[test]
fn decimals() {
    assert_eq!(decimal(0), "0");
    assert_eq!(decimal(7), "7");
    assert_eq!(decimal(10), "10");
    assert_eq!(decimal(1234567890), "1234567890");
    assert_eq!(decimal(u64::MAX), u64::MAX.to_string());
}
