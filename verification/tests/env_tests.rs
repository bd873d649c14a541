use prezel::env::EnvVars;
use prezel::env::parse_env;
use prezel::env::trim;

#[test]
fn parse_env_single_equals() {
    let parsed = parse_env("FOO=bar");
    assert_eq!(parsed, Some(("FOO".to_owned(), "bar".to_owned())));
}

#[test]
fn parse_env_no_equals_is_rejected() {
    assert_eq!(parse_env("FOOBAR"), None);
}

#[test]
fn parse_env_two_equals_is_rejected() {
    assert_eq!(parse_env("A=B=C"), None);
}

#[test]
fn parse_env_empty_key_and_value() {
    assert_eq!(parse_env("=v"), Some(("".to_owned(), "v".to_owned())));
    assert_eq!(parse_env("k="), Some(("k".to_owned(), "".to_owned())));
}

#[test]
fn trim_strips_both_ends() {
    assert_eq!(trim("  a b \t"), "a b".to_owned());
    assert_eq!(trim(""), "".to_owned());
    assert_eq!(trim(" \t "), "".to_owned());
}

#[test]
fn parse_bundle_ignores_blank_and_bad_lines() {
    let env = EnvVars::parse("FOO=bar\n\nBAZ=qux\nnoequals\n  PAD=space  ");
    assert_eq!(env.get("FOO"), Some("bar".to_owned()));
    assert_eq!(env.get("BAZ"), Some("qux".to_owned()));
    assert_eq!(env.get("noequals"), None);
    assert_eq!(env.get("PAD"), Some("space".to_owned()));
    assert_eq!(env.len(), 3);
}

#[test]
fn parse_bundle_later_line_wins() {
    let env = EnvVars::parse("K=1\nK=2");
    assert_eq!(env.get("K"), Some("2".to_owned()));
    assert_eq!(env.len(), 1);
}

#[test]
fn new_builds_from_pairs() {
    let env = EnvVars::new(&[("A", "1"), ("B", "2"), ("A", "3")]);
    assert_eq!(env.get("A"), Some("3".to_owned()));
    assert_eq!(env.get("B"), Some("2".to_owned()));
    assert_eq!(env.len(), 2);
}

#[test]
fn empty_bundle_has_nothing() {
    let env = EnvVars::empty();
    assert_eq!(env.len(), 0);
    assert_eq!(env.get("A"), None);
}

#[test]
fn format_writes_key_value_lines() {
    let env = EnvVars::new(&[("A", "1")]);
    let lines = env.format();
    assert_eq!(lines, vec!["A=1".to_owned()]);
}

#[test]
fn round_trip_preserves_the_map() {
    let env = EnvVars::new(&[("FOO", "bar"), ("BAZ", "qux x"), ("N", "3")]);
    let text = env.format_joined();
    let back = EnvVars::parse(text.as_str());
    assert_eq!(back.len(), 3);
    assert_eq!(back.get("FOO"), Some("bar".to_owned()));
    assert_eq!(back.get("BAZ"), Some("qux x".to_owned()));
    assert_eq!(back.get("N"), Some("3".to_owned()));
}

#[test]
fn merge_prefers_the_overlay() {
    let a = EnvVars::new(&[("K", "1"), ("L", "2")]);
    let b = EnvVars::new(&[("K", "9"), ("M", "3")]);
    let merged = a.merge(&b);
    assert_eq!(merged.get("K"), Some("9".to_owned()));
    assert_eq!(merged.get("L"), Some("2".to_owned()));
    assert_eq!(merged.get("M"), Some("3".to_owned()));
    assert_eq!(merged.len(), 3);
}

#[test]
fn trim_strips_unicode_whitespace() {
    assert_eq!(trim("\u{a0}a\u{3000}"), "a".to_owned());
    let env = EnvVars::parse("\u{a0}K=V \u{2028}");
    assert_eq!(env.get("K"), Some("V".to_owned()));
    assert_eq!(env.len(), 1);
}
