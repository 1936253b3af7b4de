use aria_shell::process::{command, in_terminal, split_words};

#[test]
fn splits_like_a_shell() {
    assert_eq!(split_words("  a  b "), ["a", "b"]);
    assert_eq!(split_words("sh -c 'a | b \"c\"'"), ["sh", "-c", "a | b \"c\""]);
    assert_eq!(split_words(r#"x "a b" "q\"\\z" d\ e"#), ["x", "a b", "q\"\\z", "d e"]);
    assert_eq!(split_words(r#""a\nb""#), ["a\\nb"], "other escapes stay");
    assert_eq!(split_words("'' a"), ["", "a"], "an empty word");
    assert_eq!(split_words("'open"), ["open"], "unclosed quote runs to the end");
    assert!(split_words("   ").is_empty());
}

#[test]
fn terminal_argv_comes_first() {
    assert_eq!(
        in_terminal("kitty --single", vec!["btop".into()]),
        ["kitty", "--single", "-e", "btop"]
    );
}

#[test]
fn our_own_name_is_this_binary() {
    assert_eq!(command("", None), None);
    assert_eq!(command("ls -l", Some("/bin/me".into())).unwrap(), ["ls", "-l"]);
    assert_eq!(
        command("aria-shell ping", Some("/usr/local/bin/aria-shell".into())).unwrap(),
        ["/usr/local/bin/aria-shell", "ping"]
    );
    assert_eq!(command("aria-shell ping", None).unwrap(), ["aria-shell", "ping"]);
}

#[test]
fn a_trailing_backslash_in_double_quotes_stays() {
    assert_eq!(split_words("\"a\\"), ["a\\"]);
    assert_eq!(split_words("a\\"), ["a"]);
}

#[test]
fn terminal_wrapping() {
    assert_eq!(
        in_terminal("kitty --single", vec!["btop".into()]),
        ["kitty", "--single", "-e", "btop"]
    );
}
