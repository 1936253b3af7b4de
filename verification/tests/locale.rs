use aria_shell::locale::{parse_locale, replace_all, Locale};

#[test]
fn environment_values() {
    assert_eq!(parse_locale("it_IT.UTF-8"), ("it".into(), Some("it_IT".into())));
    assert_eq!(parse_locale("de_DE@euro"), ("de".into(), Some("de_DE".into())));
    assert_eq!(parse_locale("C"), ("en".into(), None));
    assert_eq!(parse_locale("POSIX.UTF-8"), ("en".into(), None));
    assert_eq!(parse_locale(""), ("en".into(), None));
}

#[test]
fn texts_fall_back_to_english() {
    let it = Locale::new("it", "");
    assert_eq!(it.tr("locker.unlock"), "Sblocca");
    assert_eq!(it.fmt("notifications.age.minutes", &[("n", "5".to_owned())]), "5 min");
    assert_eq!(it.tr("sysmon.select_help"), "Select a process to signal it");
    let en = Locale::new("en", "");
    assert_eq!(en.tr("locker.unlock"), "Unlock");
    assert_eq!(Locale::new("xx", "").tr("locker.unlock"), "Unlock");
    assert_eq!(en.tr("no.such.key"), "no.such.key");
}

#[test]
fn the_environment_decides_when_the_config_does_not() {
    let l = Locale::new("", "it_IT.UTF-8");
    assert_eq!(l.lang(), "it");
    assert_eq!(l.date_regions(), ["it_IT", "it_IT"]);
    let l = Locale::new("", "fr_FR.UTF-8");
    assert_eq!(l.lang(), "en");
    assert_eq!(l.date_regions(), ["fr_FR", "en_US"]);
    assert_eq!(Locale::new("it", "de_DE").date_regions(), ["it_IT"]);
}

#[test]
fn placeholders_are_replaced_everywhere() {
    assert_eq!(replace_all("{a}+{a}={b}", "{a}", "1"), "1+1={b}");
    assert_eq!(replace_all("aaa", "aa", "b"), "ba");
    assert_eq!(replace_all("x", "", "y"), "x");
}

#[test]
fn lookup_and_fallback() {
    let it = Locale::new("it", "");
    assert_eq!(it.tr("locker.unlock"), "Sblocca");
    assert_eq!(it.fmt("notifications.age.minutes", &[("n", "5".to_string())]), "5 min");
    assert_eq!(it.date_regions(), vec!["it_IT".to_string()]);
    let en = Locale::new("en", "");
    assert_eq!(en.tr("locker.unlock"), "Unlock");
    // An unknown language is English.
    assert_eq!(Locale::new("xx", "").tr("locker.unlock"), "Unlock");
    assert_eq!(en.tr("no.such.key"), "no.such.key");
}
