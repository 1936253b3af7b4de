use aria_shell::config::{Config, RawSection};
use aria_shell::locale::Locale;
use aria_shell::locker::{
    default_service, service_for, Action, Locker, LockerConfig, Message, CONCEAL_ICON, PEEK_ICON,
};

#[test]
fn config_defaults_and_keys() {
    let cfg: LockerConfig = Config::parse("").section(None);
    assert!(cfg.password_prompt && cfg.show_avatar && cfg.show_time);
    assert_eq!(cfg.time_format, "%H:%M");
    assert_eq!(cfg.date_format, "%A %d %B");
    assert!(cfg.pam_service == "aria-shell" || cfg.pam_service == "login");
    let cfg: LockerConfig = Config::parse(
        "[locker]\npassword_prompt = no\nshow_avatar = no\ntime_format = %H:%M:%S\npam_service = swaylock\n",
    )
    .section(None);
    assert!(!cfg.password_prompt && !cfg.show_avatar && cfg.show_username);
    assert_eq!(cfg.time_format, "%H:%M:%S");
    assert_eq!(cfg.pam_service, "swaylock");
}

#[test]
fn pam_service_fallback() {
    assert_eq!(service_for(true), "aria-shell");
    assert_eq!(service_for(false), "login");
    let d = default_service();
    assert!(d == "aria-shell" || d == "login");
    let raw = RawSection::from_pairs(vec![("pam_service".into(), String::new())]);
    assert_eq!(LockerConfig::from_section(&raw, "login").pam_service, "login", "empty: the fallback");
}

fn locker(prompt: bool) -> Locker {
    let raw = RawSection::from_pairs(vec![(
        "password_prompt".into(),
        if prompt { "yes".into() } else { "no".into() },
    )]);
    Locker::new(LockerConfig::from_section(&raw, "login"), "me".into(), "Ada Lovelace,Room 1,,")
}

#[test]
fn display_name_from_gecos() {
    assert_eq!(locker(true).display_name(), "Ada Lovelace");
    let raw = RawSection::new();
    let l = Locker::new(LockerConfig::from_section(&raw, "login"), "me".into(), " ,x");
    assert_eq!(l.display_name(), "me", "no name in the gecos: the login");
    assert!(!l.locked());
}

#[test]
fn submit_checks_once_and_refusals_start_over() {
    let mut l = locker(true);
    assert!(matches!(l.update(Message::Password("secret".into())), Action::Nothing));
    assert_eq!(l.password(), "secret");
    match l.update(Message::Submit) {
        Action::Authenticate { service, user, password } => {
            assert_eq!((service.as_str(), user.as_str(), password.as_str()), ("login", "me", "secret"));
        }
        other => panic!("unexpected {other:?}"),
    }
    assert!(l.busy());
    assert_eq!(l.password(), "", "the field is cleared");
    assert!(matches!(l.update(Message::Submit), Action::Nothing), "one check at a time");
    assert!(matches!(l.update(Message::Password("x".into())), Action::Nothing));
    assert_eq!(l.password(), "", "typing is ignored while busy");
    let locale = Locale::new("en", "");
    assert_eq!(l.message(&locale).as_deref(), Some("Unlocking…"));
    assert!(matches!(l.update(Message::AuthDone(Err("Authentication failure".into()))), Action::Focus));
    assert!(l.failed());
    assert_eq!(l.message(&locale).as_deref(), Some("Authentication failed"));
    l.update(Message::AuthDone(Err("The account is locked".into())));
    assert_eq!(l.message(&locale).as_deref(), Some("The account is locked"));
    l.update(Message::Password("again".into()));
    assert!(!l.failed() && !l.busy());
    assert_eq!(l.message(&locale), None);
    l.update(Message::Submit);
    assert!(matches!(l.update(Message::AuthDone(Ok(()))), Action::Unlock));
}

#[test]
fn without_a_prompt_submit_unlocks() {
    let mut l = locker(false);
    assert!(matches!(l.update(Message::Submit), Action::Unlock));
    assert!(!l.busy());
    assert!(!l.peek());
    assert!(matches!(l.update(Message::TogglePeek), Action::Focus));
    assert!(l.peek());
    assert_eq!(l.icon_names(false), ["avatar-default"]);
    assert!(l.icon_names(true).is_empty());
    assert_eq!(locker(true).icon_names(true), [PEEK_ICON, CONCEAL_ICON]);
    l.set_locked(true);
    assert!(l.locked());
}
