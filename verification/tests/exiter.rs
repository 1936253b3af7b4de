use aria_shell::config::Config;
use aria_shell::exiter::{Action, Command, Exiter, ExiterConfig, Label, Message, DEFAULT_BUTTONS};
use aria_shell::locale::Locale;

#[test]
fn defaults() {
    let cfg: ExiterConfig = Config::parse("").section(None);
    assert_eq!(cfg.columns, 3);
    assert!(cfg.ask_confirm);
    assert_eq!(cfg.confirm_timeout, 30);
    let names: Vec<&str> = cfg.buttons.iter().map(|b| b.name.as_str()).collect();
    assert_eq!(names, DEFAULT_BUTTONS);
    let lock = cfg.button("lock").unwrap();
    assert_eq!(lock.command, Command::Program("aria-shell lock".into()));
    assert!(!lock.confirm);
    assert_eq!(lock.label, Label::Key("exiter.lock"));
    let logout = cfg.button("logout").unwrap();
    assert_eq!(logout.command, Command::Logout);
    assert!(logout.confirm);
    assert_eq!(
        cfg.button("suspend").unwrap().icons,
        ["system-suspend-symbolic", "weather-clear-night-symbolic"]
    );
}

#[test]
fn buttons_from_config() {
    let cfg: ExiterConfig = Config::parse(
        "[exiter]\ncolumns = 42\nbuttons = reboot firefox nothing lock\n\
         reboot = systemctl reboot\nfirefox = !firefox --new\nfirefox_icon = firefox\n\
         firefox_label = Browser\nlock = auto\n",
    )
    .section(None);
    assert_eq!(cfg.columns, 10);
    let names: Vec<&str> = cfg.buttons.iter().map(|b| b.name.as_str()).collect();
    assert_eq!(names, ["reboot", "firefox", "lock"], "nothing has no command");
    let reboot = cfg.button("reboot").unwrap();
    assert!(!reboot.confirm, "no ! in the config: no confirmation");
    let firefox = cfg.button("firefox").unwrap();
    assert!(firefox.confirm);
    assert_eq!(firefox.command, Command::Program("firefox --new".into()));
    assert_eq!(firefox.icons, ["firefox"]);
    assert_eq!(firefox.label, Label::Text("Browser".into()));
    assert_eq!(cfg.button("lock").unwrap().command, Command::Logout);
}

#[test]
fn confirm_flow() {
    let cfg: ExiterConfig = Config::parse("[exiter]\nconfirm_timeout = 2\n").section(None);
    let mut e = Exiter::new(cfg.clone());
    // lock runs at once.
    assert!(matches!(e.update(Message::Activate(0)), Action::Perform(Command::Program(_))));
    // reboot asks, Escape goes back, Enter confirms.
    let reboot = cfg.buttons.iter().position(|b| b.name == "reboot").unwrap();
    assert!(matches!(e.update(Message::Activate(reboot)), Action::Stay));
    assert!(e.confirm().is_some());
    assert!(matches!(e.update(Message::Escape), Action::Stay));
    assert!(e.confirm().is_none());
    e.update(Message::Activate(reboot));
    assert!(matches!(e.update(Message::Enter), Action::Perform(Command::Program(_))));
    // The countdown runs it by itself.
    e.update(Message::Activate(reboot));
    assert!(matches!(e.update(Message::Tick), Action::Stay));
    assert!(matches!(e.update(Message::Tick), Action::Perform(_)));
    // Escape on the grid closes; arrows wrap.
    let mut e = Exiter::new(cfg.clone());
    assert!(matches!(e.update(Message::Escape), Action::Close));
    e.update(Message::Left);
    assert_eq!(e.selected(), 5);
    e.update(Message::Down);
    assert_eq!(e.selected(), 2);
    // Straight on a confirmation.
    let e = Exiter::confirming(cfg.clone(), "shutdown").unwrap();
    assert_eq!(e.confirm().unwrap().left, Some(2));
    assert!(Exiter::confirming(cfg, "nope").is_none());
    // Without ask_confirm nothing asks.
    let cfg: ExiterConfig = Config::parse("[exiter]\nask_confirm = no\n").section(None);
    let mut e = Exiter::new(cfg);
    assert!(matches!(e.update(Message::Activate(reboot)), Action::Perform(_)));
}

#[test]
fn labels_and_icons() {
    let cfg: ExiterConfig = Config::parse("[exiter]\nbuttons = lock mine\nmine = true\n").section(None);
    let it = Locale::new("it", "");
    assert_eq!(cfg.buttons[0].label.text(&it), "Blocca");
    assert_eq!(cfg.buttons[1].label.text(&it), "mine");
    let e = Exiter::new(cfg);
    assert_eq!(e.icon_names(), ["system-lock-screen-symbolic"]);
}

#[test]
fn cancel_and_ok_without_timeout() {
    let cfg: ExiterConfig = Config::parse("[exiter]\nconfirm_timeout = 0\n").section(None);
    let mut e = Exiter::new(cfg);
    e.update(Message::Activate(5));
    assert_eq!(e.confirm().unwrap().left, None);
    assert!(matches!(e.update(Message::Tick), Action::Stay));
    assert!(matches!(e.update(Message::Right), Action::Stay));
    assert_eq!(e.selected(), 5, "no moving while a confirmation shows");
    assert!(matches!(e.update(Message::Accept), Action::Perform(Command::Program(p)) if p == "systemctl poweroff"));
    assert!(matches!(e.update(Message::Cancel), Action::Stay));
    assert!(matches!(e.update(Message::Accept), Action::Close));
    assert!(matches!(e.update(Message::Unfocused), Action::Close));
}

#[test]
fn confirmation_texts_and_grid() {
    let it = Locale::new("it", "");
    let cfg: ExiterConfig = Config::parse("[exiter]\nconfirm_timeout = 7\ncolumns = 4\n").section(None);
    let e = Exiter::confirming(cfg.clone(), "shutdown").unwrap();
    let (question, left, button) = e.confirm_texts(&it).unwrap();
    assert_eq!(question, "Spegni?");
    assert_eq!(left.as_deref(), Some("Automaticamente tra 7 s"));
    assert_eq!(cfg.buttons[button].name, "shutdown");
    assert!(Exiter::new(cfg.clone()).confirm_texts(&it).is_none(), "nothing pending");
    assert_eq!(Exiter::new(cfg).grid(), (4, 2), "six buttons in four columns");
    let cfg: ExiterConfig = Config::parse("[exiter]\nconfirm_timeout = 0\nbuttons = lock\n").section(None);
    let e = Exiter::confirming(cfg.clone(), "lock").unwrap();
    assert_eq!(e.confirm_texts(&it).unwrap().1, None, "no countdown without a timeout");
    assert_eq!(Exiter::new(cfg).grid(), (1, 1));
}
