use aria_shell::desktop::{
    exec_argv, exec_basename, launch_argv, parse, split_exec, DesktopDb, DesktopEntry, LaunchError,
};

fn entry(text: &str, id: &str) -> Option<DesktopEntry> {
    parse(text, id.to_owned(), format!("/x/{id}.desktop"))
}

#[test]
fn parses_the_keys_we_need() {
    let e = entry(
        "[Desktop Entry]\nType=Application\nName=Firefox\nName[it]=Volpe\n\
         Icon=firefox\nExec=/usr/lib/firefox/firefox %u\nStartupWMClass=Firefox\n\
         [Desktop Action new-window]\nName=New Window\nIcon=other\n",
        "firefox",
    )
    .unwrap();
    assert_eq!(e.name, "Firefox");
    assert_eq!(e.icon.as_deref(), Some("firefox"));
    assert_eq!(e.exec_name.as_deref(), Some("firefox"));
    assert_eq!(e.wm_class.as_deref(), Some("firefox"));
    assert_eq!(e.exec_line.as_deref(), Some("/usr/lib/firefox/firefox %u"));
    assert!(!e.no_display);
    assert!(!e.terminal);
    assert!(e.comment.is_none());
}

#[test]
fn exec_argv_expands_field_codes() {
    let e = entry(
        "[Desktop Entry]\nType=Application\nName=My App\nIcon=myicon\n\
         Exec=/opt/my\\ app/run \"a b\" %F --name=%c %i --k=%k 100%% %z\nTerminal=true\nPath=/tmp\nComment=Does things\n",
        "myapp",
    )
    .unwrap();
    assert!(e.terminal);
    assert_eq!(e.working_dir.as_deref(), Some("/tmp"));
    assert_eq!(e.comment.as_deref(), Some("Does things"));
    assert_eq!(
        exec_argv(e.exec_line.as_deref().unwrap(), &e),
        [
            "/opt/my\\",
            "app/run",
            "a b",
            "--name=My App",
            "--icon",
            "myicon",
            "--k=/x/myapp.desktop",
            "100%",
        ]
    );
}

#[test]
fn split_exec_quotes() {
    assert_eq!(split_exec("a  b"), ["a", "b"]);
    assert_eq!(split_exec("\"a b\" c"), ["a b", "c"]);
    assert_eq!(split_exec("\"a\\\"b\" \"\""), ["a\"b", ""]);
}

#[test]
fn skips_non_apps_and_hidden() {
    assert!(entry("[Desktop Entry]\nType=Link\nName=x\n", "x").is_none());
    assert!(entry("[Desktop Entry]\nType=Application\nHidden=true\n", "x").is_none());
    let e = entry("[Desktop Entry]\nType=Application\nNoDisplay=true\n", "x").unwrap();
    assert!(e.no_display);
    assert_eq!(e.name, "x", "name falls back to the id");
}

#[test]
fn exec_basenames() {
    assert_eq!(exec_basename("kitty").as_deref(), Some("kitty"));
    assert_eq!(exec_basename("/usr/bin/Code --foo %F").as_deref(), Some("code"));
    assert_eq!(exec_basename("env GDK_BACKEND=x11 app %u").as_deref(), Some("app"));
    assert_eq!(exec_basename(""), None);
}

#[test]
fn class_lookup_order() {
    let mut db = DesktopDb::default();
    let mk = |id: &str, extra: &str| {
        entry(&format!("[Desktop Entry]\nType=Application\nName={id}\n{extra}"), id).unwrap()
    };
    db.insert(mk("org.kde.dolphin", "Exec=dolphin"));
    db.insert(mk("code-oss", "Exec=/usr/bin/code-oss\nStartupWMClass=Code"));
    db.insert(mk("firefox", "Exec=firefox"));
    assert_eq!(db.for_class("Firefox").unwrap().id, "firefox");
    assert_eq!(db.for_class("code").unwrap().id, "code-oss");
    assert_eq!(db.for_class("dolphin").unwrap().id, "org.kde.dolphin");
    assert_eq!(db.for_class("org.kde.dolphin").unwrap().id, "org.kde.dolphin");
    assert!(db.for_class("nope").is_none());
    assert_eq!(db.for_class("CODE-OSS").unwrap().id, "code-oss");
    assert_eq!(db.len(), 3);
}

#[test]
fn first_file_with_an_id_wins() {
    let mut db = DesktopDb::new();
    let a = "[Desktop Entry]\nType=Application\nName=First\nExec=a\n";
    let b = "[Desktop Entry]\nType=Application\nName=Second\nExec=b\n";
    assert!(db.add_file("app".into(), a, "/one/app.desktop".into()));
    assert!(!db.add_file("app".into(), b, "/two/app.desktop".into()));
    assert!(!db.add_file("link".into(), "[Desktop Entry]\nType=Link\n", "/one/link.desktop".into()));
    assert_eq!(db.len(), 1);
    assert_eq!(db.entries()[0].name, "First");
    assert!(db.has_id("app") && !db.has_id("link"));
}

#[test]
fn exec_basename_edge_cases() {
    assert_eq!(exec_basename("env A=1 B=2"), None);
    assert_eq!(exec_basename("/usr/bin/.."), None);
    assert_eq!(exec_basename("/"), None);
    assert_eq!(exec_basename("./run/"), Some("run".into()));
    assert_eq!(exec_basename("   "), None);
}

#[test]
fn launch_argv_wraps_terminal_apps() {
    let e = entry("[Desktop Entry]\nType=Application\nName=Top\nExec=btop %f\nTerminal=true\n", "btop").unwrap();
    assert_eq!(launch_argv(&e, "kitty --single").unwrap(), ["kitty", "--single", "-e", "btop"]);
    let none = entry("[Desktop Entry]\nType=Application\nName=N\n", "n").unwrap();
    assert_eq!(launch_argv(&none, "xterm").unwrap_err(), LaunchError::NoExec);
    let empty = entry("[Desktop Entry]\nType=Application\nName=E\nExec=%U\n", "e").unwrap();
    assert_eq!(launch_argv(&empty, "xterm").unwrap_err(), LaunchError::EmptyExec);
}

#[test]
fn groups_other_than_desktop_entry_are_ignored() {
    let e = entry(
        "# comment\nName=outside\n[Desktop Entry]\nType=Application\n[Other]\nName=nope\n[Desktop Entry]\nName=Back\n",
        "g",
    )
    .unwrap();
    assert_eq!(e.name, "Back");
}
