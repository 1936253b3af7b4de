use aria_shell::config::RawSection;
use aria_shell::desktop::DesktopEntry;
use aria_shell::desktop::DesktopDb;
use aria_shell::exiter::ExiterConfig;
use aria_shell::launcher::{parse_usage, search, Action, Actions, Launcher, LauncherConfig, Message, Row, Usage};

fn entry(id: &str, name: &str, comment: Option<&str>, no_display: bool) -> DesktopEntry {
    DesktopEntry {
        id: id.into(),
        name: name.into(),
        comment: comment.map(str::to_owned),
        icon: None,
        exec_name: Some(id.into()),
        exec_line: Some(id.into()),
        terminal: false,
        working_dir: None,
        wm_class: None,
        no_display,
        path: format!("/x/{id}.desktop"),
    }
}

fn names<'a>(entries: &'a [DesktopEntry], query: &str) -> Vec<&'a str> {
    names_used(entries, query, &[])
}

fn names_used<'a>(entries: &'a [DesktopEntry], query: &str, used: &[(&str, u32)]) -> Vec<&'a str> {
    let text: String = used.iter().map(|(id, n)| format!("{id} {n}\n")).collect();
    let usage = Usage::load_from(None, Some(&text));
    search(entries, query, &usage).into_iter().map(|i| entries[i].name.as_str()).collect()
}

#[test]
fn ranks_exact_prefix_substring() {
    let all = [
        entry("org.gnome.terminal", "Terminal", Some("Use the command line"), false),
        entry("kitty", "kitty", Some("A fast terminal emulator"), false),
        entry("term", "Zeta", None, false),
        entry("firefox", "Firefox", Some("Browse the web"), false),
        entry("hidden", "Term hidden", None, true),
    ];
    assert_eq!(names(&all, "term"), ["Zeta", "Terminal", "kitty"]);
    assert_eq!(names(&all, "  FIRE "), ["Firefox"]);
    assert_eq!(names(&all, ""), ["Firefox", "kitty", "Terminal", "Zeta"]);
    assert!(names(&all, "nothing").is_empty());
}

#[test]
fn usage_breaks_ties_only() {
    let all = [
        entry("org.gnome.terminal", "Terminal", None, false),
        entry("termite", "Termite", None, false),
        entry("kitty", "kitty", Some("A fast terminal emulator"), false),
        entry("term", "Zeta", None, false),
    ];
    // Exact, prefix, prefix, substring: usage doesn't reorder classes.
    assert_eq!(names_used(&all, "term", &[("kitty", 99)]), ["Zeta", "Terminal", "Termite", "kitty"]);
    // Within one, the launched entry comes first.
    assert_eq!(names_used(&all, "term", &[("termite", 1)]), ["Zeta", "Termite", "Terminal", "kitty"]);
    assert_eq!(names_used(&all, "", &[("kitty", 2), ("term", 5)]), ["Zeta", "kitty", "Terminal", "Termite"]);
}

#[test]
fn usage_counts_and_file_text() {
    let mut usage = Usage::load_from(Some("/state/launcher-usage".into()), None);
    assert_eq!(usage.count("firefox"), 0);
    usage.bump("firefox");
    usage.bump("firefox");
    usage.bump("kitty");
    assert_eq!(usage.render(), "firefox 2\nkitty 1\n", "most launched first");
    let again = Usage::load_from(None, Some(&usage.render()));
    assert_eq!((again.count("firefox"), again.count("kitty")), (2, 1));
    // Junk lines are skipped, the rest read.
    let junk = Usage::load_from(None, Some("garbage\nfirefox x\n\n  kitty 4 \n"));
    assert_eq!((junk.count("firefox"), junk.count("kitty")), (0, 4));
    assert_eq!(Usage::load_from(None, None).count("kitty"), 0);
    assert_eq!(usage.path().map(String::as_str), Some("/state/launcher-usage"));
}

#[test]
fn later_usage_lines_win() {
    let u = parse_usage("a 1\nb 2\na 7\n");
    assert_eq!(u, [("a".to_owned(), 7), ("b".to_owned(), 2)]);
}

#[test]
fn launcher_section() {
    let c = LauncherConfig::from_section(&RawSection::default(), None, Some("foot"));
    assert_eq!(c.terminal, "foot");
    assert_eq!(c.actions, Actions::All);
    assert!(c.actions.shows("lock"));
    let raw = RawSection::from_pairs(vec![("actions".into(), "none".into())]);
    let c = LauncherConfig::from_section(&raw, Some(""), None);
    assert_eq!(c.terminal, "xterm");
    assert!(!c.actions.shows("lock"));
    let raw = RawSection::from_pairs(vec![("actions".into(), "lock reboot".into()), ("terminal".into(), "kitty".into())]);
    let c = LauncherConfig::from_section(&raw, Some("alacritty"), None);
    assert_eq!(c.terminal, "kitty");
    assert!(c.actions.shows("reboot") && !c.actions.shows("logout"));
    assert_eq!(LauncherConfig::from_section(&RawSection::default(), Some("wezterm"), Some("foot")).terminal, "wezterm");
}

#[test]
fn rows_know_their_result() {
    assert_eq!(Row::App(3).result(), 3);
    assert_eq!(Row::Action(2, 5).result(), 2);
}

/// A launcher over two entries, Zed with two actions and Ant without,
/// no usage and an empty query.
fn tree_launcher() -> Launcher {
    let mut db = DesktopDb::new();
    db.insert(entry("zed", "Zed", None, false));
    db.insert(entry("ant", "Ant", None, false));
    Launcher::new(
        LauncherConfig::from_section(&RawSection::new(), None, None),
        ExiterConfig::from_section(&RawSection::new()),
        Some(db),
        vec![2, 0],
        Usage::default(),
    )
}

#[test]
fn actions_open_and_close_as_child_rows() {
    let mut l = tree_launcher();
    assert_eq!(l.rows(), [Row::App(0), Row::App(1)], "Ant, Zed");
    assert_eq!(l.selected_row(), Some(Row::App(0)));
    // Right on an entry without actions: nothing.
    l.update(Message::Right);
    assert_eq!((l.rows(), l.selected()), ([Row::App(0), Row::App(1)].to_vec(), 0));
    // Right on Zed opens its actions and selects the first.
    l.update(Message::Down);
    l.update(Message::Right);
    assert_eq!(l.rows(), [Row::App(0), Row::App(1), Row::Action(1, 0), Row::Action(1, 1)]);
    assert_eq!(l.selected_row(), Some(Row::Action(1, 0)));
    assert_eq!(l.expanded(), Some(1));
    l.update(Message::Down);
    assert_eq!(l.selected_row(), Some(Row::Action(1, 1)));
    l.update(Message::Down);
    assert_eq!(l.selected_row(), Some(Row::Action(1, 1)), "last row stays");
    // Left from an action: back on Zed, closed.
    l.update(Message::Left);
    assert_eq!((l.rows(), l.selected_row()), ([Row::App(0), Row::App(1)].to_vec(), Some(Row::App(1))));
    // The chevron toggles; Left on the open entry closes it too.
    l.update(Message::Toggle(1));
    assert_eq!(l.selected_row(), Some(Row::Action(1, 0)));
    l.update(Message::Up);
    assert_eq!(l.selected_row(), Some(Row::App(1)));
    l.update(Message::Left);
    assert_eq!(l.rows().len(), 2);
    // Typing closes and selects the first row.
    l.update(Message::Toggle(1));
    l.update(Message::Query("z".into()));
    assert_eq!((l.rows(), l.selected()), ([Row::App(0)].to_vec(), 0));
    assert_eq!(l.expanded(), None);
}

#[test]
fn launching_and_what_the_launcher_asks_for() {
    let mut l = tree_launcher();
    assert_eq!(l.results(), &[1, 0], "entry indices: Ant, then Zed");
    assert_eq!(l.visible_ids(), vec!["ant".to_string(), "zed".to_string()]);
    assert_eq!(l.update(Message::Down), Action::Locate(1), "the row past the selection, at most the last");
    assert_eq!(l.update(Message::Up), Action::Locate(0));
    assert_eq!(l.update(Message::Submit), Action::Launch { entry: 1, action: None });
    assert_eq!(l.update(Message::Activate(Row::Action(1, 1))), Action::Launch { entry: 0, action: Some(1) });
    assert_eq!(l.update(Message::Activate(Row::Action(1, 2))), Action::Close, "no such action");
    assert_eq!(l.update(Message::Activate(Row::App(5))), Action::Close, "no such result");
    assert_eq!(l.update(Message::Query("nothing".into())), Action::ScrollTop);
    assert_eq!(l.update(Message::Submit), Action::Close);
    assert_eq!(l.update(Message::Down), Action::Nothing, "no rows");
    assert_eq!(l.update(Message::Exit("lock".into())), Action::Exit("lock".into()));
    assert_eq!(l.update(Message::Close), Action::Close);
    l.launched(0);
    l.launched(0);
    assert_eq!(l.usage().count("zed"), 2);
    assert_eq!(l.update(Message::Query(String::new())), Action::ScrollTop);
    assert_eq!(l.results(), &[0, 1], "launched more often first");
    let shown = l.actions();
    assert_eq!(shown.len(), l.exiter().buttons.len(), "all of them by default");
    assert!(!l.icon_names().is_empty());
}

#[test]
fn the_chevron_twice_closes() {
    let mut l = tree_launcher();
    l.update(Message::Toggle(1));
    assert_eq!(l.expanded(), Some(1));
    l.update(Message::Toggle(1));
    assert_eq!((l.expanded(), l.selected_row()), (None, Some(Row::App(1))));
    l.update(Message::Toggle(0));
    l.update(Message::Toggle(0));
    assert_eq!((l.expanded(), l.selected_row()), (None, Some(Row::App(0))), "no actions: stays closed");
}
