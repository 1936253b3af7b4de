use std::time::Duration;

use aria_shell::config::{Config, RawSection, Section};
use aria_shell::notifications::{
    plain_text, Command, Delay, Event, IconSource, Notification, Notifications, NotificationsConfig,
    Position, Timeout, Urgency,
};

fn notification(id: u32, serial: u64) -> Notification {
    Notification {
        id,
        serial,
        app_name: "app".into(),
        summary: "s".into(),
        body: String::new(),
        icon: None,
        urgency: Urgency::Normal,
        actions: vec![("default".into(), "Open".into()), ("ok".into(), "OK".into())],
        timeout: Timeout::Never,
    }
}

fn as_duration(d: Option<Delay>) -> Option<Duration> {
    d.map(|d| match d {
        Delay::Secs(s) => Duration::from_secs(s),
        Delay::Millis(ms) => Duration::from_millis(ms),
    })
}

fn ids(n: &Notifications) -> Vec<u32> {
    n.items().iter().map(|i| i.id).collect()
}

#[test]
fn timeouts() {
    let n = Notifications::new(NotificationsConfig::from_raw(&RawSection::default()));
    let mut item = notification(1, 1);
    assert_eq!(as_duration(n.timeout(&item)), None);
    item.timeout = Timeout::parse(-1);
    assert_eq!(as_duration(n.timeout(&item)), Some(Duration::from_secs(20)));
    item.timeout = Timeout::parse(1500);
    assert_eq!(as_duration(n.timeout(&item)), Some(Duration::from_millis(1500)));
    item.timeout = Timeout::Default;
    item.urgency = Urgency::Critical;
    assert_eq!(as_duration(n.timeout(&item)), None);
    assert_eq!(Timeout::parse(0), Timeout::Never);
}

#[test]
fn config_defaults_and_position() {
    let cfg = NotificationsConfig::from_raw(&RawSection::default());
    assert!(cfg.enabled);
    assert_eq!(cfg.duration, 20);
    assert_eq!(cfg.position, Position::TopRight);
    assert_eq!(Position::parse("bottom-center"), Some(Position::BottomCenter));
    assert_eq!(Position::parse("middle"), None);
    assert!(!Position::BottomLeft.is_top());
}

#[test]
fn icon_sources() {
    assert_eq!(IconSource::parse(""), None);
    assert_eq!(
        IconSource::parse("file:///tmp/a.png"),
        Some(IconSource::Path("/tmp/a.png".into()))
    );
    assert_eq!(IconSource::parse("/tmp/a.png"), Some(IconSource::Path("/tmp/a.png".into())));
    assert_eq!(
        IconSource::parse("dialog-information"),
        Some(IconSource::Name("dialog-information".into()))
    );
}

#[test]
fn replace_and_expire_by_serial() {
    let mut n = Notifications::new(NotificationsConfig::from_raw(&RawSection::default()));
    let _ = n.apply(Event::Notify(notification(1, 1), 0));
    let _ = n.apply(Event::Notify(notification(2, 2), 0));
    assert_eq!(ids(&n), [2, 1]);
    // Replaced in place, keeps its position.
    let _ = n.apply(Event::Notify(notification(1, 3), 0));
    assert_eq!(ids(&n), [2, 1]);
    // The first one's timer must not close the replacement.
    let _ = n.apply(Event::Expired(1, 1));
    assert!(n.get(1).is_some());
    let _ = n.apply(Event::Expired(1, 3));
    assert!(n.get(1).is_none());
    let _ = n.apply(Event::Close(2));
    assert!(n.items().is_empty());
}

#[test]
fn history_dnd_and_seen() {
    let config: NotificationsConfig = Config::parse("[Notifications]\nhistory = 3\n").section(None);
    let mut n = Notifications::new(config);
    let _ = n.apply(Event::Notify(notification(1, 1), 0));
    let _ = n.apply(Event::Notify(notification(2, 2), 0));
    assert_eq!(n.unseen(), 2);
    assert_eq!(n.items().len(), 2);
    // Expiry and an app's close keep the entry.
    let _ = n.apply(Event::Expired(1, 1));
    let _ = n.apply(Event::Close(2));
    assert!(n.items().is_empty());
    assert_eq!(n.history().len(), 2);
    // Seen: the count drops, the entries stay.
    let _ = n.run(Command::MarkSeen);
    assert_eq!(n.unseen(), 0);
    // Quiet: no toast, but the critical one; replacing an entry
    // makes it new again.
    let _ = n.run(Command::ToggleDnd);
    assert!(n.dnd());
    let _ = n.apply(Event::Notify(notification(3, 3), 0));
    assert!(n.items().is_empty());
    assert_eq!(n.unseen(), 1);
    let mut critical = notification(4, 4);
    critical.urgency = Urgency::Critical;
    let _ = n.apply(Event::Notify(critical, 0));
    assert_eq!(n.items().len(), 1);
    // Capped at 3, newest first: 4, 3, 2.
    assert_eq!(
        n.history().iter().map(|e| e.notification.id).collect::<Vec<_>>(),
        [4, 3, 2]
    );
    let _ = n.apply(Event::Notify(notification(2, 5), 0));
    assert_eq!(n.unseen(), 3);
    // The user dealt with one: gone from both; dismiss all keeps
    // the history; clear empties it.
    let _ = n.run(Command::Dismiss(4));
    assert!(n.items().is_empty());
    assert_eq!(n.history().len(), 2);
    let _ = n.run(Command::ToggleDnd);
    let _ = n.apply(Event::Notify(notification(5, 6), 0));
    let _ = n.run(Command::DismissAll);
    assert!(n.items().is_empty());
    assert_eq!(n.history().len(), 3);
    let _ = n.run(Command::Clear);
    assert!(n.history().is_empty());
}

#[test]
fn default_action_has_no_button() {
    let n = notification(1, 1);
    assert!(n.has_default_action());
    assert_eq!(n.buttons().iter().map(|(k, _)| k.as_str()).collect::<Vec<_>>(), ["ok"]);
}

#[test]
fn markup_is_stripped() {
    assert_eq!(plain_text("plain"), "plain");
    assert_eq!(
        plain_text("<b>bold</b> and <i>it</i>, <a href=\"x\">link</a><img src=\"i\" alt=\"a\"/>"),
        "bold and it, link"
    );
    assert_eq!(plain_text("a<br/>b<br>c"), "a\nb\nc");
    assert_eq!(plain_text("1 &lt; 2 &amp;&amp; 3 &gt; 2"), "1 < 2 && 3 > 2");
    assert_eq!(plain_text("&#65;&#x42;&quot;&apos;"), "AB\"'");
    // Not markup: kept.
    assert_eq!(plain_text("a < b & c > d"), "a < b & c > d");
    assert_eq!(plain_text("<3 you &nope; <"), "<3 you &nope; <");
}

#[test]
fn history_keeps_the_newest_within_the_cap() {
    let config: NotificationsConfig = Config::parse("[Notifications]\nhistory = 2\n").section(None);
    let mut n = Notifications::new(config);
    for id in 1..=4 {
        let _ = n.apply(Event::Notify(notification(id, id as u64), 0));
    }
    assert_eq!(n.history().iter().map(|e| e.notification.id).collect::<Vec<_>>(), [4, 3]);
    assert_eq!(ids(&n), [4, 3, 2, 1]);
}

#[test]
fn numeric_entities_outside_unicode_stay() {
    assert_eq!(plain_text("&#1114112;"), "&#1114112;");
    assert_eq!(plain_text("&#xD800;"), "&#xD800;");
}
