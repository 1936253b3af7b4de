use aria_shell::compositor::Command;
use aria_shell::hyprland::{
    active_window, dispatch, line_event, monitor_workspaces, signed_decimal_of, window_id, window_list,
    workspace_list, HyprClient, HyprWorkspace, LineEvent,
};

fn hws(id: i64, name: &str) -> HyprWorkspace {
    HyprWorkspace { id, name: name.into(), monitor: "DP-1".into() }
}

fn client(address: &str, workspace: i64, mapped: bool) -> HyprClient {
    HyprClient {
        address: address.into(),
        mapped,
        class: "kitty".into(),
        title: "t".into(),
        workspace,
    }
}

#[test]
fn workspaces_sorted_without_specials() {
    let list = vec![hws(3, "three"), hws(-98, "special:scratch"), hws(1, "one"), hws(10, "ten"), hws(2, "two")];
    let ws = workspace_list(&list);
    let ids: Vec<&str> = ws.iter().map(|w| w.id.as_str()).collect();
    assert_eq!(ids, ["1", "2", "3", "10"]);
    assert_eq!(ws[3].name, "ten");
    assert_eq!(ws[0].output, "DP-1");
    assert!(ws.iter().all(|w| !w.active && !w.urgent));
    assert!(workspace_list(&Vec::new()).is_empty());
}

#[test]
fn numbers_and_window_ids() {
    assert_eq!(signed_decimal_of(0), "0");
    assert_eq!(signed_decimal_of(-99), "-99");
    assert_eq!(signed_decimal_of(i64::MIN), "-9223372036854775808");
    assert_eq!(window_id("0x55d1a2b3"), "55d1a2b3");
    assert_eq!(window_id("55d1a2b3"), "55d1a2b3");
    assert_eq!(active_window(""), None);
    assert_eq!(active_window("0xabc").as_deref(), Some("abc"));
    assert_eq!(monitor_workspaces(&[1, -98]), ["1", "-98"]);
}

#[test]
fn mapped_clients_become_windows() {
    let list = vec![client("0xa", 1, true), client("0xb", 2, false), client("0xc", -98, true)];
    let wins = window_list(&list);
    let ids: Vec<(&str, &str)> = wins.iter().map(|w| (w.id.as_str(), w.workspace_id.as_str())).collect();
    assert_eq!(ids, [("a", "1"), ("c", "-98")]);
    assert_eq!(wins[0].class, "kitty");
}

#[test]
fn event_lines() {
    assert!(matches!(line_event("garbage"), LineEvent::Malformed));
    assert!(matches!(line_event("workspacev2>3"), LineEvent::Malformed));
    match line_event("workspacev2>>3,three") {
        LineEvent::ActiveWorkspace(id) => assert_eq!(id, "3"),
        other => panic!("unexpected {other:?}"),
    }
    match line_event("focusedmonv2>>DP-1,4") {
        LineEvent::ActiveWorkspace(id) => assert_eq!(id, "4"),
        other => panic!("unexpected {other:?}"),
    }
    match line_event("focusedmonv2>>7") {
        LineEvent::ActiveWorkspace(id) => assert_eq!(id, "7"),
        other => panic!("unexpected {other:?}"),
    }
    assert!(matches!(line_event("activewindowv2>>"), LineEvent::ActiveWindow(None)));
    match line_event("activewindowv2>>55d1") {
        LineEvent::ActiveWindow(Some(id)) => assert_eq!(id, "55d1"),
        other => panic!("unexpected {other:?}"),
    }
    match line_event("urgent>>a>>b") {
        LineEvent::Urgent(id) => assert_eq!(id, "a>>b", "split at the first >>"),
        other => panic!("unexpected {other:?}"),
    }
    assert!(matches!(
        line_event("openwindow>>a,1,kitty,t"),
        LineEvent::Refetch { workspaces: false, windows: true, monitors: false }
    ));
    assert!(matches!(
        line_event("renameworkspace>>1,x"),
        LineEvent::Refetch { workspaces: true, windows: true, monitors: false }
    ));
    assert!(matches!(
        line_event("monitoradded>>HDMI-A-1"),
        LineEvent::Refetch { workspaces: true, windows: true, monitors: true }
    ));
    assert!(matches!(line_event("submap>>resize"), LineEvent::Ignored));
}

#[test]
fn dispatch_lines() {
    assert_eq!(
        dispatch(&Command::ActivateWorkspace("3".into())),
        "dispatch hl.dsp.focus({ workspace = 3 })"
    );
    assert_eq!(
        dispatch(&Command::ActivateWindow("55d1".into())),
        "dispatch hl.dsp.focus({ window = \"address:0x55d1\" })"
    );
}
