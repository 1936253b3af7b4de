use aria_shell::compositor::{Compositor, Event, Window, Workspace};

fn ws(id: &str) -> Workspace {
    ws_on(id, "DP-1")
}

fn ws_on(id: &str, output: &str) -> Workspace {
    Workspace {
        id: id.into(),
        name: id.into(),
        output: output.into(),
        active: false,
        urgent: false,
    }
}

fn win(id: &str, workspace: &str) -> Window {
    Window {
        id: id.into(),
        class: "app".into(),
        title: "t".into(),
        workspace_id: workspace.into(),
        active: false,
        urgent: false,
    }
}

#[test]
fn active_flags_survive_list_refresh() {
    let mut c = Compositor::default();
    c.apply(Event::Workspaces(vec![ws("1"), ws("2")]));
    c.apply(Event::ActiveWorkspace("2".into()));
    c.apply(Event::Workspaces(vec![ws("1"), ws("2"), ws("3")]));
    assert!(!c.workspaces[0].active);
    assert!(c.workspaces[1].active);
    assert!(!c.workspaces[2].active);
}

#[test]
fn one_active_workspace_per_output() {
    let mut c = Compositor::default();
    c.apply(Event::Workspaces(vec![ws_on("1", "DP-1"), ws_on("2", "DP-1"), ws_on("3", "DP-2")]));
    c.apply(Event::ActiveWorkspace("1".into()));
    c.apply(Event::ActiveWorkspace("3".into()));
    c.apply(Event::ActiveWorkspace("2".into()));
    let active: Vec<_> = c.workspaces.iter().filter(|w| w.active).map(|w| w.id.as_str()).collect();
    assert_eq!(active, ["2", "3"]);
    c.apply(Event::ActiveWorkspace("nope".into()));
    assert_eq!(c.workspaces.iter().filter(|w| w.active).count(), 2);
}

#[test]
fn urgency_propagates_and_clears_on_focus() {
    let mut c = Compositor::default();
    c.apply(Event::Workspaces(vec![ws("1"), ws("2")]));
    c.apply(Event::Windows(vec![win("a", "1"), win("b", "2")]));
    c.apply(Event::UrgentWindow("b".into()));
    assert!(c.windows[1].urgent);
    assert!(c.workspaces[1].urgent);
    assert!(!c.workspaces[0].urgent);

    c.apply(Event::ActiveWindow(Some("b".into())));
    assert!(!c.windows[1].urgent);
    assert!(!c.workspaces[1].urgent);
}

#[test]
fn windows_of_workspace() {
    let mut c = Compositor::default();
    c.apply(Event::Workspaces(vec![ws("1")]));
    c.apply(Event::Windows(vec![win("a", "1"), win("b", "2"), win("c", "1")]));
    let ids: Vec<_> = c.windows_of(&c.workspaces[0]).iter().map(|w| w.id.clone()).collect();
    assert_eq!(ids, ["a", "c"]);
}

#[test]
fn focused_output_is_remembered() {
    let mut c = Compositor::detect(false);
    assert!(c.backend.is_none());
    c.apply(Event::FocusedOutput("HDMI-A-1".into()));
    assert_eq!(c.focused_output.as_deref(), Some("HDMI-A-1"));
}

#[test]
fn urgent_window_on_a_workspace_marks_only_it() {
    let mut c = Compositor::new();
    c.apply(Event::Workspaces(vec![ws("1"), ws("2")]));
    c.apply(Event::Windows(vec![win("a", "1"), win("b", "1"), win("c", "2")]));
    c.apply(Event::UrgentWindow("a".into()));
    c.apply(Event::UrgentWindow("b".into()));
    assert!(c.workspaces[0].urgent && !c.workspaces[1].urgent);
    c.apply(Event::ActiveWindow(Some("a".into())));
    assert!(c.workspaces[0].urgent, "b is still urgent");
    c.apply(Event::ActiveWindow(Some("b".into())));
    assert!(!c.workspaces[0].urgent);
    assert!(c.windows[1].active && !c.windows[0].active);
}
