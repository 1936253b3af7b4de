use aria_shell::commands::LauncherCommand;
use aria_shell::shell::{focused_output, launcher_step, Closed, LauncherStep, Surfaces};
use aria_shell::toast::{Size, Toasts};

#[test]
fn launcher_commands_open_and_close() {
    assert_eq!(launcher_step(LauncherCommand::Toggle, false), LauncherStep::Open);
    assert_eq!(launcher_step(LauncherCommand::Toggle, true), LauncherStep::Close);
    assert_eq!(launcher_step(LauncherCommand::Show, false), LauncherStep::Open);
    assert_eq!(launcher_step(LauncherCommand::Show, true), LauncherStep::Nothing);
    assert_eq!(launcher_step(LauncherCommand::Hide, true), LauncherStep::Close);
    assert_eq!(launcher_step(LauncherCommand::Hide, false), LauncherStep::Nothing);
}

#[test]
fn focused_output_or_the_first() {
    let names = vec![Some("DP-1".to_string()), None, Some("HDMI-A-1".to_string())];
    assert_eq!(focused_output(&names, Some("HDMI-A-1")), Some(2));
    assert_eq!(focused_output(&names, Some("eDP-1")), Some(0));
    assert_eq!(focused_output(&names, None), Some(0));
    assert_eq!(focused_output(&[], Some("DP-1")), None);
}

#[test]
fn clicks_outside_close_the_launcher() {
    let mut s = Surfaces::new();
    assert!(!s.click_closes_launcher(5));
    s.launcher_opened(10, 1, vec![(11, 1), (12, 2)]);
    assert!(s.is_launcher(10) && !s.is_launcher(11));
    assert!(s.click_closes_launcher(12), "a grab");
    assert!(!s.click_closes_launcher(10), "on the launcher, pointer never seen");
    s.cursor_moved(10);
    assert!(!s.click_closes_launcher(10));
    s.cursor_moved(3);
    assert!(s.click_closes_launcher(10), "pointer last seen elsewhere");
    assert_eq!(s.close_launcher(), vec![10, 11, 12]);
    assert_eq!(s.launcher(), None);
    assert!(s.grabs().is_empty());
    assert!(s.close_launcher().is_empty());
}

#[test]
fn closing_one_launcher_surface_closes_the_rest() {
    let mut s = Surfaces::new();
    s.launcher_opened(10, 1, vec![(11, 1), (12, 2)]);
    assert_eq!(s.closed(11), Closed::Launcher(vec![10, 12]));
    assert_eq!(s.launcher(), None);
    s.launcher_opened(20, 1, vec![(21, 1)]);
    assert_eq!(s.closed(20), Closed::Launcher(vec![21]));
}

#[test]
fn panels_popups_and_outputs() {
    let mut s = Surfaces::new();
    s.panel_opened(1, 100, "Panel".into());
    s.panel_opened(2, 200, "Panel".into());
    s.panel_opened(3, 100, "Panel:bottom".into());
    assert!(s.shown(100, "Panel") && s.shown(200, "Panel") && !s.shown(200, "Panel:bottom"));
    assert!(s.popup_anchored(7, 1));
    assert!(s.popup_anchored(8, 3));
    assert!(!s.popup_anchored(9, 42), "no such panel");
    assert_eq!(s.popups(), &[(7, 1), (8, 3)]);
    assert_eq!(s.closed(7), Closed::Popup(1));
    assert_eq!(s.popups(), &[(8, 3)]);
    assert_eq!(s.output_removed(100), vec![1, 3]);
    assert_eq!(s.panels().len(), 1);
    assert_eq!(s.closed(8), Closed::Orphan);
    assert!(s.popup_anchored(9, 2));
    assert_eq!(s.closed(2), Closed::Panel);
    assert!(s.popups().is_empty() && s.panels().is_empty());
    assert_eq!(s.closed(2), Closed::Other);
}

#[test]
fn a_new_configuration_closes_everything() {
    let mut s = Surfaces::new();
    s.panel_opened(1, 100, "Panel".into());
    assert!(s.popup_anchored(7, 1));
    s.launcher_opened(10, 100, vec![(11, 100)]);
    s.cursor_moved(1);
    assert_eq!(s.reset(), vec![7, 1, 10, 11]);
    assert!(s.panels().is_empty() && s.popups().is_empty() && s.launcher().is_none() && s.grabs().is_empty());
    assert_eq!(s.cursor(), None);
    s.popup_removed(7);
}

#[test]
fn toasts_leave_with_their_output_or_their_surface() {
    let mut t: Toasts<u64> = Toasts::new();
    t.add(50, 1, 100);
    t.add(51, 2, 200);
    t.add(52, 3, 100);
    assert_eq!(t.remove_on_output(100), vec![50, 52]);
    assert_eq!(t.list().len(), 1);
    assert!(t.has(2));
    assert!(!t.remove_window(50));
    assert!(t.remove_window(51));
    assert!(!t.has(2));
    let _ = Size { width: 1, height: 1 };
}
