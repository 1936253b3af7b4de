use aria_shell::config::Config;
use aria_shell::panel::{all_panels, instance_id, GadgetKind, Layer, PanelConfig, Position, Slot};

#[test]
fn panel_sections() {
    let p: PanelConfig = Config::parse("").section(None);
    assert_eq!(p.outputs, ["all"]);
    assert_eq!((p.position, p.layer), (Position::Top, Layer::Bottom));
    assert!(p.items_start.is_empty() && p.items_center.is_empty() && p.items_end.is_empty());
    let p: PanelConfig = Config::parse(
        "[panel]\noutputs = DP-1 HDMI-A-1\nposition = bottom\nlayer = overlay\nitems_start = WorkSpaces Clock:2\n",
    )
    .section(None);
    assert_eq!(p.outputs, ["DP-1", "HDMI-A-1"]);
    assert_eq!((p.position, p.layer), (Position::Bottom, Layer::Overlay));
    assert_eq!(p.items_start, ["WorkSpaces", "Clock:2"]);
    assert!(p.wants_output(Some("DP-1")));
    assert!(!p.wants_output(Some("eDP-1")));
    assert!(!p.wants_output(None));
    let p: PanelConfig = Config::parse("[panel]\nposition = left\nlayer = sideways\n").section(None);
    assert_eq!((p.position, p.layer), (Position::Top, Layer::Bottom), "unknown: the defaults");
    assert!(p.wants_output(None), "all: even an output without a name");
}

#[test]
fn bars_to_build() {
    let bars = all_panels(&Config::parse(""));
    assert_eq!(bars.len(), 1);
    assert_eq!(bars[0].0, "panel");
    assert_eq!(bars[0].1.items_center, ["Clock"]);
    let bars = all_panels(&Config::parse("[panel]\nitems_end = Tray\n[Clock]\n[panel:2]\nposition = bottom\n"));
    let names: Vec<&str> = bars.iter().map(|b| b.0.as_str()).collect();
    assert_eq!(names, ["panel", "panel:2"]);
    assert_eq!(bars[0].1.items_end, ["Tray"]);
    assert!(bars[0].1.items_center.is_empty());
    assert_eq!(bars[1].1.position, Position::Bottom);
}

#[test]
fn gadget_names_and_instances() {
    assert_eq!(instance_id("panel:2").as_deref(), Some("2"));
    assert_eq!(instance_id("panel"), None);
    assert_eq!(instance_id("panel:"), None);
    assert_eq!(GadgetKind::of("Clock"), Some(GadgetKind::Clock));
    assert_eq!(GadgetKind::of("Clock:2"), Some(GadgetKind::Clock));
    assert_eq!(GadgetKind::of("WorkSpaces"), Some(GadgetKind::Workspaces));
    assert_eq!(GadgetKind::of("Workspaces"), None, "spelled as the section");
    assert_eq!(GadgetKind::of("Themes:dark").map(|k| k.kind()), Some("themes"));
    assert_eq!(Slot::Center.name(), "center");
}
