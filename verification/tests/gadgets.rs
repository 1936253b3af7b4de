use aria_shell::audio::{PlaybackStatus, Player};
use aria_shell::gadgets::{player_card, ICON_PAUSE, ICON_PLAY};
use aria_shell::compositor::{Window, Workspace};
use aria_shell::config::Config;
use aria_shell::config::RawSection;
use aria_shell::gadgets::{
    shown_workspaces, tabs, title_window, ClockConfig, InstanceConfig, Mode, MonitorAction, MonitorMessage, Popup,
    PopupAction, Scheme, SectionKind, SystemMonitor, ThemeCommand, Themes, ThemesAction, ThemesConfig, TrayConfig,
    WorkspacesConfig, ID_BASE, ID_DARK, ID_LIGHT, ID_SEPARATOR,
};
use aria_shell::sysmon::{Column, MonitorConfig, Signal, Value};
use aria_shell::locale::Locale;
use aria_shell::audio::{Channel, Command, Kind};
use aria_shell::gadgets::{NotificationsAction, NotificationsGadget, NotificationsMessage};
use aria_shell::notifications::{Command as DaemonCommand, NotificationsConfig};
use aria_shell::toast::Message as ToastMessage;
use aria_shell::gadgets::{
    level_icon, percent_text, AudioAction, AudioConfig, AudioGadget, AudioMessage, ICON_HIGH, ICON_INPUT_MUTED, ICON_LOW,
    ICON_MEDIUM, ICON_MUTED,
};

fn ws_on(id: &str, output: &str) -> Workspace {
    Workspace {
        id: id.into(),
        name: id.into(),
        output: output.into(),
        active: false,
        urgent: false,
    }
}

fn win(id: &str, workspace: &str, active: bool) -> Window {
    Window {
        id: id.into(),
        class: "app".into(),
        title: id.into(),
        workspace_id: workspace.into(),
        active,
        urgent: false,
    }
}

#[test]
fn popup_toggles_and_names_its_anchors() {
    let mut p: Popup<u32> = Popup::new(7);
    assert!(!p.is_open());
    assert_eq!(p.anchor_name(2), "popup-anchor-7-2");
    match p.toggle() {
        PopupAction::Open { anchor } => assert_eq!(anchor, "popup-anchor-7-0"),
        other => panic!("unexpected {other:?}"),
    }
    assert!(!p.is_open(), "open once the surface is reported");
    p.opened(42);
    assert!(p.is_open());
    assert!(matches!(p.toggle_nth(3), PopupAction::Close(42)));
    assert!(!p.is_open());
    assert!(matches!(p.close(), PopupAction::Nothing));
    p.opened(5);
    p.closed();
    assert!(!p.is_open());
}

#[test]
fn clock_tray_and_workspaces_sections() {
    let c: ClockConfig = Config::parse("").section(None);
    assert_eq!(c.format, "%H:%M");
    let c: ClockConfig = Config::parse("[Clock]\nformat = %H:%M:%S\n").section(None);
    assert_eq!(c.format, "%H:%M:%S");
    let _t: TrayConfig = Config::parse("[Tray]\nanything = 1\n").section(None);
    let w: WorkspacesConfig = Config::parse("").section(None);
    assert!(w.show_name && w.show_windows && w.show_title);
    assert!(!w.all_monitors && !w.focus_window_on_click);
    let w: WorkspacesConfig = Config::parse("[WorkSpaces]\nall_monitors = yes\nshow_title = no\n").section(None);
    assert!(w.all_monitors && !w.show_title);
}

#[test]
fn workspaces_of_this_output_and_the_title() {
    let all = vec![ws_on("1", "DP-1"), ws_on("2", "HDMI-A-1"), ws_on("3", "DP-1")];
    let ids = |v: &[Workspace]| v.iter().map(|w| w.id.clone()).collect::<Vec<_>>();
    assert_eq!(ids(&shown_workspaces(&all, false, Some("DP-1"))), ["1", "3"]);
    assert_eq!(ids(&shown_workspaces(&all, true, Some("DP-1"))), ["1", "2", "3"]);
    assert_eq!(ids(&shown_workspaces(&all, false, None)), ["1", "2", "3"], "unknown output: all");
    let shown = shown_workspaces(&all, false, Some("DP-1"));
    let windows = vec![win("a", "2", true), win("b", "3", false), win("c", "3", true)];
    assert_eq!(title_window(&windows, &shown).map(|w| w.id.as_str()), Some("c"));
    let windows = vec![win("a", "2", true)];
    assert!(title_window(&windows, &shown).is_none(), "the active window is elsewhere");
}

#[test]
fn themes_menu_picks() {
    let cfg: ThemesConfig = Config::parse("").section(None);
    assert_eq!(cfg.icon_names(), ["weather-clear-symbolic", "weather-clear-night-symbolic"]);
    assert_eq!(cfg.icon(Scheme::Dark), "weather-clear-night-symbolic");
    let mut t: Themes<u8> = Themes::new(cfg, 1);
    assert!(matches!(t.toggle_scheme(), ThemesAction::Theme(ThemeCommand::ToggleScheme)));
    match t.open_menu(vec!["nord".into(), "solar".into()]) {
        ThemesAction::Popup(PopupAction::Open { anchor }) => assert_eq!(anchor, "popup-anchor-1-0"),
        other => panic!("unexpected {other:?}"),
    }
    t.popup().opened(9);
    assert!(t.menu_open());
    let locale = Locale::new("en", "");
    let rows = t.rows(Scheme::Dark, Some("solar"), &locale);
    let ids: Vec<i32> = rows.iter().map(|r| r.id).collect();
    assert_eq!(ids, [ID_LIGHT, ID_DARK, ID_SEPARATOR, ID_BASE, 1, 2]);
    let checked: Vec<bool> = rows.iter().map(|r| r.checked).collect();
    assert_eq!(checked, [false, true, false, false, false, true]);
    assert!(rows[2].separator);
    assert_eq!(rows[4].label, "nord");
    assert!(matches!(t.click(ID_SEPARATOR), ThemesAction::Nothing));
    assert!(matches!(t.click(3), ThemesAction::Nothing), "no third theme");
    match t.click(2) {
        ThemesAction::Pick(ThemeCommand::SetStyle(Some(name)), PopupAction::Close(9)) => assert_eq!(name, "solar"),
        other => panic!("unexpected {other:?}"),
    }
    assert!(!t.menu_open());
    assert!(matches!(
        t.click(ID_BASE),
        ThemesAction::Pick(ThemeCommand::SetStyle(None), PopupAction::Nothing)
    ));
    assert!(matches!(
        t.click(ID_LIGHT),
        ThemesAction::Pick(ThemeCommand::SetScheme(Scheme::Light), _)
    ));
}

#[test]
fn instance_config_defaults() {
    let c = InstanceConfig::from_section(&RawSection::default());
    assert_eq!(c.show, Value::Cpu);
    assert_eq!(c.format, "{cpu}%");
    assert_eq!(c.mode, Mode::Sparkline);
    let c: InstanceConfig = Config::parse("[SystemMonitor:x]\nshow = net\nmode = gauge\nmax = 90\n")
        .section(Some("SystemMonitor:x"));
    assert_eq!(c.show, Value::Net);
    assert_eq!(c.format, "{rx} {tx}");
    assert_eq!(c.mode, Mode::Gauge);
    let c: InstanceConfig = Config::parse("[SystemMonitor:x]\nshow = bogus\nmode = pie\n").section(Some("SystemMonitor:x"));
    assert_eq!((c.show, c.mode), (Value::Cpu, Mode::Sparkline));
    assert_eq!(SectionKind::for_value(Value::Swap), SectionKind::Mem);
    assert_eq!(SectionKind::for_value(Value::Load), SectionKind::Cpu);
    assert_eq!(SectionKind::Processes.title(), "sysmon.tab.processes");
    assert_eq!(tabs(false).len(), 5);
    assert_eq!(tabs(true)[4], SectionKind::Gpu);
}

#[test]
fn sorting_flips() {
    let mut g: SystemMonitor<u8> = SystemMonitor::with_config(InstanceConfig::from_section(&RawSection::default()), 1);
    let m = MonitorConfig::from_section(&RawSection::default());
    g.set_monitor(m.sort, m.interval);
    assert_eq!(g.sort(), (Column::Cpu, true));
    let _ = g.update(MonitorMessage::Sort(Column::Name));
    assert_eq!(g.sort(), (Column::Name, false));
    let _ = g.update(MonitorMessage::Sort(Column::Name));
    assert_eq!(g.sort(), (Column::Name, true));
    let _ = g.update(MonitorMessage::Sort(Column::Mem));
    assert_eq!(g.sort(), (Column::Mem, true));
}

#[test]
fn monitor_popup_rows_and_signals() {
    let cfg: InstanceConfig = Config::parse("[SystemMonitor:x]\nshow = gpu\n").section(Some("SystemMonitor:x"));
    let mut g: SystemMonitor<u8> = SystemMonitor::with_config(cfg, 3);
    assert_eq!(g.tab(), SectionKind::Gpu);
    assert_eq!(g.shown_tab(false), SectionKind::Cpu, "no GPU: the cpu tab");
    match g.update(MonitorMessage::TogglePopup) {
        MonitorAction::FetchAndOpen(PopupAction::Open { anchor }) => assert_eq!(anchor, "popup-anchor-3-0"),
        other => panic!("unexpected {other:?}"),
    }
    g.popup().opened(4);
    assert!(g.ticking());
    assert!(matches!(g.update(MonitorMessage::Tick), MonitorAction::Fetch));
    assert!(matches!(g.update(MonitorMessage::Signal(Signal::Kill)), MonitorAction::Nothing));
    let _ = g.update(MonitorMessage::Select(42));
    assert_eq!(g.selected(), Some(42));
    assert!(matches!(g.update(MonitorMessage::Signal(Signal::Terminate)), MonitorAction::Signal(42, Signal::Terminate)));
    let _ = g.update(MonitorMessage::Select(42));
    assert_eq!(g.selected(), None, "a second click unselects");
    let _ = g.update(MonitorMessage::Select(7));
    let _ = g.update(MonitorMessage::Tab(SectionKind::Mem));
    assert_eq!((g.tab(), g.selected()), (SectionKind::Mem, None));
    assert!(matches!(g.update(MonitorMessage::TogglePopup), MonitorAction::Popup(PopupAction::Close(4))));
    match g.update(MonitorMessage::RunCommand) {
        MonitorAction::RunMonitor(t) => assert_eq!(t, ""),
        other => panic!("unexpected {other:?}"),
    }
    g.set_monitor(Column::Name, 0);
    assert_eq!((g.sort(), g.interval()), ((Column::Name, false), 1));
}

fn channel(kind: Kind, volume: u32, muted: bool) -> Channel {
    Channel {
        kind,
        index: 1,
        name: "sink".into(),
        label: "Speakers".into(),
        icon: None,
        app: None,
        volume,
        muted,
        channels: 2,
        has_volume: true,
        default: true,
    }
}

#[test]
fn audio_section_defaults_and_floors() {
    let c: AudioConfig = Config::parse("").section(None);
    assert_eq!(c.mixer_command, "");
    assert_eq!(c.step, 5);
    assert_eq!(c.max_volume, 100);
    assert!(c.show_inputs && c.show_streams && c.show_players);
    assert!(!c.show_percent && !c.show_microphone);
    let c: AudioConfig =
        Config::parse("[Audio]\nmixer_command = pavucontrol\nstep = 0\nmax_volume = 150\nshow_streams = false\n")
            .section(None);
    assert_eq!(c.mixer_command, "pavucontrol");
    assert_eq!(c.step, 1);
    assert_eq!(c.max_volume, 150);
    assert!(!c.show_streams);
}

#[test]
fn audio_levels_and_percent() {
    assert_eq!(level_icon(&channel(Kind::Output, 0, false)), ICON_MUTED);
    assert_eq!(level_icon(&channel(Kind::Output, 40000, true)), ICON_MUTED);
    assert_eq!(level_icon(&channel(Kind::Output, 22282, false)), ICON_LOW);
    assert_eq!(level_icon(&channel(Kind::Output, 22283, false)), ICON_MEDIUM);
    assert_eq!(level_icon(&channel(Kind::Output, 43909, false)), ICON_MEDIUM);
    assert_eq!(level_icon(&channel(Kind::Stream, 43910, false)), ICON_HIGH);
    assert_eq!(level_icon(&channel(Kind::Input, 0, true)), ICON_INPUT_MUTED);
    assert_eq!(percent_text(32768), "50%");
    assert_eq!(percent_text(8192), "13%");
    assert_eq!(percent_text(65536), "100%");
    assert_eq!(percent_text(0), "0%");
}

#[test]
fn audio_gadget_wheel_popup_and_mixer() {
    let c: AudioConfig = Config::parse("[Audio]\nmixer_command = pavucontrol\n").section(None);
    let mut g: AudioGadget<u32> = AudioGadget::new(c, 3);
    assert_eq!(g.groups(), vec![Kind::Output, Kind::Input, Kind::Stream]);
    match g.update(AudioMessage::Scroll(Kind::Output, 1)) {
        AudioAction::Audio(Command::StepDefault { kind, delta, max }) => {
            assert_eq!(kind, Kind::Output);
            assert_eq!(delta, 3277);
            assert_eq!(max, 65536);
        }
        other => panic!("unexpected {other:?}"),
    }
    match g.update(AudioMessage::Scroll(Kind::Input, -2)) {
        AudioAction::Audio(Command::StepDefault { delta, .. }) => assert_eq!(delta, -6554),
        other => panic!("unexpected {other:?}"),
    }
    match g.update(AudioMessage::TogglePopup(Kind::Input)) {
        AudioAction::Popup(PopupAction::Open { anchor }) => assert_eq!(anchor, "popup-anchor-3-1"),
        other => panic!("unexpected {other:?}"),
    }
    g.popup().opened(9);
    match g.update(AudioMessage::RunMixer) {
        AudioAction::RunMixer(Some(line), PopupAction::Close(9)) => assert_eq!(line, "pavucontrol"),
        other => panic!("unexpected {other:?}"),
    }
    assert!(!g.popup().is_open());
    assert!(matches!(
        g.update(AudioMessage::Volume(Kind::Stream, 4, 1000)),
        AudioAction::Audio(Command::SetVolume(Kind::Stream, 4, 1000))
    ));
    let bare: AudioConfig = Config::parse("[Audio]\nshow_inputs = false\n").section(None);
    let mut g: AudioGadget<u32> = AudioGadget::new(bare, 0);
    assert_eq!(g.groups(), vec![Kind::Output, Kind::Stream]);
    assert!(matches!(g.update(AudioMessage::RunMixer), AudioAction::RunMixer(None, PopupAction::Nothing)));
}

#[test]
fn notifications_gadget_marks_seen_and_forwards_clicks() {
    let c: NotificationsConfig = Config::parse("[Notifications]\nicon = bell\n").section(None);
    let mut g: NotificationsGadget<u32> = NotificationsGadget::new(c, 4, 100);
    assert_eq!(g.icon_names(), vec!["bell".to_string(), "notifications-disabled-symbolic".to_string()]);
    assert_eq!(g.icon(true), "notifications-disabled-symbolic");
    assert_eq!(g.icon(false), "bell");
    match g.update(NotificationsMessage::TogglePopup(vec![3, 5]), 200) {
        NotificationsAction::Both(DaemonCommand::MarkSeen, PopupAction::Open { anchor }) => {
            assert_eq!(anchor, "popup-anchor-4-0")
        }
        other => panic!("unexpected {other:?}"),
    }
    assert_eq!(g.now(), 200);
    assert!(g.is_unseen(5) && !g.is_unseen(4));
    g.popup().opened(11);
    assert!(matches!(g.update(NotificationsMessage::Tick, 260), NotificationsAction::Nothing));
    assert_eq!(g.now(), 260);
    assert!(matches!(
        g.update(NotificationsMessage::TogglePopup(vec![]), 300),
        NotificationsAction::Popup(PopupAction::Close(11))
    ));
    assert_eq!(g.now(), 260);
    assert!(g.is_unseen(3), "still marked until the surface is gone");
    g.popup_closed();
    assert!(!g.is_unseen(3));
    assert!(matches!(
        g.update(NotificationsMessage::ToggleDnd, 0),
        NotificationsAction::Notifications(DaemonCommand::ToggleDnd)
    ));
    assert!(matches!(
        g.update(NotificationsMessage::DismissAll, 0),
        NotificationsAction::Notifications(DaemonCommand::DismissAll)
    ));
    assert!(matches!(
        g.update(NotificationsMessage::Clear, 0),
        NotificationsAction::Notifications(DaemonCommand::Clear)
    ));
    match g.update(NotificationsMessage::Toast(ToastMessage::Invoke(7, "reply".into())), 0) {
        NotificationsAction::Notifications(DaemonCommand::Invoke(7, key)) => assert_eq!(key, "reply"),
        other => panic!("unexpected {other:?}"),
    }
    assert!(matches!(DaemonCommand::from(ToastMessage::Activate(2)), DaemonCommand::Activate(2)));
    assert!(matches!(DaemonCommand::from(ToastMessage::Dismiss(2)), DaemonCommand::Dismiss(2)));
}

#[test]
fn config_defaults() {
    let c = InstanceConfig::from_section(&RawSection::new());
    assert_eq!(c.show, Value::Cpu);
    assert_eq!(c.format, "{cpu}%");
    assert_eq!(c.mode, Mode::Sparkline);
    let c: InstanceConfig = Config::parse(
        "[SystemMonitor:x]\nshow = net\nmode = gauge\nmax = 90\nwarning = 70\ncritical = 85\n",
    )
    .section(Some("SystemMonitor:x"));
    assert_eq!(c.show, Value::Net);
    assert_eq!(c.format, "{rx} {tx}");
    assert_eq!(c.mode, Mode::Gauge);
    let c: InstanceConfig =
        Config::parse("[SystemMonitor:x]\nshow = cpu\nmode = pie\nmax = -1\nwarning = x\n").section(Some("SystemMonitor:x"));
    assert_eq!(c.mode, Mode::Sparkline);
    assert_eq!(SectionKind::for_value(Value::Swap), SectionKind::Mem);
    assert_eq!(SectionKind::for_value(Value::Load), SectionKind::Cpu);
}

#[test]
fn player_card_shows_title_or_name_and_the_allowed_buttons() {
    let mut p = Player::new("org.mpris.MediaPlayer2.spotify".to_string());
    p.identity = "Spotify".to_string();
    p.album = "Kind of Blue".to_string();
    p.can_play = true;
    let card = player_card(&p);
    assert_eq!(card.heading, "Spotify");
    assert_eq!(card.details, vec!["Kind of Blue".to_string()]);
    assert!(!card.previous && card.play_pause && !card.next);
    assert_eq!(card.play_icon, ICON_PLAY);
    p.title = "So What".to_string();
    p.artist = "Miles Davis".to_string();
    p.status = PlaybackStatus::Playing;
    p.can_play = false;
    p.can_pause = true;
    p.can_go_next = true;
    let card = player_card(&p);
    assert_eq!(card.heading, "So What");
    assert_eq!(card.details, vec!["Miles Davis".to_string(), "Kind of Blue".to_string()]);
    assert!(!card.previous && card.play_pause && card.next);
    assert_eq!(card.play_icon, ICON_PAUSE);
    p.can_pause = false;
    p.status = PlaybackStatus::Paused;
    let card = player_card(&p);
    assert!(!card.play_pause);
    assert_eq!(card.play_icon, ICON_PLAY);
}

#[test]
fn audio_gadget_names_its_icons() {
    let c: AudioConfig = Config::parse("").section(None);
    let g: AudioGadget<u32> = AudioGadget::new(c, 0);
    let names = g.icon_names();
    assert_eq!(names.len(), 11);
    assert_eq!(names[0], "audio-volume-muted-symbolic");
    assert_eq!(names[6], "multimedia-player-symbolic");
    assert_eq!(names[8], "media-playback-start-symbolic");
    assert_eq!(names[10], "media-skip-forward-symbolic");
}
