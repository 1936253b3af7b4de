//! The small gadgets' settings and decisions: the popup a gadget hangs
//! off its button, the clock's and tray's sections, the themes menu and
//! which workspaces (and which window title) a panel shows. Drawing them
//! is the caller's.
use vstd::prelude::*;

use crate::audio::{Channel, Command, Kind, PlaybackStatus, Player};
use crate::compositor::{win_view, ws_view, Window, WindowView, Workspace, WorkspaceView};
use crate::config::{opt_view, strings_view, RawSection, Section};
use crate::icons::last_value;
use crate::locale::Locale;
use crate::notifications::{flag_or, str_eq_string, text_or};
use crate::sysmon::{value_named, Column, Signal, Value};
use crate::text::{decimal, decimal_of, push_str, string_of};

verus! {

// ---------------------------------------------------------------------
// Popups

/// What a gadget asks of its popup surface.
#[derive(Debug)]
pub enum PopupAction<W> {
    /// Nothing to do.
    Nothing,
    /// Open a popup hanging off the widget tagged `anchor`.
    Open { anchor: String },
    /// Close the popup surface `W`.
    Close(W),
}

/// A gadget's popup surface, as far as the gadget is concerned: the
/// widget it hangs from and whether it is open. The caller reports the
/// surface coming and going, whoever closed it.
pub struct Popup<W> {
    /// Makes the anchor names unique across gadgets (the caller hands
    /// out a new one per popup).
    serial: u64,
    id: Option<W>,
}

/// The name of anchor `n` of the popup numbered `serial`.
pub open spec fn anchor_text(serial: u64, n: nat) -> Seq<char> {
    "popup-anchor-"@ + decimal(serial as nat) + "-"@ + decimal(n)
}

impl<W: Copy> Popup<W> {
    pub closed spec fn spec_serial(&self) -> u64 {
        self.serial
    }

    /// The surface, while one is open.
    pub closed spec fn spec_open(&self) -> Option<W> {
        self.id
    }

    /// A closed popup numbered `serial`.
    pub fn new(serial: u64) -> (r: Popup<W>)
        ensures
            r.spec_serial() == serial,
            r.spec_open() is None,
    {
        Popup { serial, id: None }
    }

    pub fn is_open(&self) -> (r: bool)
        ensures
            r == self.spec_open() is Some,
    {
        self.id.is_some()
    }

    /// The name tagging the `n`th widget a popup may hang from.
    pub fn anchor_name(&self, n: usize) -> (r: String)
        ensures
            r@ == anchor_text(self.spec_serial(), n as nat),
    {
        let mut v: Vec<char> = Vec::new();
        push_str(&mut v, "popup-anchor-");
        let s = decimal_of(self.serial);
        push_str(&mut v, s.as_str());
        push_str(&mut v, "-");
        let m = decimal_of(n as u64);
        push_str(&mut v, m.as_str());
        string_of(v.as_slice())
    }

    /// Close the popup if open, else open one on anchor `n`.
    pub fn toggle_nth(&mut self, n: usize) -> (r: PopupAction<W>)
        ensures
            final(self).spec_serial() == old(self).spec_serial(),
            final(self).spec_open() is None,
            match old(self).spec_open() {
                Some(id) => r == PopupAction::<W>::Close(id),
                None => r matches PopupAction::Open { anchor } && anchor@ == anchor_text(
                    old(self).spec_serial(),
                    n as nat,
                ),
            },
    {
        match self.id {
            Some(id) => {
                self.id = None;
                PopupAction::Close(id)
            },
            None => PopupAction::Open { anchor: self.anchor_name(n) },
        }
    }

    /// Close the popup if open, else open one.
    pub fn toggle(&mut self) -> (r: PopupAction<W>)
        ensures
            final(self).spec_serial() == old(self).spec_serial(),
            final(self).spec_open() is None,
            match old(self).spec_open() {
                Some(id) => r == PopupAction::<W>::Close(id),
                None => r matches PopupAction::Open { anchor } && anchor@ == anchor_text(
                    old(self).spec_serial(),
                    0,
                ),
            },
    {
        self.toggle_nth(0)
    }

    /// Close it if open.
    pub fn close(&mut self) -> (r: PopupAction<W>)
        ensures
            final(self).spec_serial() == old(self).spec_serial(),
            final(self).spec_open() is None,
            match old(self).spec_open() {
                Some(id) => r == PopupAction::<W>::Close(id),
                None => r == PopupAction::<W>::Nothing,
            },
    {
        match self.id {
            Some(id) => {
                self.id = None;
                PopupAction::Close(id)
            },
            None => PopupAction::Nothing,
        }
    }

    /// The surface `id` opened.
    pub fn opened(&mut self, id: W)
        ensures
            final(self).spec_serial() == old(self).spec_serial(),
            final(self).spec_open() == Some(id),
    {
        self.id = Some(id);
    }

    /// The surface went away.
    pub fn closed(&mut self)
        ensures
            final(self).spec_serial() == old(self).spec_serial(),
            final(self).spec_open() is None,
    {
        self.id = None;
    }
}

// ---------------------------------------------------------------------
// Clock and tray

/// `[Clock]` section.
#[derive(Debug)]
pub struct ClockConfig {
    /// A strftime pattern.
    pub format: String,
}

impl ClockConfig {
    /// `format` defaults to `%H:%M`.
    pub fn from_section(raw: &RawSection) -> (r: ClockConfig)
        ensures
            r.format@ == text_or(raw, "format"@, "%H:%M"@),
    {
        ClockConfig { format: raw.str_or("format", "%H:%M") }
    }
}

impl Section for ClockConfig {
    open spec fn read_from(raw: &RawSection, r: ClockConfig) -> bool {
        &&& (r.format@ == text_or(raw, "format"@, "%H:%M"@))
    }

    fn section_name() -> &'static str {
        "Clock"
    }

    fn from_raw(raw: &RawSection) -> (r: ClockConfig) {
        ClockConfig::from_section(raw)
    }
}

/// `[Tray]` section: no keys.
#[derive(Debug)]
pub struct TrayConfig;

impl Section for TrayConfig {
    open spec fn read_from(raw: &RawSection, r: TrayConfig) -> bool {
        true
    }

    fn section_name() -> &'static str {
        "Tray"
    }

    fn from_raw(_raw: &RawSection) -> (r: TrayConfig) {
        TrayConfig
    }
}

// ---------------------------------------------------------------------
// Themes

/// `[Themes]` section.
#[derive(Debug)]
pub struct ThemesConfig {
    /// Icon names (from the icon theme) shown while each scheme is on.
    pub light_icon: String,
    pub dark_icon: String,
}

impl ThemesConfig {
    pub fn from_section(raw: &RawSection) -> (r: ThemesConfig)
        ensures
            r.light_icon@ == text_or(raw, "light_icon"@, "weather-clear-symbolic"@),
            r.dark_icon@ == text_or(raw, "dark_icon"@, "weather-clear-night-symbolic"@),
    {
        ThemesConfig {
            light_icon: raw.str_or("light_icon", "weather-clear-symbolic"),
            dark_icon: raw.str_or("dark_icon", "weather-clear-night-symbolic"),
        }
    }

    /// The icons the gadget may draw.
    pub fn icon_names(&self) -> (r: Vec<String>)
        ensures
            strings_view(r@) == seq![self.light_icon@, self.dark_icon@],
    {
        let r = vec![self.light_icon.clone(), self.dark_icon.clone()];
        assert(strings_view(r@) =~= seq![self.light_icon@, self.dark_icon@]);
        r
    }

    /// The icon shown while `scheme` is on.
    pub fn icon(&self, scheme: Scheme) -> (r: &str)
        ensures
            r@ == (match scheme {
                Scheme::Light => self.light_icon@,
                Scheme::Dark => self.dark_icon@,
            }),
    {
        match scheme {
            Scheme::Light => self.light_icon.as_str(),
            Scheme::Dark => self.dark_icon.as_str(),
        }
    }
}

impl Section for ThemesConfig {
    open spec fn read_from(raw: &RawSection, r: ThemesConfig) -> bool {
        &&& (r.light_icon@ == text_or(raw, "light_icon"@, "weather-clear-symbolic"@))
        &&& (r.dark_icon@ == text_or(raw, "dark_icon"@, "weather-clear-night-symbolic"@))
    }

    fn section_name() -> &'static str {
        "Themes"
    }

    fn from_raw(raw: &RawSection) -> (r: ThemesConfig) {
        ThemesConfig::from_section(raw)
    }
}

#[derive(Debug, Clone, Copy, PartialEq, Eq, Structural)]
pub enum Scheme {
    Light,
    Dark,
}

/// What a pick in the themes menu asks of the styling.
#[derive(Debug)]
pub enum ThemeCommand {
    ToggleScheme,
    SetScheme(Scheme),
    /// A theme by name; `None`: the base alone.
    SetStyle(Option<String>),
}

/// Menu row ids: the two schemes, the base, then the themes by index.
pub const ID_LIGHT: i32 = -1;
pub const ID_DARK: i32 = -2;
pub const ID_SEPARATOR: i32 = -3;
pub const ID_BASE: i32 = 0;

/// A row of the themes menu.
#[derive(Debug)]
pub struct MenuRow {
    pub id: i32,
    pub label: String,
    /// A separator has no label and no mark.
    pub separator: bool,
    /// The radio mark: this one is in use.
    pub checked: bool,
}

pub struct MenuRowView {
    pub id: i32,
    pub label: Seq<char>,
    pub separator: bool,
    pub checked: bool,
}

pub open spec fn rows_view(v: Seq<MenuRow>) -> Seq<MenuRowView> {
    v.map_values(|r: MenuRow| MenuRowView { id: r.id, label: r.label@, separator: r.separator, checked: r.checked })
}

pub open spec fn translated(locale: Locale, key: Seq<char>) -> Seq<char> {
    match last_value(locale.spec_texts(), key) {
        Some(t) => t,
        None => key,
    }
}

/// The menu's rows: light and dark (the one on checked), a separator,
/// the base alone (checked when no theme is in use), then every theme
/// found, numbered from 1 (checked when it is the one in use).
pub open spec fn menu_rows(
    scheme: Scheme,
    current: Option<Seq<char>>,
    available: Seq<Seq<char>>,
    locale: Locale,
) -> Seq<MenuRowView> {
    seq![
        MenuRowView { id: ID_LIGHT, label: translated(locale, "themes.light"@), separator: false, checked: scheme == Scheme::Light },
        MenuRowView { id: ID_DARK, label: translated(locale, "themes.dark"@), separator: false, checked: scheme == Scheme::Dark },
        MenuRowView { id: ID_SEPARATOR, label: Seq::empty(), separator: true, checked: false },
        MenuRowView { id: ID_BASE, label: translated(locale, "themes.base"@), separator: false, checked: current is None },
    ] + Seq::new(
        available.len(),
        |i: int| MenuRowView { id: (i + 1) as i32, label: available[i], separator: false, checked: current == Some(available[i]) },
    )
}

/// What a click on menu row `id` picks: a scheme, the base, or the
/// `id`th theme found; nothing for the separator or an id past them.
pub open spec fn picked(id: i32, available: Seq<Seq<char>>) -> Option<Option<Option<Seq<char>>>> {
    if id == ID_LIGHT || id == ID_DARK {
        Some(None)
    } else if id == ID_BASE {
        Some(Some(None))
    } else if 1 <= id && id - 1 < available.len() {
        Some(Some(Some(available[id - 1])))
    } else {
        None
    }
}

/// The themes gadget: its section, its menu popup, and the themes found
/// when the menu was opened.
pub struct Themes<W> {
    config: ThemesConfig,
    popup: Popup<W>,
    available: Vec<String>,
}

/// What the themes gadget asks for.
#[derive(Debug)]
pub enum ThemesAction<W> {
    Nothing,
    Theme(ThemeCommand),
    Popup(PopupAction<W>),
    /// A pick: restyle, and close the menu.
    Pick(ThemeCommand, PopupAction<W>),
}

impl<W: Copy> Themes<W> {
    pub closed spec fn spec_config(&self) -> ThemesConfig {
        self.config
    }

    pub closed spec fn spec_available(&self) -> Seq<Seq<char>> {
        strings_view(self.available@)
    }

    pub closed spec fn spec_popup(&self) -> Popup<W> {
        self.popup
    }

    pub fn new(config: ThemesConfig, serial: u64) -> (r: Themes<W>)
        ensures
            r.spec_available() == Seq::<Seq<char>>::empty(),
            r.spec_popup().spec_open() is None,
            r.spec_popup().spec_serial() == serial,
    {
        let r = Themes { config, popup: Popup::new(serial), available: Vec::new() };
        assert(strings_view(r.available@) =~= Seq::<Seq<char>>::empty());
        r
    }

    pub fn config(&self) -> (r: &ThemesConfig)
        ensures
            *r == self.spec_config(),
    {
        &self.config
    }

    /// Whether the menu is open (the caller looks for themes only when
    /// it is not).
    pub fn menu_open(&self) -> (r: bool)
        ensures
            r == self.spec_popup().spec_open() is Some,
    {
        self.popup.is_open()
    }

    /// A left click: toggle light/dark.
    pub fn toggle_scheme(&self) -> (r: ThemesAction<W>)
        ensures
            r matches ThemesAction::Theme(ThemeCommand::ToggleScheme),
    {
        ThemesAction::Theme(ThemeCommand::ToggleScheme)
    }

    /// A right click, with the themes found now: keep them when the
    /// menu opens, and toggle it.
    pub fn open_menu(&mut self, found: Vec<String>) -> (r: ThemesAction<W>)
        ensures
            final(self).spec_available() == (if old(self).spec_popup().spec_open() is None {
                strings_view(found@)
            } else {
                old(self).spec_available()
            }),
            final(self).spec_popup().spec_open() is None,
            match old(self).spec_popup().spec_open() {
                Some(id) => r matches ThemesAction::Popup(PopupAction::Close(w)) && w == id,
                None => r matches ThemesAction::Popup(PopupAction::Open { anchor }) && anchor@ == anchor_text(
                    old(self).spec_popup().spec_serial(),
                    0,
                ),
            },
    {
        if !self.popup.is_open() {
            self.available = found;
        }
        ThemesAction::Popup(self.popup.toggle())
    }

    /// The surface of the menu opened or went away.
    pub fn popup(&mut self) -> (r: &mut Popup<W>)
        ensures
            *r == old(self).spec_popup(),
            final(self).spec_popup() == *final(r),
            final(self).spec_available() == old(self).spec_available(),
            final(self).spec_config() == old(self).spec_config(),
    {
        &mut self.popup
    }

    /// A click on menu row `id`: the scheme or theme it names, and the
    /// menu closed; nothing for a row that names none.
    pub fn click(&mut self, id: i32) -> (r: ThemesAction<W>)
        ensures
            final(self).spec_available() == old(self).spec_available(),
            match picked(id, old(self).spec_available()) {
                None => r matches ThemesAction::Nothing,
                Some(p) => {
                    &&& final(self).spec_popup().spec_open() is None
                    &&& r matches ThemesAction::Pick(cmd, close) && (match p {
                        None => cmd matches ThemeCommand::SetScheme(s) && s == (if id == ID_LIGHT {
                            Scheme::Light
                        } else {
                            Scheme::Dark
                        }),
                        Some(style) => cmd matches ThemeCommand::SetStyle(name) && opt_view(name) == style,
                    }) && (match old(self).spec_popup().spec_open() {
                        Some(w) => close == PopupAction::<W>::Close(w),
                        None => close == PopupAction::<W>::Nothing,
                    })
                },
            },
    {
        let command = if id == ID_LIGHT {
            ThemeCommand::SetScheme(Scheme::Light)
        } else if id == ID_DARK {
            ThemeCommand::SetScheme(Scheme::Dark)
        } else if id == ID_BASE {
            ThemeCommand::SetStyle(None)
        } else if 1 <= id && ((id - 1) as usize) < self.available.len() {
            let name = self.available[(id - 1) as usize].clone();
            ThemeCommand::SetStyle(Some(name))
        } else {
            return ThemesAction::Nothing;
        };
        let close = self.popup.close();
        ThemesAction::Pick(command, close)
    }

    /// The menu's rows for the scheme and theme in use.
    pub fn rows(&self, scheme: Scheme, current: Option<&str>, locale: &Locale) -> (r: Vec<MenuRow>)
        requires
            self.spec_available().len() < i32::MAX,
        ensures
            rows_view(r@) == menu_rows(
                scheme,
                match current {
                    Some(c) => Some(c@),
                    None => None,
                },
                self.spec_available(),
                *locale,
            ),
    {
        let ghost cur = match current {
            Some(c) => Some(c@),
            None => None::<Seq<char>>,
        };
        let mut r: Vec<MenuRow> = Vec::new();
        r.push(MenuRow {
            id: ID_LIGHT,
            label: locale.tr("themes.light").to_string(),
            separator: false,
            checked: scheme == Scheme::Light,
        });
        r.push(MenuRow {
            id: ID_DARK,
            label: locale.tr("themes.dark").to_string(),
            separator: false,
            checked: scheme == Scheme::Dark,
        });
        r.push(MenuRow { id: ID_SEPARATOR, label: String::new(), separator: true, checked: false });
        r.push(MenuRow {
            id: ID_BASE,
            label: locale.tr("themes.base").to_string(),
            separator: false,
            checked: current.is_none(),
        });
        let ghost all = menu_rows(scheme, cur, self.spec_available(), *locale);
        assert(rows_view(r@) =~= all.take(4));
        let mut i: usize = 0;
        while i < self.available.len()
            invariant
                i <= self.available.len() < i32::MAX,
                all == menu_rows(scheme, cur, strings_view(self.available@), *locale),
                cur == (match current {
                    Some(c) => Some(c@),
                    None => None::<Seq<char>>,
                }),
                rows_view(r@) == all.take(4 + i),
            decreases self.available.len() - i,
        {
            let name = &self.available[i];
            let checked = match current {
                Some(c) => crate::config::str_eq(name.as_str(), c),
                None => false,
            };
            let ghost before = rows_view(r@);
            r.push(MenuRow { id: (i + 1) as i32, label: name.clone(), separator: false, checked });
            assert(rows_view(r@) =~= before.push(rows_view(r@).last()));
            assert(all[4 + i as int] == rows_view(r@).last());
            assert(rows_view(r@) =~= all.take(4 + i + 1));
            i = i + 1;
        }
        assert(all.take(4 + i) =~= all);
        r
    }
}

// ---------------------------------------------------------------------
// Workspaces

/// `[WorkSpaces]` section.
#[derive(Debug)]
pub struct WorkspacesConfig {
    pub show_name: bool,
    pub show_windows: bool,
    /// Show every workspace, not only the ones on this panel's output.
    pub all_monitors: bool,
    /// Clicking a window marker focuses that window instead of just
    /// switching to its workspace.
    pub focus_window_on_click: bool,
    /// The active window's icon and title after the workspaces.
    pub show_title: bool,
}

impl WorkspacesConfig {
    pub fn from_section(raw: &RawSection) -> (r: WorkspacesConfig)
        ensures
            r.show_name == flag_or(raw, "show_name"@, true),
            r.show_windows == flag_or(raw, "show_windows"@, true),
            r.all_monitors == flag_or(raw, "all_monitors"@, false),
            r.focus_window_on_click == flag_or(raw, "focus_window_on_click"@, false),
            r.show_title == flag_or(raw, "show_title"@, true),
    {
        WorkspacesConfig {
            show_name: raw.bool_or("show_name", true),
            show_windows: raw.bool_or("show_windows", true),
            all_monitors: raw.bool_or("all_monitors", false),
            focus_window_on_click: raw.bool_or("focus_window_on_click", false),
            show_title: raw.bool_or("show_title", true),
        }
    }
}

impl Section for WorkspacesConfig {
    open spec fn read_from(raw: &RawSection, r: WorkspacesConfig) -> bool {
        &&& (r.show_name == flag_or(raw, "show_name"@, true))
        &&& (r.show_windows == flag_or(raw, "show_windows"@, true))
        &&& (r.all_monitors == flag_or(raw, "all_monitors"@, false))
        &&& (r.focus_window_on_click == flag_or(raw, "focus_window_on_click"@, false))
        &&& (r.show_title == flag_or(raw, "show_title"@, true))
    }

    fn section_name() -> &'static str {
        "WorkSpaces"
    }

    fn from_raw(raw: &RawSection) -> (r: WorkspacesConfig) {
        WorkspacesConfig::from_section(raw)
    }
}

/// Whether a workspace shows on the panel of `output` (every one when
/// the output's name is unknown, or with `all_monitors`).
pub open spec fn shows_here(ws: WorkspaceView, all_monitors: bool, output: Option<Seq<char>>) -> bool {
    all_monitors || match output {
        None => true,
        Some(o) => ws.output == o,
    }
}

/// Index of the first active window on one of the `shown` workspaces;
/// `windows.len()` if none.
pub open spec fn title_pos(windows: Seq<WindowView>, shown: Seq<WorkspaceView>) -> int
    decreases windows.len(),
{
    if windows.len() == 0 {
        0
    } else if windows[0].active && exists|j: int| 0 <= j < shown.len() && #[trigger] shown[j].id == windows[0].workspace_id {
        0
    } else {
        title_pos(windows.drop_first(), shown) + 1
    }
}

proof fn lemma_title_pos_at(windows: Seq<WindowView>, shown: Seq<WorkspaceView>, i: int)
    requires
        0 <= i <= windows.len(),
        i < windows.len() ==> windows[i].active && exists|j: int|
            0 <= j < shown.len() && #[trigger] shown[j].id == windows[i].workspace_id,
        forall|k: int|
            0 <= k < i ==> !((#[trigger] windows[k]).active && exists|j: int|
                0 <= j < shown.len() && #[trigger] shown[j].id == windows[k].workspace_id),
    ensures
        title_pos(windows, shown) == i,
    decreases windows.len(),
{
    if windows.len() > 0 && i > 0 {
        assert(!(windows[0].active && exists|j: int| 0 <= j < shown.len() && #[trigger] shown[j].id == windows[0].workspace_id));
        assert forall|k: int| 0 <= k < i - 1 implies !((#[trigger] windows.drop_first()[k]).active && exists|j: int|
            0 <= j < shown.len() && #[trigger] shown[j].id == windows.drop_first()[k].workspace_id) by {
            assert(windows.drop_first()[k] == windows[k + 1]);
        }
        lemma_title_pos_at(windows.drop_first(), shown, i - 1);
    }
}

/// The workspaces a panel on `output` shows, in order.
pub fn shown_workspaces(workspaces: &Vec<Workspace>, all_monitors: bool, output: Option<&str>) -> (r: Vec<Workspace>)
    ensures
        ws_view(r@) == ws_view(workspaces@).filter(
            |w: WorkspaceView| shows_here(w, all_monitors, crate::config::opt_str(output)),
        ),
{
    let ghost all = ws_view(workspaces@);
    let ghost out = crate::config::opt_str(output);
    let mut r: Vec<Workspace> = Vec::new();
    let mut i: usize = 0;
    while i < workspaces.len()
        invariant
            i <= workspaces.len(),
            all == ws_view(workspaces@),
            out == crate::config::opt_str(output),
            ws_view(r@) == all.take(i as int).filter(|w: WorkspaceView| shows_here(w, all_monitors, out)),
        decreases workspaces.len() - i,
    {
        let ghost before = ws_view(r@);
        assert(all.take(i + 1).drop_last() =~= all.take(i as int));
        reveal_with_fuel(Seq::filter, 1);
        assert(all[i as int] == workspaces@[i as int]@);
        let here = all_monitors || match output {
            None => true,
            Some(o) => crate::config::str_eq(workspaces[i].output.as_str(), o),
        };
        if here {
            r.push(workspaces[i].copy());
            assert(ws_view(r@) =~= before.push(all[i as int]));
        }
        i = i + 1;
    }
    assert(all.take(workspaces.len() as int) =~= all);
    r
}

/// The window whose title follows the workspaces: the first active one
/// on a shown workspace.
pub fn title_window<'a>(windows: &'a Vec<Window>, shown: &Vec<Workspace>) -> (r: Option<&'a Window>)
    ensures
        ({
            let p = title_pos(win_view(windows@), ws_view(shown@));
            match r {
                Some(w) => p < windows@.len() && w@ == win_view(windows@)[p],
                None => p == windows@.len(),
            }
        }),
{
    let ghost wins = win_view(windows@);
    let ghost sh = ws_view(shown@);
    let mut i: usize = 0;
    while i < windows.len()
        invariant
            i <= windows.len(),
            wins == win_view(windows@),
            sh == ws_view(shown@),
            forall|k: int|
                0 <= k < i ==> !((#[trigger] wins[k]).active && exists|j: int|
                    0 <= j < sh.len() && #[trigger] sh[j].id == wins[k].workspace_id),
        decreases windows.len() - i,
    {
        assert(wins[i as int] == windows@[i as int]@);
        if windows[i].active {
            let mut j: usize = 0;
            while j < shown.len()
                invariant
                    j <= shown.len(),
                    wins == win_view(windows@),
                    sh == ws_view(shown@),
                    i < windows.len(),
                    windows@[i as int].active,
                    forall|k: int|
                        0 <= k < i ==> !((#[trigger] wins[k]).active && exists|j: int|
                            0 <= j < sh.len() && #[trigger] sh[j].id == wins[k].workspace_id),
                    forall|q: int| 0 <= q < j ==> #[trigger] sh[q].id != wins[i as int].workspace_id,
                decreases shown.len() - j,
            {
                assert(sh[j as int] == shown@[j as int]@);
                if str_eq_string(&shown[j].id, &windows[i].workspace_id) {
                    proof {
                        assert(wins[i as int] == windows@[i as int]@);
                        assert(sh[j as int].id == wins[i as int].workspace_id);
                        lemma_title_pos_at(wins, sh, i as int);
                    }
                    return Some(&windows[i]);
                }
                j = j + 1;
            }
        }
        i = i + 1;
    }
    proof {
        lemma_title_pos_at(wins, sh, i as int);
    }
    None
}


// ---------------------------------------------------------------------
// System monitor

/// How an instance draws its value on the bar.
#[derive(Debug, Clone, Copy, PartialEq, Eq, Structural)]
pub enum Mode {
    /// The text alone.
    Text,
    /// The history as a small graph, the text over it.
    Sparkline,
    /// A bar filled to the value, the text over it.
    Gauge,
}

pub open spec fn mode_named(s: Seq<char>) -> Option<Mode> {
    if s == "text"@ {
        Some(Mode::Text)
    } else if s == "sparkline"@ {
        Some(Mode::Sparkline)
    } else if s == "gauge"@ {
        Some(Mode::Gauge)
    } else {
        None
    }
}

impl Mode {
    pub fn parse(s: &str) -> (r: Option<Mode>)
        ensures
            r == mode_named(s@),
    {
        if crate::config::str_eq(s, "text") {
            Some(Mode::Text)
        } else if crate::config::str_eq(s, "sparkline") {
            Some(Mode::Sparkline)
        } else if crate::config::str_eq(s, "gauge") {
            Some(Mode::Gauge)
        } else {
            None
        }
    }
}

/// A tab of the popup.
#[derive(Debug, Clone, Copy, PartialEq, Eq, Structural)]
pub enum SectionKind {
    Cpu,
    Mem,
    Disk,
    Net,
    Gpu,
    Processes,
}

/// The tab a bar value belongs to.
pub open spec fn tab_of(v: Value) -> SectionKind {
    match v {
        Value::Cpu | Value::Temp | Value::Load => SectionKind::Cpu,
        Value::Mem | Value::Swap => SectionKind::Mem,
        Value::Disk => SectionKind::Disk,
        Value::Net => SectionKind::Net,
        Value::Gpu => SectionKind::Gpu,
    }
}

impl SectionKind {
    pub const ALL: [SectionKind; 6] = [
        SectionKind::Cpu,
        SectionKind::Mem,
        SectionKind::Disk,
        SectionKind::Net,
        SectionKind::Gpu,
        SectionKind::Processes,
    ];

    /// The tab a bar value belongs to.
    pub fn for_value(value: Value) -> (r: SectionKind)
        ensures
            r == tab_of(value),
    {
        match value {
            Value::Cpu | Value::Temp | Value::Load => SectionKind::Cpu,
            Value::Mem | Value::Swap => SectionKind::Mem,
            Value::Disk => SectionKind::Disk,
            Value::Net => SectionKind::Net,
            Value::Gpu => SectionKind::Gpu,
        }
    }

    /// Its class in the theme.
    pub fn name(self) -> (r: &'static str)
        ensures
            r@ == (match self {
                SectionKind::Cpu => "cpu"@,
                SectionKind::Mem => "mem"@,
                SectionKind::Disk => "disk"@,
                SectionKind::Net => "net"@,
                SectionKind::Gpu => "gpu"@,
                SectionKind::Processes => "processes"@,
            }),
    {
        match self {
            SectionKind::Cpu => "cpu",
            SectionKind::Mem => "mem",
            SectionKind::Disk => "disk",
            SectionKind::Net => "net",
            SectionKind::Gpu => "gpu",
            SectionKind::Processes => "processes",
        }
    }

    /// The catalogue key of the tab's title.
    pub fn title(self) -> (r: &'static str)
        ensures
            r@ == (match self {
                SectionKind::Cpu => "sysmon.tab.cpu"@,
                SectionKind::Mem => "sysmon.tab.memory"@,
                SectionKind::Disk => "sysmon.tab.disks"@,
                SectionKind::Net => "sysmon.tab.network"@,
                SectionKind::Gpu => "sysmon.tab.gpu"@,
                SectionKind::Processes => "sysmon.tab.processes"@,
            }),
    {
        match self {
            SectionKind::Cpu => "sysmon.tab.cpu",
            SectionKind::Mem => "sysmon.tab.memory",
            SectionKind::Disk => "sysmon.tab.disks",
            SectionKind::Net => "sysmon.tab.network",
            SectionKind::Gpu => "sysmon.tab.gpu",
            SectionKind::Processes => "sysmon.tab.processes",
        }
    }
}

/// The tabs shown: the GPU one only when there is a GPU.
pub fn tabs(has_gpu: bool) -> (r: Vec<SectionKind>)
    ensures
        r@ == (if has_gpu {
            seq![SectionKind::Cpu, SectionKind::Mem, SectionKind::Disk, SectionKind::Net, SectionKind::Gpu, SectionKind::Processes]
        } else {
            seq![SectionKind::Cpu, SectionKind::Mem, SectionKind::Disk, SectionKind::Net, SectionKind::Processes]
        }),
{
    let mut r = vec![SectionKind::Cpu, SectionKind::Mem, SectionKind::Disk, SectionKind::Net];
    if has_gpu {
        r.push(SectionKind::Gpu);
    }
    r.push(SectionKind::Processes);
    proof {
        if has_gpu {
            assert(r@ =~= seq![SectionKind::Cpu, SectionKind::Mem, SectionKind::Disk, SectionKind::Net, SectionKind::Gpu, SectionKind::Processes]);
        } else {
            assert(r@ =~= seq![SectionKind::Cpu, SectionKind::Mem, SectionKind::Disk, SectionKind::Net, SectionKind::Processes]);
        }
    }
    r
}

/// The terminal monitors tried, in order, when no `command` is set.
pub const MONITORS: [&'static str; 3] = ["btop", "htop", "top"];

/// `[SystemMonitor:<id>]`: a gadget's keys, as far as they are not
/// numbers of the value's own unit (`max`, `warning`, `critical`, in
/// floating point, are the caller's).
#[derive(Debug)]
pub struct InstanceConfig {
    pub show: Value,
    pub mode: Mode,
    pub format: String,
    pub icon: String,
    /// Run on a right click; empty: a terminal monitor.
    pub command: String,
    /// `[launcher] terminal`, for the default command (set by the
    /// caller, not a key of this section).
    pub terminal: String,
}

impl InstanceConfig {
    /// `show` a value (the cpu when missing or unknown), `mode` one of
    /// `text`, `sparkline` (also when missing or unknown) or `gauge`,
    /// `format` the value's own by default.
    pub fn from_section(raw: &RawSection) -> (r: InstanceConfig)
        ensures
            r.show == (match raw.value("show"@) {
                Some(s) => match value_named(s) {
                    Some(v) => v,
                    None => Value::Cpu,
                },
                None => Value::Cpu,
            }),
            r.mode == (match raw.value("mode"@) {
                Some(m) => match mode_named(m) {
                    Some(x) => x,
                    None => Mode::Sparkline,
                },
                None => Mode::Sparkline,
            }),
            r.format@ == (match raw.value("format"@) {
                Some(f) => f,
                None => default_format_of(r.show),
            }),
            r.icon@ == text_or(raw, "icon"@, ""@),
            r.command@ == text_or(raw, "command"@, ""@),
            r.terminal@.len() == 0,
    {
        let show = match raw.get("show") {
            Some(s) => match Value::parse(s) {
                Some(v) => v,
                None => Value::Cpu,
            },
            None => Value::Cpu,
        };
        let mode = match raw.get("mode") {
            Some(m) => match Mode::parse(m) {
                Some(x) => x,
                None => Mode::Sparkline,
            },
            None => Mode::Sparkline,
        };
        InstanceConfig {
            show,
            mode,
            format: raw.str_or("format", show.default_format()),
            icon: raw.str_or("icon", ""),
            command: raw.str_or("command", ""),
            terminal: String::new(),
        }
    }
}

impl Section for InstanceConfig {
    open spec fn read_from(raw: &RawSection, r: InstanceConfig) -> bool {
        &&& (r.show == (match raw.value("show"@) {
            Some(s) => match value_named(s) {
                Some(v) => v,
                None => Value::Cpu,
            },
            None => Value::Cpu,
        }))
        &&& (r.mode == (match raw.value("mode"@) {
            Some(m) => match mode_named(m) {
                Some(x) => x,
                None => Mode::Sparkline,
            },
            None => Mode::Sparkline,
        }))
        &&& (r.format@ == (match raw.value("format"@) {
            Some(f) => f,
            None => default_format_of(r.show),
        }))
        &&& (r.icon@ == text_or(raw, "icon"@, ""@))
        &&& (r.command@ == text_or(raw, "command"@, ""@))
        &&& (r.terminal@.len() == 0)
    }

    fn section_name() -> &'static str {
        "SystemMonitor"
    }

    fn from_raw(raw: &RawSection) -> (r: InstanceConfig) {
        InstanceConfig::from_section(raw)
    }
}

pub open spec fn default_format_of(v: Value) -> Seq<char> {
    match v {
        Value::Cpu => "{cpu}%"@,
        Value::Mem => "{mem}%"@,
        Value::Swap => "{swap}%"@,
        Value::Disk => "{read} {write}"@,
        Value::Net => "{rx} {tx}"@,
        Value::Gpu => "{gpu}%"@,
        Value::Temp => "{temp}°"@,
        Value::Load => "{load1}"@,
    }
}

/// What the system monitor gadget is told.
#[derive(Debug, Clone, Copy)]
pub enum MonitorMessage {
    TogglePopup,
    RunCommand,
    Tab(SectionKind),
    Tick,
    Sort(Column),
    Select(u32),
    Signal(Signal),
}

/// What it asks for.
#[derive(Debug)]
pub enum MonitorAction<W> {
    Nothing,
    /// Open or close the popup.
    Popup(PopupAction<W>),
    /// Read the processes again, and open the popup.
    FetchAndOpen(PopupAction<W>),
    /// Read the processes again.
    Fetch,
    /// Send `Signal` to this process.
    Signal(u32, Signal),
    /// Run this command line.
    Run(String),
    /// Run the first of [`MONITORS`] on the PATH in this terminal.
    RunMonitor(String),
}

/// The process table's sort after a click on a column's header: the
/// same column flips its direction, another starts in its own.
pub open spec fn sort_step(sort: (Column, bool), column: Column) -> (Column, bool) {
    if sort.0 == column {
        (column, !sort.1)
    } else {
        (column, column == Column::Cpu || column == Column::Mem || column == Column::Pid)
    }
}

/// A click on a row selects it; on the selected one, unselects it.
pub open spec fn select_step(selected: Option<u32>, pid: u32) -> Option<u32> {
    if selected == Some(pid) {
        None
    } else {
        Some(pid)
    }
}

/// The system monitor gadget: its section, its popup, the tab shown,
/// the process table's sort and selected row.
pub struct SystemMonitor<W> {
    config: InstanceConfig,
    popup: Popup<W>,
    tab: SectionKind,
    sort: (Column, bool),
    selected: Option<u32>,
    interval: u64,
}

impl<W: Copy> SystemMonitor<W> {
    pub closed spec fn spec_show(&self) -> Value {
        self.config.show
    }

    pub closed spec fn spec_config(&self) -> InstanceConfig {
        self.config
    }

    pub closed spec fn spec_tab(&self) -> SectionKind {
        self.tab
    }

    pub closed spec fn spec_sort(&self) -> (Column, bool) {
        self.sort
    }

    pub closed spec fn spec_selected(&self) -> Option<u32> {
        self.selected
    }

    pub closed spec fn spec_interval(&self) -> u64 {
        self.interval
    }

    pub closed spec fn spec_popup(&self) -> Popup<W> {
        self.popup
    }

    /// A gadget on the value's own tab, sorted by cpu (largest first),
    /// nothing selected, ticking every 2 s.
    pub fn with_config(config: InstanceConfig, serial: u64) -> (r: SystemMonitor<W>)
        ensures
            r.spec_show() == config.show,
            r.spec_tab() == tab_of(config.show),
            r.spec_sort() == (Column::Cpu, true),
            r.spec_selected() is None,
            r.spec_interval() == 2,
            r.spec_popup().spec_open() is None,
            r.spec_popup().spec_serial() == serial,
    {
        let tab = SectionKind::for_value(config.show);
        SystemMonitor { config, popup: Popup::new(serial), tab, sort: (Column::Cpu, true), selected: None, interval: 2 }
    }

    /// What the base section says about the popup: the initial sort of
    /// the process table, and the sampler's interval for the ticks.
    pub fn set_monitor(&mut self, sort: Column, interval: u64)
        ensures
            final(self).spec_sort() == (sort, sort == Column::Cpu || sort == Column::Mem || sort == Column::Pid),
            final(self).spec_interval() == (if interval >= 1 { interval } else { 1 }),
            final(self).spec_tab() == old(self).spec_tab(),
            final(self).spec_selected() == old(self).spec_selected(),
            final(self).spec_show() == old(self).spec_show(),
            final(self).spec_popup() == old(self).spec_popup(),
    {
        self.sort = (sort, sort.descending_by_default());
        self.interval = if interval >= 1 { interval } else { 1 };
    }

    pub fn config(&self) -> (r: &InstanceConfig)
        ensures
            *r == self.spec_config(),
    {
        &self.config
    }

    pub fn set_terminal(&mut self, terminal: String)
        ensures
            final(self).spec_config().terminal@ == terminal@,
            final(self).spec_show() == old(self).spec_show(),
            final(self).spec_tab() == old(self).spec_tab(),
            final(self).spec_sort() == old(self).spec_sort(),
            final(self).spec_selected() == old(self).spec_selected(),
            final(self).spec_popup() == old(self).spec_popup(),
    {
        self.config.terminal = terminal;
    }

    pub fn tab(&self) -> (r: SectionKind)
        ensures
            r == self.spec_tab(),
    {
        self.tab
    }

    /// The tab drawn: the GPU tab falls back to the cpu without a GPU.
    pub fn shown_tab(&self, has_gpu: bool) -> (r: SectionKind)
        ensures
            r == (if self.spec_tab() == SectionKind::Gpu && !has_gpu {
                SectionKind::Cpu
            } else {
                self.spec_tab()
            }),
    {
        if self.tab == SectionKind::Gpu && !has_gpu {
            SectionKind::Cpu
        } else {
            self.tab
        }
    }

    pub fn sort(&self) -> (r: (Column, bool))
        ensures
            r == self.spec_sort(),
    {
        self.sort
    }

    pub fn selected(&self) -> (r: Option<u32>)
        ensures
            r == self.spec_selected(),
    {
        self.selected
    }

    pub fn interval(&self) -> (r: u64)
        ensures
            r == self.spec_interval(),
    {
        self.interval
    }

    /// Ticks run while the popup is open.
    pub fn ticking(&self) -> (r: bool)
        ensures
            r == self.spec_popup().spec_open() is Some,
    {
        self.popup.is_open()
    }

    pub fn popup(&mut self) -> (r: &mut Popup<W>)
        ensures
            *r == old(self).spec_popup(),
            final(self).spec_popup() == *final(r),
            final(self).spec_show() == old(self).spec_show(),
            final(self).spec_config() == old(self).spec_config(),
            final(self).spec_tab() == old(self).spec_tab(),
            final(self).spec_sort() == old(self).spec_sort(),
            final(self).spec_selected() == old(self).spec_selected(),
            final(self).spec_interval() == old(self).spec_interval(),
    {
        &mut self.popup
    }

    /// The popup went away: nothing stays selected.
    pub fn popup_closed(&mut self)
        ensures
            final(self).spec_selected() is None,
            final(self).spec_popup().spec_open() is None,
            final(self).spec_popup().spec_serial() == old(self).spec_popup().spec_serial(),
            final(self).spec_tab() == old(self).spec_tab(),
            final(self).spec_sort() == old(self).spec_sort(),
    {
        self.popup.closed();
        self.selected = None;
    }

    /// The icon the button may draw.
    pub fn icon_names(&self) -> (r: Vec<String>)
        ensures
            strings_view(r@) == (if self.spec_config().icon@.len() == 0 {
                Seq::<Seq<char>>::empty()
            } else {
                seq![self.spec_config().icon@]
            }),
    {
        let mut r: Vec<String> = Vec::new();
        if !self.config.icon.as_str().is_empty() {
            r.push(self.config.icon.clone());
            assert(strings_view(r@) =~= seq![self.config.icon@]);
        } else {
            assert(strings_view(r@) =~= Seq::<Seq<char>>::empty());
        }
        r
    }

    /// One message; what to do next.
    pub fn update(&mut self, message: MonitorMessage) -> (r: MonitorAction<W>)
        ensures
            final(self).spec_show() == old(self).spec_show(),
            final(self).spec_interval() == old(self).spec_interval(),
            final(self).spec_popup().spec_serial() == old(self).spec_popup().spec_serial(),
            match message {
                MonitorMessage::TogglePopup => match old(self).spec_popup().spec_open() {
                    Some(w) => {
                        &&& r == MonitorAction::<W>::Popup(PopupAction::Close(w))
                        &&& final(self).spec_tab() == old(self).spec_tab()
                        &&& final(self).spec_popup().spec_open() is None
                    },
                    None => {
                        &&& r matches MonitorAction::FetchAndOpen(PopupAction::Open { anchor }) && anchor@ == anchor_text(
                            old(self).spec_popup().spec_serial(),
                            0,
                        )
                        &&& final(self).spec_tab() == tab_of(old(self).spec_show())
                        &&& final(self).spec_popup().spec_open() is None
                    },
                },
                MonitorMessage::RunCommand => if old(self).spec_config().command@.len() > 0 {
                    r matches MonitorAction::Run(line) && line@ == old(self).spec_config().command@
                } else {
                    r matches MonitorAction::RunMonitor(t) && t@ == old(self).spec_config().terminal@
                },
                MonitorMessage::Tab(t) => {
                    &&& final(self).spec_tab() == t
                    &&& final(self).spec_selected() is None
                    &&& r == MonitorAction::<W>::Nothing
                },
                MonitorMessage::Tick => r == MonitorAction::<W>::Fetch,
                MonitorMessage::Sort(c) => {
                    &&& final(self).spec_sort() == sort_step(old(self).spec_sort(), c)
                    &&& r == MonitorAction::<W>::Nothing
                },
                MonitorMessage::Select(pid) => {
                    &&& final(self).spec_selected() == select_step(old(self).spec_selected(), pid)
                    &&& r == MonitorAction::<W>::Nothing
                },
                MonitorMessage::Signal(s) => match old(self).spec_selected() {
                    Some(pid) => r == MonitorAction::<W>::Signal(pid, s),
                    None => r == MonitorAction::<W>::Nothing,
                },
            },
            !(message is TogglePopup) ==> final(self).spec_popup() == old(self).spec_popup(),
            !(message is Sort) ==> final(self).spec_sort() == old(self).spec_sort(),
            !(message is Tab || message is Select) ==> final(self).spec_selected() == old(self).spec_selected(),
            !(message is Tab || message is TogglePopup) ==> final(self).spec_tab() == old(self).spec_tab(),
    {
        match message {
            MonitorMessage::TogglePopup => {
                if self.popup.is_open() {
                    return MonitorAction::Popup(self.popup.close());
                }
                self.tab = SectionKind::for_value(self.config.show);
                MonitorAction::FetchAndOpen(self.popup.toggle())
            },
            MonitorMessage::RunCommand => {
                if !self.config.command.as_str().is_empty() {
                    MonitorAction::Run(self.config.command.clone())
                } else {
                    MonitorAction::RunMonitor(self.config.terminal.clone())
                }
            },
            MonitorMessage::Tab(t) => {
                self.tab = t;
                self.selected = None;
                MonitorAction::Nothing
            },
            MonitorMessage::Tick => MonitorAction::Fetch,
            MonitorMessage::Sort(column) => {
                self.sort = if self.sort.0 == column {
                    (column, !self.sort.1)
                } else {
                    (column, column.descending_by_default())
                };
                MonitorAction::Nothing
            },
            MonitorMessage::Select(pid) => {
                self.selected = match self.selected {
                    Some(p) => if p == pid {
                        None
                    } else {
                        Some(pid)
                    },
                    None => Some(pid),
                };
                MonitorAction::Nothing
            },
            MonitorMessage::Signal(signal) => match self.selected {
                Some(pid) => MonitorAction::Signal(pid, signal),
                None => MonitorAction::Nothing,
            },
        }
    }
}

/// Sorting twice on one column flips the direction back; the column
/// sorted by is always the one clicked.
pub proof fn sorting_twice_flips_back(sort: (Column, bool), column: Column)
    ensures
        sort_step(sort, column).0 == column,
        sort_step(sort_step(sort, column), column) == (column, !sort_step(sort, column).1),
{
}

/// Clicking a row twice leaves nothing selected.
pub proof fn selecting_twice_unselects(selected: Option<u32>, pid: u32)
    ensures
        select_step(select_step(selected, pid), pid) == (if selected == Some(pid) {
            Some(pid)
        } else {
            None::<u32>
        }),
{
}


// ---------------------------------------------------------------------
// Audio

/// `[Audio]` section.
#[derive(Debug)]
pub struct AudioConfig {
    /// A program (a real mixer) run by the popup's button and a right
    /// click; none when empty.
    pub mixer_command: String,
    /// Percent per wheel click (at least 1).
    pub step: u64,
    /// The sliders' and the wheel's ceiling, percent (at least 1).
    pub max_volume: u64,
    pub show_inputs: bool,
    pub show_streams: bool,
    pub show_players: bool,
    /// The percent as text after the icon on the bar.
    pub show_percent: bool,
    /// The default input's icon after the output's.
    pub show_microphone: bool,
}

impl AudioConfig {
    pub fn from_section(raw: &RawSection) -> (r: AudioConfig)
        ensures
            r.mixer_command@ == text_or(raw, "mixer_command"@, ""@),
            r.step == (if crate::sysmon::number_or(*raw, "step"@, 5) >= 1 {
                crate::sysmon::number_or(*raw, "step"@, 5)
            } else {
                1
            }),
            r.max_volume == (if crate::sysmon::number_or(*raw, "max_volume"@, 100) >= 1 {
                crate::sysmon::number_or(*raw, "max_volume"@, 100)
            } else {
                1
            }),
            r.show_inputs == flag_or(raw, "show_inputs"@, true),
            r.show_streams == flag_or(raw, "show_streams"@, true),
            r.show_players == flag_or(raw, "show_players"@, true),
            r.show_percent == flag_or(raw, "show_percent"@, false),
            r.show_microphone == flag_or(raw, "show_microphone"@, false),
    {
        let step = raw.u64_or("step", 5);
        let max_volume = raw.u64_or("max_volume", 100);
        AudioConfig {
            mixer_command: raw.str_or("mixer_command", ""),
            step: if step >= 1 { step } else { 1 },
            max_volume: if max_volume >= 1 { max_volume } else { 1 },
            show_inputs: raw.bool_or("show_inputs", true),
            show_streams: raw.bool_or("show_streams", true),
            show_players: raw.bool_or("show_players", true),
            show_percent: raw.bool_or("show_percent", false),
            show_microphone: raw.bool_or("show_microphone", false),
        }
    }
}

impl Section for AudioConfig {
    open spec fn read_from(raw: &RawSection, r: AudioConfig) -> bool {
        &&& (r.mixer_command@ == text_or(raw, "mixer_command"@, ""@))
        &&& (r.step == (if crate::sysmon::number_or(*raw, "step"@, 5) >= 1 {
            crate::sysmon::number_or(*raw, "step"@, 5)
        } else {
            1
        }))
        &&& (r.max_volume == (if crate::sysmon::number_or(*raw, "max_volume"@, 100) >= 1 {
            crate::sysmon::number_or(*raw, "max_volume"@, 100)
        } else {
            1
        }))
        &&& (r.show_inputs == flag_or(raw, "show_inputs"@, true))
        &&& (r.show_streams == flag_or(raw, "show_streams"@, true))
        &&& (r.show_players == flag_or(raw, "show_players"@, true))
        &&& (r.show_percent == flag_or(raw, "show_percent"@, false))
        &&& (r.show_microphone == flag_or(raw, "show_microphone"@, false))
    }

    fn section_name() -> &'static str {
        "Audio"
    }

    fn from_raw(raw: &RawSection) -> (r: AudioConfig) {
        AudioConfig::from_section(raw)
    }
}

/// `n / d` rounded to the nearest integer (halves away from zero).
pub open spec fn round_div(n: int, d: int) -> int {
    if n >= 0 {
        (2 * n + d) / (2 * d)
    } else {
        -((-2 * n + d) / (2 * d))
    }
}

/// A percentage in the server's volume units, rounded (100% is
/// `VOLUME_NORM`, 65536).
pub open spec fn percent_units(p: int) -> int {
    round_div(p * 16384, 25)
}

/// The volume icons of the bar and the mixer.
pub const ICON_MUTED: &'static str = "audio-volume-muted-symbolic";
pub const ICON_LOW: &'static str = "audio-volume-low-symbolic";
pub const ICON_MEDIUM: &'static str = "audio-volume-medium-symbolic";
pub const ICON_HIGH: &'static str = "audio-volume-high-symbolic";
pub const ICON_INPUT: &'static str = "audio-input-microphone-symbolic";
pub const ICON_INPUT_MUTED: &'static str = "microphone-sensitivity-muted-symbolic";
pub const ICON_STREAM: &'static str = "multimedia-player-symbolic";
/// The transport icons of a player's card.
pub const ICON_PREVIOUS: &'static str = "media-skip-backward-symbolic";
pub const ICON_PLAY: &'static str = "media-playback-start-symbolic";
pub const ICON_PAUSE: &'static str = "media-playback-pause-symbolic";
pub const ICON_NEXT: &'static str = "media-skip-forward-symbolic";

/// What a media player's card in the mixer shows, drawing aside: its
/// heading, the detail lines under it, which transport buttons take a
/// press, and the play button's icon.
#[derive(Debug)]
pub struct PlayerCard {
    /// The track's title, or the player's name while there is none.
    pub heading: String,
    /// The artist, then the album, each only when known.
    pub details: Vec<String>,
    pub previous: bool,
    pub play_pause: bool,
    pub next: bool,
    pub play_icon: &'static str,
}

/// The detail lines: each of `artist` and `album` that is not empty.
pub open spec fn card_details(artist: Seq<char>, album: Seq<char>) -> Seq<Seq<char>> {
    (if artist.len() == 0 { Seq::empty() } else { seq![artist] }) + (if album.len() == 0 {
        Seq::empty()
    } else {
        seq![album]
    })
}

/// The card of player `p`.
pub fn player_card(p: &Player) -> (r: PlayerCard)
    ensures
        r.heading@ == (if p.title@.len() == 0 { p.identity@ } else { p.title@ }),
        strings_view(r.details@) == card_details(p.artist@, p.album@),
        r.previous == p.can_go_previous,
        r.play_pause == (p.can_play || p.can_pause),
        r.next == p.can_go_next,
        r.play_icon@ == (if p.status == PlaybackStatus::Playing { ICON_PAUSE@ } else { ICON_PLAY@ }),
{
    let heading = if p.title.as_str().is_empty() {
        p.identity.clone()
    } else {
        p.title.clone()
    };
    let mut details: Vec<String> = Vec::new();
    if !p.artist.as_str().is_empty() {
        details.push(p.artist.clone());
    }
    if !p.album.as_str().is_empty() {
        details.push(p.album.clone());
    }
    assert(strings_view(details@) =~= card_details(p.artist@, p.album@));
    let play_icon = if p.status == PlaybackStatus::Playing {
        ICON_PAUSE
    } else {
        ICON_PLAY
    };
    PlayerCard {
        heading,
        details,
        previous: p.can_go_previous,
        play_pause: p.can_play || p.can_pause,
        next: p.can_go_next,
        play_icon,
    }
}

/// The icons the audio gadget draws: the volume levels, the
/// microphone's, the stream's, and the transport's.
pub open spec fn audio_icons() -> Seq<Seq<char>> {
    seq![
        ICON_MUTED@,
        ICON_LOW@,
        ICON_MEDIUM@,
        ICON_HIGH@,
        ICON_INPUT@,
        ICON_INPUT_MUTED@,
        ICON_STREAM@,
        ICON_PREVIOUS@,
        ICON_PLAY@,
        ICON_PAUSE@,
        ICON_NEXT@,
    ]
}

/// The volume icon for a channel's level (a third of 100% and two
/// thirds the steps, as 0.34 and 0.67 read on the server's scale); the
/// microphone for an input.
pub open spec fn level_icon_of(kind: Kind, muted: bool, volume: u32) -> Seq<char> {
    if kind == Kind::Input {
        if muted {
            ICON_INPUT_MUTED@
        } else {
            ICON_INPUT@
        }
    } else if muted || volume == 0 {
        ICON_MUTED@
    } else if volume <= 22282 {
        ICON_LOW@
    } else if volume <= 43909 {
        ICON_MEDIUM@
    } else {
        ICON_HIGH@
    }
}

pub fn level_icon(c: &Channel) -> (r: &'static str)
    ensures
        r@ == level_icon_of(c.kind, c.muted, c.volume),
{
    if c.kind == Kind::Input {
        if c.muted {
            ICON_INPUT_MUTED
        } else {
            ICON_INPUT
        }
    } else if c.muted || c.volume == 0 {
        ICON_MUTED
    } else if c.volume <= 22282 {
        ICON_LOW
    } else if c.volume <= 43909 {
        ICON_MEDIUM
    } else {
        ICON_HIGH
    }
}

/// A volume as the bar shows it: the percent, rounded, and `%`.
pub fn percent_text(volume: u32) -> (r: String)
    ensures
        r@ == crate::text::decimal(((2 * volume * 25 + 16384) / 32768) as nat) + "%"@,
{
    let p: u64 = (2 * (volume as u64) * 25 + 16384) / 32768;
    let mut v: Vec<char> = Vec::new();
    push_str(&mut v, decimal_of(p).as_str());
    push_str(&mut v, "%");
    string_of(v.as_slice())
}

/// The class of a kind's section.
pub fn kind_class(kind: Kind) -> (r: &'static str)
    ensures
        r@ == (match kind {
            Kind::Output => "output"@,
            Kind::Input => "input"@,
            Kind::Stream => "stream"@,
        }),
{
    match kind {
        Kind::Output => "output",
        Kind::Input => "input",
        Kind::Stream => "stream",
    }
}

/// What the audio gadget is told.
#[derive(Debug)]
pub enum AudioMessage {
    /// From the output's or the input's button: the popup hangs off it.
    TogglePopup(Kind),
    ToggleMute(Kind),
    /// Wheel clicks (up positive) on a default device's button.
    Scroll(Kind, i64),
    RunMixer,
    /// A channel's slider, in the server's units.
    Volume(Kind, u32, u32),
    Mute(Kind, u32, bool),
    SetDefault(Kind, u32),
    PlayPause(String),
    Previous(String),
    Next(String),
}

/// What it asks for.
#[derive(Debug)]
pub enum AudioAction<W> {
    Nothing,
    Popup(PopupAction<W>),
    Audio(Command),
    /// Run the mixer command when there is one, and close the popup.
    RunMixer(Option<String>, PopupAction<W>),
}

/// The audio gadget: its section and its popup, which hangs off the
/// output's button (anchor 0) or the input's (anchor 1).
pub struct AudioGadget<W> {
    config: AudioConfig,
    popup: Popup<W>,
}

/// The wheel's step, `clicks` of `step` percent, in the server's units
/// (kept within `i64`).
pub open spec fn wheel_delta(clicks: i64, step: u64) -> i64 {
    let d = percent_units(clicks * step);
    if d < i64::MIN {
        i64::MIN
    } else if d > i64::MAX {
        i64::MAX
    } else {
        d as i64
    }
}

pub open spec fn ceiling_units(max_volume: u64) -> u32 {
    let m = percent_units(max_volume as int);
    if m > u32::MAX {
        u32::MAX
    } else {
        m as u32
    }
}

impl<W: Copy> AudioGadget<W> {
    pub closed spec fn spec_config(&self) -> AudioConfig {
        self.config
    }

    pub closed spec fn spec_popup(&self) -> Popup<W> {
        self.popup
    }

    pub fn new(config: AudioConfig, serial: u64) -> (r: AudioGadget<W>)
        ensures
            r.spec_config() == config,
            r.spec_popup().spec_open() is None,
            r.spec_popup().spec_serial() == serial,
    {
        AudioGadget { config, popup: Popup::new(serial) }
    }

    pub fn config(&self) -> (r: &AudioConfig)
        ensures
            *r == self.spec_config(),
    {
        &self.config
    }

    pub fn popup(&mut self) -> (r: &mut Popup<W>)
        ensures
            *r == old(self).spec_popup(),
            final(self).spec_popup() == *final(r),
            final(self).spec_config() == old(self).spec_config(),
    {
        &mut self.popup
    }

    /// The icons to load ahead of drawing.
    pub fn icon_names(&self) -> (r: Vec<String>)
        ensures
            strings_view(r@) == audio_icons(),
    {
        let names: [&'static str; 11] = [
            ICON_MUTED,
            ICON_LOW,
            ICON_MEDIUM,
            ICON_HIGH,
            ICON_INPUT,
            ICON_INPUT_MUTED,
            ICON_STREAM,
            ICON_PREVIOUS,
            ICON_PLAY,
            ICON_PAUSE,
            ICON_NEXT,
        ];
        let mut r: Vec<String> = Vec::new();
        let mut i: usize = 0;
        while i < 11
            invariant
                i <= 11,
                names@.len() == 11,
                forall|k: int| 0 <= k < 11 ==> #[trigger] names@[k]@ == audio_icons()[k],
                strings_view(r@) == audio_icons().take(i as int),
            decreases 11 - i,
        {
            let ghost r0 = strings_view(r@);
            r.push(crate::text::owned(names[i]));
            assert(strings_view(r@) =~= r0.push(audio_icons()[i as int]));
            assert(audio_icons().take(i + 1) =~= audio_icons().take(i as int).push(audio_icons()[i as int]));
            i = i + 1;
        }
        assert(audio_icons().take(11) =~= audio_icons());
        r
    }

    /// The sections of the mixer, in order: outputs, then inputs and
    /// streams as shown.
    pub fn groups(&self) -> (r: Vec<Kind>)
        ensures
            r@ == seq![Kind::Output] + (if self.spec_config().show_inputs {
                seq![Kind::Input]
            } else {
                Seq::empty()
            }) + (if self.spec_config().show_streams {
                seq![Kind::Stream]
            } else {
                Seq::empty()
            }),
    {
        let mut r = vec![Kind::Output];
        if self.config.show_inputs {
            r.push(Kind::Input);
        }
        if self.config.show_streams {
            r.push(Kind::Stream);
        }
        let ghost a = if self.config.show_inputs { seq![Kind::Input] } else { Seq::<Kind>::empty() };
        let ghost b = if self.config.show_streams { seq![Kind::Stream] } else { Seq::<Kind>::empty() };
        assert(r@ =~= seq![Kind::Output] + a + b);
        r
    }

    /// One message; what to do next.
    pub fn update(&mut self, message: AudioMessage) -> (r: AudioAction<W>)
        ensures
            final(self).spec_config() == old(self).spec_config(),
            final(self).spec_popup().spec_serial() == old(self).spec_popup().spec_serial(),
            match message {
                AudioMessage::TogglePopup(kind) => {
                    let n: nat = if kind == Kind::Input { 1 } else { 0 };
                    &&& final(self).spec_popup().spec_open() is None
                    &&& match old(self).spec_popup().spec_open() {
                        Some(w) => r == AudioAction::<W>::Popup(PopupAction::Close(w)),
                        None => r matches AudioAction::Popup(PopupAction::Open { anchor }) && anchor@ == anchor_text(
                            old(self).spec_popup().spec_serial(),
                            n,
                        ),
                    }
                },
                AudioMessage::ToggleMute(kind) => r matches AudioAction::Audio(Command::ToggleDefaultMute(k)) && k
                    == kind,
                AudioMessage::Scroll(kind, clicks) => r matches AudioAction::Audio(
                    Command::StepDefault { kind: k, delta, max },
                ) && k == kind && delta == wheel_delta(clicks, old(self).spec_config().step) && max == ceiling_units(
                    old(self).spec_config().max_volume,
                ),
                AudioMessage::RunMixer => {
                    &&& final(self).spec_popup().spec_open() is None
                    &&& r matches AudioAction::RunMixer(line, close) && (match line {
                        Some(l) => old(self).spec_config().mixer_command@.len() > 0 && l@
                            == old(self).spec_config().mixer_command@,
                        None => old(self).spec_config().mixer_command@.len() == 0,
                    }) && (match old(self).spec_popup().spec_open() {
                        Some(w) => close == PopupAction::<W>::Close(w),
                        None => close == PopupAction::<W>::Nothing,
                    })
                },
                AudioMessage::Volume(kind, index, v) => r matches AudioAction::Audio(Command::SetVolume(k, i, x)) && k
                    == kind && i == index && x == v,
                AudioMessage::Mute(kind, index, m) => r matches AudioAction::Audio(Command::SetMuted(k, i, x)) && k
                    == kind && i == index && x == m,
                AudioMessage::SetDefault(kind, index) => r matches AudioAction::Audio(Command::SetDefault(k, i)) && k
                    == kind && i == index,
                AudioMessage::PlayPause(bus) => r matches AudioAction::Audio(Command::PlayPause(b)) && b@ == bus@,
                AudioMessage::Previous(bus) => r matches AudioAction::Audio(Command::Previous(b)) && b@ == bus@,
                AudioMessage::Next(bus) => r matches AudioAction::Audio(Command::Next(b)) && b@ == bus@,
            },
            !(message is TogglePopup || message is RunMixer) ==> final(self).spec_popup() == old(self).spec_popup(),
    {
        match message {
            AudioMessage::TogglePopup(kind) => {
                let n: usize = if kind == Kind::Input { 1 } else { 0 };
                AudioAction::Popup(self.popup.toggle_nth(n))
            },
            AudioMessage::ToggleMute(kind) => AudioAction::Audio(Command::ToggleDefaultMute(kind)),
            AudioMessage::Scroll(kind, clicks) => {
                let c: i128 = clicks as i128;
                let s: i128 = self.config.step as i128;
                assert(-0x8000_0000_0000_0000 * 0xffff_ffff_ffff_ffff <= c * s <= 0x7fff_ffff_ffff_ffff * 0xffff_ffff_ffff_ffff)
                    by (nonlinear_arith)
                    requires
                        -0x8000_0000_0000_0000 <= c <= 0x7fff_ffff_ffff_ffff,
                        0 <= s <= 0xffff_ffff_ffff_ffff,
                ;
                let p: i128 = c * s;
                let delta = wheel_units(p);
                let max = max_units(self.config.max_volume);
                AudioAction::Audio(Command::StepDefault { kind, delta, max })
            },
            AudioMessage::RunMixer => {
                let line = if self.config.mixer_command.as_str().is_empty() {
                    None
                } else {
                    Some(self.config.mixer_command.clone())
                };
                let close = self.popup.close();
                AudioAction::RunMixer(line, close)
            },
            AudioMessage::Volume(kind, index, v) => AudioAction::Audio(Command::SetVolume(kind, index, v)),
            AudioMessage::Mute(kind, index, m) => AudioAction::Audio(Command::SetMuted(kind, index, m)),
            AudioMessage::SetDefault(kind, index) => AudioAction::Audio(Command::SetDefault(kind, index)),
            AudioMessage::PlayPause(bus) => AudioAction::Audio(Command::PlayPause(bus)),
            AudioMessage::Previous(bus) => AudioAction::Audio(Command::Previous(bus)),
            AudioMessage::Next(bus) => AudioAction::Audio(Command::Next(bus)),
        }
    }
}

/// `p` percent in the server's units, rounded, kept within `i64`.
fn wheel_units(p: i128) -> (r: i64)
    requires
        -0x8000_0000_0000_0000 * 0xffff_ffff_ffff_ffff <= p <= 0x7fff_ffff_ffff_ffff * 0xffff_ffff_ffff_ffff,
    ensures
        r == ({
            let d = percent_units(p as int);
            if d < i64::MIN {
                i64::MIN
            } else if d > i64::MAX {
                i64::MAX
            } else {
                d as i64
            }
        }),
{
    // |p| < 2^127 / 2^15: the products below fit.
    let limit: i128 = 0x7fff_ffff_ffff_ffff;
    let big: i128 = limit * 25 / 16384 + 1;
    if p > big {
        assert(percent_units(p as int) > i64::MAX) by (nonlinear_arith)
            requires
                p > big,
                big == 0x7fff_ffff_ffff_ffff * 25 / 16384 + 1,
                p >= 0,
        ;
        return i64::MAX;
    }
    if p < -big {
        assert(percent_units(p as int) < i64::MIN) by (nonlinear_arith)
            requires
                p < -big,
                big == 0x7fff_ffff_ffff_ffff * 25 / 16384 + 1,
        ;
        return i64::MIN;
    }
    let n: i128 = p * 16384;
    let d: i128 = if n >= 0 {
        (2 * n + 25) / 50
    } else {
        -((-2 * n + 25) / 50)
    };
    if d > limit {
        i64::MAX
    } else if d < -limit - 1 {
        i64::MIN
    } else {
        d as i64
    }
}

/// `max_volume` percent in the server's units, rounded, at most `u32`.
fn max_units(max_volume: u64) -> (r: u32)
    ensures
        r == ceiling_units(max_volume),
{
    let n: u128 = max_volume as u128 * 16384;
    let d: u128 = (2 * n + 25) / 50;
    if d > 0xffff_ffff {
        0xffff_ffff
    } else {
        d as u32
    }
}

// ---------------------------------------------------------------------
// Notifications

/// What the notifications gadget is told.
#[derive(Debug)]
pub enum NotificationsMessage {
    /// Left click, with the ids not looked at yet.
    TogglePopup(Vec<u32>),
    ToggleDnd,
    DismissAll,
    Clear,
    /// From a row of the popup.
    Toast(crate::toast::Message),
    /// A minute went by while the popup is open.
    Tick,
}

/// What it asks for.
#[derive(Debug)]
pub enum NotificationsAction<W> {
    Nothing,
    Popup(PopupAction<W>),
    Notifications(crate::notifications::Command),
    /// Both, in this order.
    Both(crate::notifications::Command, PopupAction<W>),
}

/// The notifications gadget: a bell with the count of the notifications
/// not looked at, the history in a popup. It holds no notification
/// state of its own, only when the ages were last computed and which
/// notifications were new when the popup opened.
pub struct NotificationsGadget<W> {
    config: crate::notifications::NotificationsConfig,
    popup: Popup<W>,
    /// When the ages were last computed: the popup opening, then every
    /// minute while it is open.
    now: u64,
    /// The notifications not looked at when the popup opened: marked
    /// seen right then, still marked in the list while it is open.
    unseen: Vec<u32>,
}

impl<W: Copy> NotificationsGadget<W> {
    pub closed spec fn spec_popup(&self) -> Popup<W> {
        self.popup
    }

    pub closed spec fn spec_now(&self) -> u64 {
        self.now
    }

    pub closed spec fn spec_unseen(&self) -> Seq<u32> {
        self.unseen@
    }

    pub closed spec fn spec_icons(&self) -> (Seq<char>, Seq<char>) {
        (self.config.icon@, self.config.dnd_icon@)
    }

    /// Made at `now`, with its popup numbered `serial` closed.
    pub fn new(config: crate::notifications::NotificationsConfig, serial: u64, now: u64) -> (r: NotificationsGadget<W>)
        ensures
            r.spec_popup().spec_open() is None,
            r.spec_popup().spec_serial() == serial,
            r.spec_now() == now,
            r.spec_unseen().len() == 0,
            r.spec_icons() == (config.icon@, config.dnd_icon@),
    {
        NotificationsGadget { config, popup: Popup::new(serial), now, unseen: Vec::new() }
    }

    /// One message, at time `now`; what to do next.
    pub fn update(&mut self, message: NotificationsMessage, now: u64) -> (r: NotificationsAction<W>)
        ensures
            final(self).spec_icons() == old(self).spec_icons(),
            final(self).spec_popup().spec_serial() == old(self).spec_popup().spec_serial(),
            match message {
                NotificationsMessage::TogglePopup(ids) => {
                    &&& final(self).spec_popup().spec_open() is None
                    &&& match old(self).spec_popup().spec_open() {
                        Some(w) => {
                            &&& r == NotificationsAction::<W>::Popup(PopupAction::Close(w))
                            &&& final(self).spec_now() == old(self).spec_now()
                            &&& final(self).spec_unseen() == old(self).spec_unseen()
                        },
                        None => {
                            &&& r matches NotificationsAction::Both(
                                crate::notifications::Command::MarkSeen,
                                PopupAction::Open { anchor },
                            ) && anchor@ == anchor_text(old(self).spec_popup().spec_serial(), 0)
                            &&& final(self).spec_now() == now
                            &&& final(self).spec_unseen() == ids@
                        },
                    }
                },
                NotificationsMessage::Tick => {
                    &&& r == NotificationsAction::<W>::Nothing
                    &&& final(self).spec_now() == now
                    &&& final(self).spec_popup() == old(self).spec_popup()
                    &&& final(self).spec_unseen() == old(self).spec_unseen()
                },
                NotificationsMessage::ToggleDnd => r == NotificationsAction::<W>::Notifications(
                    crate::notifications::Command::ToggleDnd,
                ),
                NotificationsMessage::DismissAll => r == NotificationsAction::<W>::Notifications(
                    crate::notifications::Command::DismissAll,
                ),
                NotificationsMessage::Clear => r == NotificationsAction::<W>::Notifications(
                    crate::notifications::Command::Clear,
                ),
                NotificationsMessage::Toast(m) => r == NotificationsAction::<W>::Notifications(
                    crate::notifications::command_of(m),
                ),
            },
            !(message is TogglePopup || message is Tick) ==> {
                &&& final(self).spec_popup() == old(self).spec_popup()
                &&& final(self).spec_now() == old(self).spec_now()
                &&& final(self).spec_unseen() == old(self).spec_unseen()
            },
    {
        match message {
            NotificationsMessage::TogglePopup(ids) => {
                if self.popup.is_open() {
                    return NotificationsAction::Popup(self.popup.close());
                }
                self.now = now;
                self.unseen = ids;
                let open = self.popup.toggle();
                NotificationsAction::Both(crate::notifications::Command::MarkSeen, open)
            },
            NotificationsMessage::ToggleDnd => NotificationsAction::Notifications(
                crate::notifications::Command::ToggleDnd,
            ),
            NotificationsMessage::DismissAll => NotificationsAction::Notifications(
                crate::notifications::Command::DismissAll,
            ),
            NotificationsMessage::Clear => NotificationsAction::Notifications(crate::notifications::Command::Clear),
            NotificationsMessage::Toast(m) => NotificationsAction::Notifications(
                crate::notifications::Command::from(m),
            ),
            NotificationsMessage::Tick => {
                self.now = now;
                NotificationsAction::Nothing
            },
        }
    }

    /// The bell and the quiet icon.
    pub fn icon_names(&self) -> (r: Vec<String>)
        ensures
            r@.len() == 2,
            r@[0]@ == self.spec_icons().0,
            r@[1]@ == self.spec_icons().1,
    {
        vec![self.config.icon.clone(), self.config.dnd_icon.clone()]
    }

    /// The icon the bell shows: the quiet one while do-not-disturb is on.
    pub fn icon(&self, dnd: bool) -> (r: &String)
        ensures
            r@ == (if dnd { self.spec_icons().1 } else { self.spec_icons().0 }),
    {
        if dnd {
            &self.config.dnd_icon
        } else {
            &self.config.icon
        }
    }

    pub fn popup(&mut self) -> (r: &mut Popup<W>)
        ensures
            *r == old(self).spec_popup(),
            final(self).spec_popup() == *final(r),
            final(self).spec_now() == old(self).spec_now(),
            final(self).spec_unseen() == old(self).spec_unseen(),
            final(self).spec_icons() == old(self).spec_icons(),
    {
        &mut self.popup
    }

    /// Its popup went away: nothing is marked new any more.
    pub fn popup_closed(&mut self)
        ensures
            final(self).spec_unseen().len() == 0,
            final(self).spec_popup() == old(self).spec_popup(),
            final(self).spec_now() == old(self).spec_now(),
            final(self).spec_icons() == old(self).spec_icons(),
    {
        self.unseen.clear();
    }

    /// When the ages in the popup are counted from.
    pub fn now(&self) -> (r: u64)
        ensures
            r == self.spec_now(),
    {
        self.now
    }

    /// Whether notification `id` is marked new in the popup.
    pub fn is_unseen(&self, id: u32) -> (r: bool)
        ensures
            r == self.spec_unseen().contains(id),
    {
        let mut i: usize = 0;
        while i < self.unseen.len()
            invariant
                i <= self.unseen@.len(),
                forall|j: int| 0 <= j < i ==> self.unseen@[j] != id,
            decreases self.unseen@.len() - i,
        {
            if self.unseen[i] == id {
                return true;
            }
            i += 1;
        }
        false
    }
}

} // verus!
