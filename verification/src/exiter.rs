//! The exit menu: a grid of buttons (lock, suspend, hibernate, logout,
//! reboot, shutdown, and whatever `[exiter] buttons` adds), each
//! running a program; the dangerous ones ask a confirmation in place,
//! auto-confirmed after a countdown. Drawing it and running the
//! command are the caller's.
use vstd::prelude::*;

use crate::config::{opt_view, str_eq, strings_view, strs_view, RawSection, Section};
use crate::locale::Locale;
use crate::text::{chars_of, push_str, string_of, trim, trim_chars, words};

verus! {

/// What a button says: a catalogue key for the standard ones, the
/// user's text otherwise.
#[derive(Debug, Clone, PartialEq, Eq)]
pub enum Label {
    Key(&'static str),
    Text(String),
}

impl Label {
    /// The text shown in `locale`.
    pub fn text<'a>(&'a self, locale: &Locale) -> (r: &'a str)
        ensures
            r@ == (match self {
                Label::Key(k) => match crate::icons::last_value(locale.spec_texts(), k@) {
                    Some(t) => t,
                    None => k@,
                },
                Label::Text(t) => t@,
            }),
    {
        match self {
            Label::Key(key) => locale.tr(key),
            Label::Text(text) => text.as_str(),
        }
    }
}

/// What a button runs.
#[derive(Debug, Clone, PartialEq, Eq)]
pub enum Command {
    /// A command line, run as `[Custom]` commands are.
    Program(String),
    /// `auto`: the compositor ends the session itself.
    Logout,
}

pub enum CommandView {
    Program(Seq<char>),
    Logout,
}

impl Command {
    /// A field-by-field copy.
    pub fn copy(&self) -> (r: Command)
        ensures
            r@ == self@,
    {
        match self {
            Command::Program(p) => Command::Program(p.clone()),
            Command::Logout => Command::Logout,
        }
    }
}

impl View for Command {
    type V = CommandView;

    open spec fn view(&self) -> CommandView {
        match self {
            Command::Program(p) => CommandView::Program(p@),
            Command::Logout => CommandView::Logout,
        }
    }
}

pub enum LabelView {
    Key(Seq<char>),
    Text(Seq<char>),
}

#[derive(Debug, Clone, PartialEq, Eq)]
pub struct Button {
    pub name: String,
    pub label: Label,
    /// Icon names to try in order (a theme may lack the first).
    pub icons: Vec<String>,
    pub command: Command,
    pub confirm: bool,
}

pub struct ButtonView {
    pub name: Seq<char>,
    pub label: LabelView,
    pub icons: Seq<Seq<char>>,
    pub command: CommandView,
    pub confirm: bool,
}

impl View for Button {
    type V = ButtonView;

    open spec fn view(&self) -> ButtonView {
        ButtonView {
            name: self.name@,
            label: match self.label {
                Label::Key(k) => LabelView::Key(k@),
                Label::Text(t) => LabelView::Text(t@),
            },
            icons: strings_view(self.icons@),
            command: self.command@,
            confirm: self.confirm,
        }
    }
}

pub open spec fn buttons_view(v: Seq<Button>) -> Seq<ButtonView> {
    v.map_values(|b: Button| b@)
}

/// A standard button: its label key, the icons to try, its command
/// line, and whether it asks.
pub struct Standard {
    pub key: Seq<char>,
    pub icons: Seq<Seq<char>>,
    pub command: Seq<char>,
    pub confirm: bool,
}

pub open spec fn standard(name: Seq<char>) -> Option<Standard> {
    if name == "lock"@ {
        Some(Standard { key: "exiter.lock"@, icons: seq!["system-lock-screen-symbolic"@], command: "aria-shell lock"@, confirm: false })
    } else if name == "suspend"@ {
        Some(Standard {
            key: "exiter.suspend"@,
            icons: seq!["system-suspend-symbolic"@, "weather-clear-night-symbolic"@],
            command: "systemctl suspend"@,
            confirm: false,
        })
    } else if name == "hibernate"@ {
        Some(Standard {
            key: "exiter.hibernate"@,
            icons: seq!["system-hibernate-symbolic"@, "drive-harddisk-symbolic"@],
            command: "systemctl hibernate"@,
            confirm: false,
        })
    } else if name == "logout"@ {
        Some(Standard { key: "exiter.logout"@, icons: seq!["system-log-out-symbolic"@], command: "auto"@, confirm: true })
    } else if name == "reboot"@ {
        Some(Standard { key: "exiter.reboot"@, icons: seq!["system-reboot-symbolic"@], command: "systemctl reboot"@, confirm: true })
    } else if name == "shutdown"@ {
        Some(Standard { key: "exiter.shutdown"@, icons: seq!["system-shutdown-symbolic"@], command: "systemctl poweroff"@, confirm: true })
    } else {
        None
    }
}

struct StandardButton {
    key: &'static str,
    icons: Vec<&'static str>,
    command: &'static str,
    confirm: bool,
}

fn standard_button(name: &str) -> (r: Option<StandardButton>)
    ensures
        match r {
            Some(b) => standard(name@) == Some(Standard { key: b.key@, icons: strs_view(b.icons@), command: b.command@, confirm: b.confirm }),
            None => standard(name@) is None,
        },
{
    let (key, icons, command, confirm): (&'static str, Vec<&'static str>, &'static str, bool) = if str_eq(name, "lock") {
        ("exiter.lock", vec!["system-lock-screen-symbolic"], "aria-shell lock", false)
    } else if str_eq(name, "suspend") {
        ("exiter.suspend", vec!["system-suspend-symbolic", "weather-clear-night-symbolic"], "systemctl suspend", false)
    } else if str_eq(name, "hibernate") {
        ("exiter.hibernate", vec!["system-hibernate-symbolic", "drive-harddisk-symbolic"], "systemctl hibernate", false)
    } else if str_eq(name, "logout") {
        ("exiter.logout", vec!["system-log-out-symbolic"], "auto", true)
    } else if str_eq(name, "reboot") {
        ("exiter.reboot", vec!["system-reboot-symbolic"], "systemctl reboot", true)
    } else if str_eq(name, "shutdown") {
        ("exiter.shutdown", vec!["system-shutdown-symbolic"], "systemctl poweroff", true)
    } else {
        return None;
    };
    let b = StandardButton { key, icons, command, confirm };
    assert(strs_view(b.icons@) =~= standard(name@)->0.icons);
    Some(b)
}

/// The buttons of a default `[exiter]`.
pub const DEFAULT_BUTTONS: [&'static str; 6] = ["lock", "suspend", "hibernate", "logout", "reboot", "shutdown"];

/// The buttons of a default `[exiter]`, as text.
pub open spec fn default_buttons() -> Seq<Seq<char>> {
    seq!["lock"@, "suspend"@, "hibernate"@, "logout"@, "reboot"@, "shutdown"@]
}

/// The command line of button `name`: its key, else a standard
/// button's, `!` in front when it asks.
pub open spec fn button_line(raw: RawSection, name: Seq<char>) -> Option<Seq<char>> {
    match raw.value(name) {
        Some(l) => Some(l),
        None => match standard(name) {
            Some(s) => Some(if s.confirm { "!"@ + s.command } else { s.command }),
            None => None,
        },
    }
}

/// The button `name` of a section, or none when it has no command.
pub open spec fn button_of(raw: RawSection, name: Seq<char>) -> Option<ButtonView> {
    match button_line(raw, name) {
        None => None,
        Some(line) => {
            let confirm = line.len() > 0 && line[0] == '!';
            let cmd = if confirm { trim(line.drop_first()) } else { line };
            Some(ButtonView {
                name,
                label: match raw.value(name + "_label"@) {
                    Some(t) => LabelView::Text(t),
                    None => match standard(name) {
                        Some(s) => LabelView::Key(s.key),
                        None => LabelView::Text(name),
                    },
                },
                icons: match raw.value(name + "_icon"@) {
                    Some(i) => seq![i],
                    None => match standard(name) {
                        Some(s) => s.icons,
                        None => seq![],
                    },
                },
                command: if cmd == "auto"@ { CommandView::Logout } else { CommandView::Program(cmd) },
                confirm,
            })
        },
    }
}

pub open spec fn buttons_of(raw: RawSection, names: Seq<Seq<char>>) -> Seq<ButtonView>
    decreases names.len(),
{
    if names.len() == 0 {
        seq![]
    } else {
        match button_of(raw, names.last()) {
            Some(b) => buttons_of(raw, names.drop_last()).push(b),
            None => buttons_of(raw, names.drop_last()),
        }
    }
}

/// `[exiter]` section.
#[derive(Debug, Clone, PartialEq, Eq)]
pub struct ExiterConfig {
    /// Buttons per row, 1..=10.
    pub columns: usize,
    /// Whether `!` commands ask before running.
    pub ask_confirm: bool,
    /// Seconds before a pending confirmation runs by itself; 0 waits
    /// forever.
    pub confirm_timeout: u64,
    /// In the order of `buttons =`.
    pub buttons: Vec<Button>,
}

fn with_suffix(name: &String, suffix: &str) -> (r: String)
    ensures
        r@ == name@ + suffix@,
{
    let mut v = chars_of(name.as_str());
    push_str(&mut v, suffix);
    string_of(v.as_slice())
}

fn make_button(raw: &RawSection, name: String) -> (r: Option<Button>)
    ensures
        match r {
            Some(b) => button_of(*raw, name@) == Some(b@),
            None => button_of(*raw, name@) is None,
        },
{
    let std_b = standard_button(name.as_str());
    let line: String = match raw.get(name.as_str()) {
        Some(l) => crate::text::owned(l),
        None => match &std_b {
            Some(s) => {
                let mut v: Vec<char> = Vec::new();
                if s.confirm {
                    v.push('!');
                }
                push_str(&mut v, s.command);
                proof {
                    reveal_strlit("!");
                    assert("!"@ =~= seq!['!']);
                    if s.confirm {
                        assert(v@ =~= "!"@ + s.command@);
                    } else {
                        assert(v@ =~= s.command@);
                    }
                }
                string_of(v.as_slice())
            },
            None => return None,
        },
    };
    assert(Some(line@) == button_line(*raw, name@));
    let lc = chars_of(line.as_str());
    let confirm = lc.len() > 0 && lc[0] == '!';
    let cmd: Vec<char> = if confirm {
        let rest = crate::text::slice_vec(lc.as_slice(), 1, lc.len());
        assert(rest@ =~= lc@.drop_first());
        trim_chars(rest.as_slice())
    } else {
        lc
    };
    let command = if crate::text::eq_str(cmd.as_slice(), "auto") {
        Command::Logout
    } else {
        Command::Program(string_of(cmd.as_slice()))
    };
    let label_key = with_suffix(&name, "_label");
    let label = match raw.get(label_key.as_str()) {
        Some(t) => Label::Text(crate::text::owned(t)),
        None => match &std_b {
            Some(s) => Label::Key(s.key),
            None => Label::Text(name.clone()),
        },
    };
    let icon_key = with_suffix(&name, "_icon");
    let icons: Vec<String> = match raw.get(icon_key.as_str()) {
        Some(i) => {
            let mut v: Vec<String> = Vec::new();
            v.push(crate::text::owned(i));
            assert(strings_view(v@) =~= seq![i@]);
            v
        },
        None => match &std_b {
            Some(s) => crate::config::owned_all(s.icons.as_slice()),
            None => {
                let v: Vec<String> = Vec::new();
                assert(strings_view(v@) =~= Seq::<Seq<char>>::empty());
                v
            },
        },
    };
    let b = Button { name, label, icons, command, confirm };
    assert(b@.command == button_of(*raw, name@)->0.command);
    assert(b@.label == button_of(*raw, name@)->0.label);
    assert(b@.icons == button_of(*raw, name@)->0.icons);
    Some(b)
}

impl ExiterConfig {
    /// The section's keys: `columns` (3, kept within 1..=10),
    /// `ask_confirm` (yes), `confirm_timeout` (30 s), and `buttons`
    /// (the standard six), each `name = [!]command` with optional
    /// `name_label` and `name_icon`; a button without a command is
    /// skipped.
    pub fn from_section(raw: &RawSection) -> (r: ExiterConfig)
        ensures
            ({
                let c = crate::sysmon::number_or(*raw, "columns"@, 3);
                r.columns == (if c < 1 { 1 } else if c > 10 { 10 } else { c })
            }),
            r.ask_confirm == crate::notifications::flag_or(raw, "ask_confirm"@, true),
            r.confirm_timeout == crate::sysmon::number_or(*raw, "confirm_timeout"@, 30),
            buttons_view(r.buttons@) == buttons_of(
                *raw,
                match raw.value("buttons"@) {
                    Some(v) => words(v),
                    None => default_buttons(),
                },
            ),
    {
        let c = raw.u64_or("columns", 3);
        let columns: usize = if c < 1 { 1 } else if c > 10 { 10 } else { c as usize };
        let defaults = DEFAULT_BUTTONS;
        assert(strs_view(defaults@) =~= default_buttons());
        let names = raw.list_or("buttons", &defaults);
        let ghost nv = strings_view(names@);
        let mut buttons: Vec<Button> = Vec::new();
        let mut i: usize = 0;
        assert(nv.take(0) =~= Seq::<Seq<char>>::empty());
        assert(buttons_view(buttons@) =~= Seq::<ButtonView>::empty());
        while i < names.len()
            invariant
                i <= names.len(),
                nv == strings_view(names@),
                buttons_view(buttons@) == buttons_of(*raw, nv.take(i as int)),
            decreases names.len() - i,
        {
            assert(nv.take(i + 1).drop_last() =~= nv.take(i as int));
            assert(nv.take(i + 1).last() == names@[i as int]@);
            match make_button(raw, names[i].clone()) {
                Some(b) => {
                    let ghost b0 = buttons_view(buttons@);
                    let ghost bv = b@;
                    buttons.push(b);
                    assert(buttons_view(buttons@) =~= b0.push(bv));
                },
                None => {},
            }
            i = i + 1;
        }
        assert(nv.take(names.len() as int) =~= nv);
        ExiterConfig {
            columns,
            ask_confirm: raw.bool_or("ask_confirm", true),
            confirm_timeout: raw.u64_or("confirm_timeout", 30),
            buttons,
        }
    }

    /// The button `name`, the first with it.
    pub fn button(&self, name: &str) -> (r: Option<&Button>)
        ensures
            match r {
                Some(b) => exists|i: int| 0 <= i < self.buttons@.len() && self.buttons@[i] == *b && b.name@ == name@
                    && forall|j: int| 0 <= j < i ==> #[trigger] self.buttons@[j].name@ != name@,
                None => forall|j: int| 0 <= j < self.buttons@.len() ==> #[trigger] self.buttons@[j].name@ != name@,
            },
    {
        match self.position(name) {
            Some(i) => Some(&self.buttons[i]),
            None => None,
        }
    }

    /// Index of the button `name`, the first with it.
    pub fn position(&self, name: &str) -> (r: Option<usize>)
        ensures
            match r {
                Some(i) => i < self.buttons@.len() && self.buttons@[i as int].name@ == name@
                    && forall|j: int| 0 <= j < i ==> #[trigger] self.buttons@[j].name@ != name@,
                None => forall|j: int| 0 <= j < self.buttons@.len() ==> #[trigger] self.buttons@[j].name@ != name@,
            },
    {
        let mut i: usize = 0;
        while i < self.buttons.len()
            invariant
                i <= self.buttons.len(),
                forall|j: int| 0 <= j < i ==> #[trigger] self.buttons@[j].name@ != name@,
            decreases self.buttons.len() - i,
        {
            if str_eq(self.buttons[i].name.as_str(), name) {
                return Some(i);
            }
            i = i + 1;
        }
        None
    }
}

impl Section for ExiterConfig {
    open spec fn read_from(raw: &RawSection, r: ExiterConfig) -> bool {
        &&& (({
            let c = crate::sysmon::number_or(*raw, "columns"@, 3);
            r.columns == (if c < 1 { 1 } else if c > 10 { 10 } else { c })
        }))
        &&& (r.ask_confirm == crate::notifications::flag_or(raw, "ask_confirm"@, true))
        &&& (r.confirm_timeout == crate::sysmon::number_or(*raw, "confirm_timeout"@, 30))
        &&& (buttons_view(r.buttons@) == buttons_of(
            *raw,
            match raw.value("buttons"@) {
                Some(v) => words(v),
                None => default_buttons(),
            },
        ))
    }

    fn section_name() -> &'static str {
        "exiter"
    }

    fn from_raw(raw: &RawSection) -> (r: ExiterConfig) {
        ExiterConfig::from_section(raw)
    }
}


// ---------------------------------------------------------------------
// The menu
// ---------------------------------------------------------------------

#[derive(Debug, Clone, Copy, PartialEq, Eq, Structural)]
pub enum Message {
    /// A click on that button.
    Activate(usize),
    Left,
    Right,
    Up,
    Down,
    Enter,
    /// Esc: back to the grid, or close.
    Escape,
    Cancel,
    /// The confirmation's OK button.
    Accept,
    /// A second went by.
    Tick,
    /// The keyboard left the surface.
    Unfocused,
    /// A press the dialog's content took.
    Nothing,
}

/// What the caller does after a message.
#[derive(Debug, Clone, PartialEq, Eq)]
pub enum Action {
    /// Keep the menu open (and redraw it).
    Stay,
    /// Run this and close.
    Perform(Command),
    Close,
}

/// A button waiting for its confirmation, and the seconds before it
/// runs by itself when there is a timeout.
#[derive(Debug, Clone, Copy, PartialEq, Eq, Structural)]
pub struct Confirm {
    pub button: usize,
    pub left: Option<u64>,
}

pub struct Exiter {
    config: ExiterConfig,
    selected: usize,
    confirm: Option<Confirm>,
}

/// The state a message acts on: the buttons, the columns, whether `!`
/// asks, the timeout, the selection and the pending confirmation.
pub struct MenuState {
    pub buttons: Seq<ButtonView>,
    pub columns: int,
    pub ask_confirm: bool,
    pub timeout: u64,
    pub selected: int,
    pub confirm: Option<Confirm>,
}

pub enum ActionView {
    Stay,
    Perform(CommandView),
    Close,
}

pub open spec fn action_view(a: Action) -> ActionView {
    match a {
        Action::Stay => ActionView::Stay,
        Action::Perform(c) => ActionView::Perform(c@),
        Action::Close => ActionView::Close,
    }
}

/// A confirmation for `button`, with the full timeout.
pub open spec fn pending(st: MenuState, button: usize) -> Confirm {
    Confirm { button, left: if st.timeout > 0 { Some(st.timeout) } else { None } }
}

/// Activating button `i`: its confirmation, or its command.
pub open spec fn activated(st: MenuState, i: int) -> (MenuState, ActionView) {
    if !(0 <= i < st.buttons.len()) {
        (st, ActionView::Stay)
    } else if st.buttons[i].confirm && st.ask_confirm {
        (MenuState { selected: i, confirm: Some(pending(st, i as usize)), ..st }, ActionView::Stay)
    } else {
        (MenuState { selected: i, ..st }, ActionView::Perform(st.buttons[i].command))
    }
}

/// The command confirmed, or close when nothing is pending.
pub open spec fn confirmed(st: MenuState) -> ActionView {
    match st.confirm {
        Some(c) => if c.button < st.buttons.len() {
            ActionView::Perform(st.buttons[c.button as int].command)
        } else {
            ActionView::Close
        },
        None => ActionView::Close,
    }
}

/// The selection moved by `delta` buttons, wrapping; not while a
/// confirmation shows.
pub open spec fn stepped(st: MenuState, delta: int) -> MenuState {
    if st.buttons.len() > 0 && st.confirm is None {
        MenuState { selected: (st.selected + delta) % (st.buttons.len() as int), ..st }
    } else {
        st
    }
}

/// What a message does to the menu, and what the caller does next.
pub open spec fn menu_step(st: MenuState, m: Message) -> (MenuState, ActionView) {
    match m {
        Message::Activate(i) => activated(st, i as int),
        Message::Left => (stepped(st, -1), ActionView::Stay),
        Message::Right => (stepped(st, 1), ActionView::Stay),
        Message::Up => (stepped(st, -st.columns), ActionView::Stay),
        Message::Down => (stepped(st, st.columns), ActionView::Stay),
        Message::Enter => if st.confirm is Some {
            (st, confirmed(st))
        } else {
            activated(st, st.selected)
        },
        Message::Accept => (st, confirmed(st)),
        Message::Cancel => (MenuState { confirm: None, ..st }, ActionView::Stay),
        Message::Escape => if st.confirm is Some {
            (MenuState { confirm: None, ..st }, ActionView::Stay)
        } else {
            (st, ActionView::Close)
        },
        Message::Tick => match st.confirm {
            Some(c) => match c.left {
                Some(l) => {
                    let l2: u64 = if l > 0 { (l - 1) as u64 } else { 0 };
                    let st2 = MenuState { confirm: Some(Confirm { left: Some(l2), ..c }), ..st };
                    if l2 == 0 {
                        (st2, confirmed(st2))
                    } else {
                        (st2, ActionView::Stay)
                    }
                },
                None => (st, ActionView::Stay),
            },
            None => (st, ActionView::Stay),
        },
        Message::Unfocused => (st, ActionView::Close),
        Message::Nothing => (st, ActionView::Stay),
    }
}

proof fn lemma_small_wrap(s: int, m: int, n: int)
    requires
        0 <= s < n,
        0 <= m <= n,
    ensures
        (s + m) % n == (if s + m >= n { s + m - n } else { s + m }),
{
    if s + m >= n {
        vstd::arithmetic::div_mod::lemma_mod_multiples_vanish(1, s + m - n, n);
        assert(n * 1 + (s + m - n) == s + m);
        vstd::arithmetic::div_mod::lemma_small_mod((s + m - n) as nat, n as nat);
    } else {
        vstd::arithmetic::div_mod::lemma_small_mod((s + m) as nat, n as nat);
    }
}

proof fn lemma_wrap(s: int, c: int, n: int)
    requires
        n > 0,
        0 <= s < n,
        c >= 0,
    ensures
        (s + c % n) % n == (s + c) % n,
        (s + n - c % n) % n == (s - c) % n,
{
    vstd::arithmetic::div_mod::lemma_fundamental_div_mod(c, n);
    let q = c / n;
    let r = c % n;
    assert(c == n * q + r);
    vstd::arithmetic::div_mod::lemma_mod_multiples_vanish(q, s + r, n);
    assert((s + r + n * q) % n == (s + r) % n);
    assert(s + c == s + r + n * q);
    vstd::arithmetic::div_mod::lemma_mod_multiples_vanish(-q - 1, s + n - r, n);
    assert(s - c == (s + n - r) + n * (-q - 1)) by (nonlinear_arith)
        requires
            c == n * q + r,
    ;
}

/// The text of catalogue key `key`: the last catalogue's that has it,
/// else the key itself.
pub open spec fn tr_of(texts: Seq<(Seq<char>, Seq<char>)>, key: Seq<char>) -> Seq<char> {
    match crate::icons::last_value(texts, key) {
        Some(t) => t,
        None => key,
    }
}

/// What a button's label says with the catalogue `texts`.
pub open spec fn label_text(l: LabelView, texts: Seq<(Seq<char>, Seq<char>)>) -> Seq<char> {
    match l {
        LabelView::Key(k) => tr_of(texts, k),
        LabelView::Text(t) => t,
    }
}

/// The button grid for `n` buttons in at most `columns` columns:
/// (columns, rows), at least one button's worth.
pub open spec fn grid_of(n: nat, columns: nat) -> (nat, nat) {
    let n1: nat = if n >= 1 { n } else { 1 };
    let cols: nat = if columns <= n1 { columns } else { n1 };
    (cols, if cols > 0 { ((n1 + cols - 1) as int / cols as int) as nat } else { 0 })
}

impl Exiter {
    pub closed spec fn state(&self) -> MenuState {
        MenuState {
            buttons: buttons_view(self.config.buttons@),
            columns: self.config.columns as int,
            ask_confirm: self.config.ask_confirm,
            timeout: self.config.confirm_timeout,
            selected: self.selected as int,
            confirm: self.confirm,
        }
    }

    /// The selection is a button (or 0 without any).
    pub closed spec fn wf(&self) -> bool {
        self.selected < self.config.buttons.len() || self.selected == 0
    }

    pub fn new(config: ExiterConfig) -> (r: Exiter)
        ensures
            r.wf(),
            r.state().buttons == buttons_view(config.buttons@),
            r.state().columns == config.columns,
            r.state().ask_confirm == config.ask_confirm,
            r.state().timeout == config.confirm_timeout,
            r.state().selected == 0,
            r.state().confirm is None,
    {
        Exiter { config, selected: 0, confirm: None }
    }

    /// Open straight on the confirmation of button `name` (from the
    /// launcher's row); `None` when there's no such button.
    pub fn confirming(config: ExiterConfig, name: &str) -> (r: Option<Exiter>)
        ensures
            match r {
                Some(e) => e.wf() && e.state().buttons == buttons_view(config.buttons@)
                    && 0 <= e.state().selected < config.buttons@.len()
                    && config.buttons@[e.state().selected].name@ == name@
                    && (forall|j: int| 0 <= j < e.state().selected ==> #[trigger] config.buttons@[j].name@ != name@)
                    && e.state().confirm == Some(pending(e.state(), e.state().selected as usize)),
                None => forall|j: int| 0 <= j < config.buttons@.len() ==> #[trigger] config.buttons@[j].name@ != name@,
            },
    {
        let i = match config.position(name) {
            Some(i) => i,
            None => return None,
        };
        let left = if config.confirm_timeout > 0 { Some(config.confirm_timeout) } else { None };
        Some(Exiter { config, selected: i, confirm: Some(Confirm { button: i, left }) })
    }

    /// The button selected.
    pub fn selected(&self) -> (r: usize)
        ensures
            r == self.state().selected,
    {
        self.selected
    }

    /// The confirmation pending, if any.
    pub fn confirm(&self) -> (r: Option<Confirm>)
        ensures
            r == self.state().confirm,
    {
        self.confirm
    }

    /// The texts of the pending confirmation: the question naming the
    /// button, the seconds left when it runs by itself, and the button.
    pub fn confirm_texts(&self, locale: &Locale) -> (r: Option<(String, Option<String>, usize)>)
        ensures
            match self.state().confirm {
                Some(c) if c.button < self.state().buttons.len() => r matches Some((q, left, b)) && b == c.button
                    && q@ == crate::locale::fill(
                    tr_of(locale.spec_texts(), "exiter.confirm"@),
                    seq![("action"@, label_text(self.state().buttons[c.button as int].label, locale.spec_texts()))],
                ) && match c.left {
                    Some(n) => left matches Some(t) && t@ == crate::locale::fill(
                        tr_of(locale.spec_texts(), "exiter.countdown"@),
                        seq![("n"@, crate::text::decimal(n as nat))],
                    ),
                    None => left is None,
                },
                _ => r is None,
            },
    {
        let c = match self.confirm {
            Some(c) => c,
            None => return None,
        };
        if c.button >= self.config.buttons.len() {
            return None;
        }
        let button = &self.config.buttons[c.button];
        assert(self.state().buttons[c.button as int] == button@);
        let action = crate::text::owned(button.label.text(locale));
        let args = [("action", action)];
        assert(crate::locale::args_view(args@) =~= seq![("action"@, label_text(button@.label, locale.spec_texts()))]) by {
            reveal_strlit("action");
        }
        let question = locale.fmt("exiter.confirm", &args);
        let left = match c.left {
            Some(n) => {
                let nargs = [("n", crate::text::decimal_of(n))];
                assert(crate::locale::args_view(nargs@) =~= seq![("n"@, crate::text::decimal(n as nat))]);
                Some(locale.fmt("exiter.countdown", &nargs))
            },
            None => None,
        };
        Some((question, left, c.button))
    }

    /// The button grid: (columns, rows) for the buttons in at most the
    /// configured columns.
    pub fn grid(&self) -> (r: (usize, usize))
        ensures
            r.0 as nat == grid_of(self.state().buttons.len(), self.state().columns as nat).0,
            r.1 as nat == grid_of(self.state().buttons.len(), self.state().columns as nat).1,
    {
        let n = if self.config.buttons.len() >= 1 { self.config.buttons.len() } else { 1 };
        let cols = if self.config.columns <= n { self.config.columns } else { n };
        if cols == 0 {
            return (0, 0);
        }
        let q = n / cols;
        let rows = if n % cols == 0 {
            q
        } else {
            assert(q < n) by (nonlinear_arith)
                requires
                    q == n / cols,
                    n % cols != 0,
                    cols > 0,
                    n >= 1,
            ;
            q + 1
        };
        assert(rows as int == (n + cols - 1) as int / cols as int) by (nonlinear_arith)
            requires
                rows as int == n as int / cols as int + if n as int % cols as int == 0 { 0int } else { 1int },
                cols > 0,
                n >= 1,
        ;
        (cols, rows)
    }

    /// Icon names the menu may draw, for the caller to resolve.
    pub fn icon_names(&self) -> (r: Vec<String>)
        ensures
            strings_view(r@) == all_icons(self.state().buttons),
    {
        let ghost bv = buttons_view(self.config.buttons@);
        let mut r: Vec<String> = Vec::new();
        let mut i: usize = 0;
        assert(bv.take(0) =~= Seq::<ButtonView>::empty());
        assert(strings_view(r@) =~= Seq::<Seq<char>>::empty());
        while i < self.config.buttons.len()
            invariant
                i <= self.config.buttons.len(),
                bv == buttons_view(self.config.buttons@),
                strings_view(r@) == all_icons(bv.take(i as int)),
            decreases self.config.buttons.len() - i,
        {
            assert(bv.take(i + 1).drop_last() =~= bv.take(i as int));
            assert(bv.take(i + 1).last() == self.config.buttons@[i as int]@);
            let icons = &self.config.buttons[i].icons;
            let ghost r0 = strings_view(r@);
            let mut k: usize = 0;
            while k < icons.len()
                invariant
                    k <= icons.len(),
                    strings_view(r@) == r0 + strings_view(icons@).take(k as int),
                decreases icons.len() - k,
            {
                let ghost r1 = strings_view(r@);
                r.push(icons[k].clone());
                assert(strings_view(r@) =~= r1.push(icons@[k as int]@));
                assert(strings_view(icons@).take(k + 1) =~= strings_view(icons@).take(k as int).push(icons@[k as int]@));
                k = k + 1;
            }
            assert(strings_view(icons@).take(icons.len() as int) =~= strings_view(icons@));
            i = i + 1;
        }
        assert(bv.take(self.config.buttons.len() as int) =~= bv);
        r
    }

    fn perform_confirmed(&self) -> (r: Action)
        ensures
            action_view(r) == confirmed(self.state()),
    {
        match self.confirm {
            Some(c) => if c.button < self.config.buttons.len() {
                Action::Perform(self.config.buttons[c.button].command.copy())
            } else {
                Action::Close
            },
            None => Action::Close,
        }
    }

    fn activate(&mut self, i: usize) -> (r: Action)
        requires
            old(self).wf(),
        ensures
            final(self).wf(),
            (final(self).state(), action_view(r)) == activated(old(self).state(), i as int),
    {
        if i >= self.config.buttons.len() {
            return Action::Stay;
        }
        self.selected = i;
        let b = &self.config.buttons[i];
        if b.confirm && self.config.ask_confirm {
            let left = if self.config.confirm_timeout > 0 { Some(self.config.confirm_timeout) } else { None };
            self.confirm = Some(Confirm { button: i, left });
            Action::Stay
        } else {
            Action::Perform(b.command.copy())
        }
    }

    fn step(&mut self, delta: usize, forward: bool)
        requires
            old(self).wf(),
        ensures
            final(self).wf(),
            final(self).state() == stepped(old(self).state(), if forward { delta as int } else { -(delta as int) }),
    {
        let n = self.config.buttons.len();
        if n > 0 && self.confirm.is_none() {
            let m = delta % n;
            proof {
                lemma_wrap(self.selected as int, delta as int, n as int);
            }
            let sel = self.selected;
            let next = if forward {
                if sel >= n - m { sel - (n - m) } else { sel + m }
            } else {
                if sel >= m { sel - m } else { sel + (n - m) }
            };
            proof {
                lemma_small_wrap(sel as int, if forward { m as int } else { (n - m) as int }, n as int);
            }
            self.selected = next;
        }
    }

    /// What a message does; see [`menu_step`].
    pub fn update(&mut self, message: Message) -> (r: Action)
        requires
            old(self).wf(),
        ensures
            final(self).wf(),
            (final(self).state(), action_view(r)) == menu_step(old(self).state(), message),
    {
        match message {
            Message::Activate(i) => self.activate(i),
            Message::Left => {
                self.step(1, false);
                Action::Stay
            },
            Message::Right => {
                self.step(1, true);
                Action::Stay
            },
            Message::Up => {
                let c = self.config.columns;
                self.step(c, false);
                Action::Stay
            },
            Message::Down => {
                let c = self.config.columns;
                self.step(c, true);
                Action::Stay
            },
            Message::Enter => {
                if self.confirm.is_some() {
                    self.perform_confirmed()
                } else {
                    let s = self.selected;
                    self.activate(s)
                }
            },
            Message::Accept => self.perform_confirmed(),
            Message::Cancel => {
                self.confirm = None;
                Action::Stay
            },
            Message::Escape => {
                if self.confirm.is_some() {
                    self.confirm = None;
                    Action::Stay
                } else {
                    Action::Close
                }
            },
            Message::Tick => match self.confirm {
                Some(c) => match c.left {
                    Some(l) => {
                        let l2 = if l > 0 { l - 1 } else { 0 };
                        self.confirm = Some(Confirm { button: c.button, left: Some(l2) });
                        if l2 == 0 {
                            self.perform_confirmed()
                        } else {
                            Action::Stay
                        }
                    },
                    None => Action::Stay,
                },
                None => Action::Stay,
            },
            Message::Unfocused => Action::Close,
            Message::Nothing => Action::Stay,
        }
    }
}

/// The menu after `k` ticks.
pub open spec fn after_ticks(st: MenuState, k: nat) -> MenuState
    decreases k,
{
    if k == 0 {
        st
    } else {
        menu_step(after_ticks(st, (k - 1) as nat), Message::Tick).0
    }
}

proof fn lemma_ticks_count_down(st: MenuState, b: usize, l: u64, j: nat)
    requires
        st.confirm == Some(Confirm { button: b, left: Some(l) }),
        j < l,
    ensures
        after_ticks(st, j) == (MenuState { confirm: Some(Confirm { button: b, left: Some((l - j) as u64) }), ..st }),
    decreases j,
{
    if j > 0 {
        lemma_ticks_count_down(st, b, l, (j - 1) as nat);
    }
}

/// A confirmation with a timeout of `T` seconds counts itself down:
/// once a button that asks is activated, the first `T - 1` ticks keep the
/// menu open and the `T`th performs the button's command.
pub proof fn the_countdown_performs_on_its_last_tick(st: MenuState, i: usize, j: nat)
    requires
        st.ask_confirm,
        st.timeout > 0,
        i < st.buttons.len(),
        st.buttons[i as int].confirm,
        j < st.timeout,
    ensures
        activated(st, i as int).1 == ActionView::Stay,
        menu_step(after_ticks(activated(st, i as int).0, j), Message::Tick).1 == (if j + 1 < st.timeout {
            ActionView::Stay
        } else {
            ActionView::Perform(st.buttons[i as int].command)
        }),
{
    let p = activated(st, i as int).0;
    lemma_ticks_count_down(p, i, st.timeout, j);
    let q = after_ticks(p, j);
    assert(q.confirm == Some(Confirm { button: i, left: Some((st.timeout - j) as u64) }));
    assert(q.buttons == st.buttons);
}

/// Without `ask_confirm` no button asks: no message opens a
/// confirmation.
pub proof fn nothing_asks_without_confirmation(st: MenuState, m: Message)
    requires
        !st.ask_confirm,
        st.confirm is None,
    ensures
        menu_step(st, m).0.confirm is None,
{
}

/// The arrows wrap: moving back then forth by the same step comes back
/// to the same button.
pub proof fn steps_undo_each_other(st: MenuState, delta: int)
    requires
        0 <= st.selected < st.buttons.len(),
    ensures
        stepped(stepped(st, -delta), delta).selected == st.selected,
{
    if st.buttons.len() > 0 && st.confirm is None {
        let n = st.buttons.len() as int;
        let a = (st.selected - delta) % n;
        vstd::arithmetic::div_mod::lemma_fundamental_div_mod(st.selected - delta, n);
        let q = (st.selected - delta) / n;
        assert(a + delta == st.selected + n * (-q)) by (nonlinear_arith)
            requires
                st.selected - delta == n * q + a,
        ;
        vstd::arithmetic::div_mod::lemma_mod_multiples_vanish(-q, st.selected, n);
        vstd::arithmetic::div_mod::lemma_small_mod(st.selected as nat, n as nat);
    }
}

/// Every button's icon names, in order.
pub open spec fn all_icons(bs: Seq<ButtonView>) -> Seq<Seq<char>>
    decreases bs.len(),
{
    if bs.len() == 0 {
        seq![]
    } else {
        all_icons(bs.drop_last()) + bs.last().icons
    }
}

} // verus!
