//! The lock screen's state: the password typed, whether it shows in
//! clear, whether PAM is checking it and what it answered. The lock
//! surfaces, the clock, the avatar and the PAM conversation are the
//! caller's; [`Locker::update`] says what to do next.
use vstd::prelude::*;

use crate::config::{RawSection, Section};
use crate::icons::last_value;
use crate::locale::Locale;
use crate::notifications::{flag_or, text_or};
use crate::text::{chars_of, split_char, split_on, string_of, trim, trim_chars};

verus! {

/// `std::path::Path::exists`: whether something is at `path` now.
/// Nothing is stated of the answer: it is the disk's.
#[verifier::external_body]
fn path_exists(path: &str) -> (r: bool) {
    std::path::Path::new(path).exists()
}

/// The PAM service when the config names none: ours when its file is
/// installed, else `login`.
pub fn service_for(installed: bool) -> (r: &'static str)
    ensures
        r@ == (if installed {
            "aria-shell"@
        } else {
            "login"@
        }),
{
    if installed {
        "aria-shell"
    } else {
        "login"
    }
}

/// The PAM service to start when the config doesn't say:
/// `aria-shell` when `/etc/pam.d/aria-shell` is installed, else `login`.
pub fn default_service() -> (r: &'static str)
    ensures
        r@ == "aria-shell"@ || r@ == "login"@,
{
    service_for(path_exists("/etc/pam.d/aria-shell"))
}

/// `[locker]` section.
#[derive(Debug)]
pub struct LockerConfig {
    /// Ask the password; off, Enter or the button unlocks.
    pub password_prompt: bool,
    pub show_avatar: bool,
    pub show_username: bool,
    pub show_time: bool,
    pub show_date: bool,
    pub time_format: String,
    pub date_format: String,
    /// The PAM service the password is checked with.
    pub pam_service: String,
}

impl LockerConfig {
    /// The section's keys; every `show_*` and `password_prompt` default
    /// to yes, the formats to `%H:%M` and `%A %d %B`, and a missing or
    /// empty `pam_service` to `fallback`.
    pub fn from_section(raw: &RawSection, fallback: &str) -> (r: LockerConfig)
        ensures
            r.password_prompt == flag_or(raw, "password_prompt"@, true),
            r.show_avatar == flag_or(raw, "show_avatar"@, true),
            r.show_username == flag_or(raw, "show_username"@, true),
            r.show_time == flag_or(raw, "show_time"@, true),
            r.show_date == flag_or(raw, "show_date"@, true),
            r.time_format@ == text_or(raw, "time_format"@, "%H:%M"@),
            r.date_format@ == text_or(raw, "date_format"@, "%A %d %B"@),
            r.pam_service@ == text_or(raw, "pam_service"@, fallback@),
    {
        LockerConfig {
            password_prompt: raw.bool_or("password_prompt", true),
            show_avatar: raw.bool_or("show_avatar", true),
            show_username: raw.bool_or("show_username", true),
            show_time: raw.bool_or("show_time", true),
            show_date: raw.bool_or("show_date", true),
            time_format: raw.str_or("time_format", "%H:%M"),
            date_format: raw.str_or("date_format", "%A %d %B"),
            pam_service: raw.str_or("pam_service", fallback),
        }
    }
}

impl Section for LockerConfig {
    open spec fn read_from(raw: &RawSection, r: LockerConfig) -> bool {
        exists|f: Seq<char>| (f == "aria-shell"@ || f == "login"@) && ({
            &&& (r.password_prompt == flag_or(raw, "password_prompt"@, true))
            &&& (r.show_avatar == flag_or(raw, "show_avatar"@, true))
            &&& (r.show_username == flag_or(raw, "show_username"@, true))
            &&& (r.show_time == flag_or(raw, "show_time"@, true))
            &&& (r.show_date == flag_or(raw, "show_date"@, true))
            &&& (r.time_format@ == text_or(raw, "time_format"@, "%H:%M"@))
            &&& (r.date_format@ == text_or(raw, "date_format"@, "%A %d %B"@))
            &&& (r.pam_service@ == text_or(raw, "pam_service"@, f))
        })
    }

    fn section_name() -> &'static str {
        "locker"
    }

    fn from_raw(raw: &RawSection) -> (r: LockerConfig) {
        LockerConfig::from_section(raw, default_service())
    }
}

/// The eye button's icons: show the password, hide it again.
pub const PEEK_ICON: &'static str = "view-reveal-symbolic";
pub const CONCEAL_ICON: &'static str = "view-conceal-symbolic";

/// Where the password check stands.
#[derive(Debug, PartialEq, Eq)]
pub enum State {
    Idle,
    /// PAM is checking the password.
    Busy,
    /// The last attempt failed, with PAM's message when it gave one.
    Failed(Option<String>),
}

pub enum StateView {
    Idle,
    Busy,
    Failed(Option<Seq<char>>),
}

pub open spec fn state_view(s: State) -> StateView {
    match s {
        State::Idle => StateView::Idle,
        State::Busy => StateView::Busy,
        State::Failed(t) => StateView::Failed(crate::config::opt_view(t)),
    }
}

/// What the lock screen is told.
pub enum Message {
    Password(String),
    /// Enter, or the Unlock button.
    Submit,
    /// The eye button: show/hide the password.
    TogglePeek,
    /// What PAM answered: its words on a refusal.
    AuthDone(Result<(), String>),
}

pub enum MessageView {
    Password(Seq<char>),
    Submit,
    TogglePeek,
    Accepted,
    Refused(Seq<char>),
}

pub open spec fn message_view(m: Message) -> MessageView {
    match m {
        Message::Password(p) => MessageView::Password(p@),
        Message::Submit => MessageView::Submit,
        Message::TogglePeek => MessageView::TogglePeek,
        Message::AuthDone(Ok(())) => MessageView::Accepted,
        Message::AuthDone(Err(e)) => MessageView::Refused(e@),
    }
}

/// What the caller does next.
#[derive(Debug)]
pub enum Action {
    Nothing,
    /// Give the password field the keyboard again.
    Focus,
    /// Check `password` for `user` with PAM's `service`, off the UI
    /// thread, and answer with `Message::AuthDone`.
    Authenticate { service: String, user: String, password: String },
    /// End the lock.
    Unlock,
}

pub enum ActionView {
    Nothing,
    Focus,
    Authenticate(Seq<char>, Seq<char>, Seq<char>),
    Unlock,
}

pub open spec fn action_view(a: Action) -> ActionView {
    match a {
        Action::Nothing => ActionView::Nothing,
        Action::Focus => ActionView::Focus,
        Action::Authenticate { service, user, password } => ActionView::Authenticate(service@, user@, password@),
        Action::Unlock => ActionView::Unlock,
    }
}

/// What the lock screen keeps between messages.
pub struct LockView {
    pub prompt: bool,
    pub service: Seq<char>,
    pub login: Seq<char>,
    pub password: Seq<char>,
    pub peek: bool,
    pub state: StateView,
}

/// PAM's words are shown unless they are only its generic refusal.
pub open spec fn refusal_text(e: Seq<char>) -> Option<Seq<char>> {
    if e != "Authentication failure"@ && e.len() > 0 {
        Some(e)
    } else {
        None
    }
}

/// One message: typing is ignored while PAM checks; a submit without a
/// prompt unlocks, while busy does nothing, else hands the password
/// (clearing the field) to PAM; PAM's yes unlocks, its no is kept for
/// the view.
pub open spec fn lock_step(s: LockView, m: MessageView) -> (LockView, ActionView) {
    match m {
        MessageView::Password(p) => if s.state is Busy {
            (s, ActionView::Nothing)
        } else {
            (LockView { password: p, state: StateView::Idle, ..s }, ActionView::Nothing)
        },
        MessageView::TogglePeek => (LockView { peek: !s.peek, ..s }, ActionView::Focus),
        MessageView::Submit => if !s.prompt {
            (s, ActionView::Unlock)
        } else if s.state is Busy {
            (s, ActionView::Nothing)
        } else {
            (
                LockView { password: Seq::empty(), state: StateView::Busy, ..s },
                ActionView::Authenticate(s.service, s.login, s.password),
            )
        },
        MessageView::Accepted => (s, ActionView::Unlock),
        MessageView::Refused(e) => (LockView { state: StateView::Failed(refusal_text(e)), ..s }, ActionView::Focus),
    }
}

/// The name to show for a passwd entry: the gecos' first field,
/// trimmed, else the login.
pub open spec fn shown_name(login: Seq<char>, gecos: Seq<char>) -> Seq<char> {
    let name = trim(split_on(gecos, ',')[0]);
    if name.len() == 0 {
        login
    } else {
        name
    }
}

pub struct Locker {
    config: LockerConfig,
    /// The compositor confirmed the lock.
    locked: bool,
    password: String,
    /// The password shown in clear (the eye button).
    peek: bool,
    state: State,
    /// The login name (for PAM) and the name shown.
    login: String,
    display_name: String,
}

impl Locker {
    pub closed spec fn spec_config(&self) -> LockerConfig {
        self.config
    }

    pub closed spec fn lock_view(&self) -> LockView {
        LockView {
            prompt: self.config.password_prompt,
            service: self.config.pam_service@,
            login: self.login@,
            password: self.password@,
            peek: self.peek,
            state: state_view(self.state),
        }
    }

    pub closed spec fn spec_display_name(&self) -> Seq<char> {
        self.display_name@
    }

    pub closed spec fn spec_locked(&self) -> bool {
        self.locked
    }

    /// Whether the compositor confirmed the lock.
    pub fn locked(&self) -> (r: bool)
        ensures
            r == self.spec_locked(),
    {
        self.locked
    }

    /// The compositor confirmed the lock (or dropped it).
    pub fn set_locked(&mut self, locked: bool)
        ensures
            final(self).spec_locked() == locked,
            final(self).lock_view() == old(self).lock_view(),
            final(self).spec_config() == old(self).spec_config(),
            final(self).spec_display_name() == old(self).spec_display_name(),
    {
        self.locked = locked;
    }

    /// The lock screen for the user `login`, whose passwd gecos field
    /// is `gecos`: nothing typed, nothing checked.
    pub fn new(config: LockerConfig, login: String, gecos: &str) -> (r: Locker)
        ensures
            r.spec_config() == config,
            r.lock_view() == (LockView {
                prompt: config.password_prompt,
                service: config.pam_service@,
                login: login@,
                password: Seq::empty(),
                peek: false,
                state: StateView::Idle,
            }),
            r.spec_display_name() == shown_name(login@, gecos@),
            !r.spec_locked(),
    {
        let chars = chars_of(gecos);
        let fields = split_char(chars.as_slice(), ',');
        assert(split_on(gecos@, ',').len() >= 1);
        assert(fields@[0]@ == split_on(gecos@, ',')[0]);
        let first = trim_chars(fields[0].as_slice());
        let display_name = if first.len() == 0 {
            login.clone()
        } else {
            string_of(first.as_slice())
        };
        Locker {
            config,
            locked: false,
            password: String::new(),
            peek: false,
            state: State::Idle,
            login,
            display_name,
        }
    }

    /// The name shown under the avatar.
    pub fn display_name(&self) -> (r: &str)
        ensures
            r@ == self.spec_display_name(),
    {
        self.display_name.as_str()
    }

    /// The password typed so far.
    pub fn password(&self) -> (r: &str)
        ensures
            r@ == self.lock_view().password,
    {
        self.password.as_str()
    }

    /// Whether the password shows in clear.
    pub fn peek(&self) -> (r: bool)
        ensures
            r == self.lock_view().peek,
    {
        self.peek
    }

    /// Whether PAM is checking a password.
    pub fn busy(&self) -> (r: bool)
        ensures
            r == (self.lock_view().state is Busy),
    {
        match self.state {
            State::Busy => true,
            _ => false,
        }
    }

    /// Whether the last attempt failed.
    pub fn failed(&self) -> (r: bool)
        ensures
            r == (self.lock_view().state is Failed),
    {
        match self.state {
            State::Failed(_) => true,
            _ => false,
        }
    }

    pub fn config(&self) -> (r: &LockerConfig)
        ensures
            *r == self.spec_config(),
    {
        &self.config
    }

    /// Icon names the view may draw: the stand-in avatar when the
    /// picture is wanted but none was loaded, and the eye's two icons
    /// with a password field.
    pub fn icon_names(&self, avatar_loaded: bool) -> (r: Vec<&'static str>)
        ensures
            r@.map_values(|s: &str| s@) == (if self.spec_config().show_avatar && !avatar_loaded {
                seq!["avatar-default"@]
            } else {
                Seq::empty()
            }) + (if self.spec_config().password_prompt {
                seq![PEEK_ICON@, CONCEAL_ICON@]
            } else {
                Seq::empty()
            }),
    {
        let mut r: Vec<&'static str> = Vec::new();
        if self.config.show_avatar && !avatar_loaded {
            r.push("avatar-default");
        }
        if self.config.password_prompt {
            r.push(PEEK_ICON);
            r.push(CONCEAL_ICON);
        }
        let ghost a = if self.config.show_avatar && !avatar_loaded {
            seq!["avatar-default"@]
        } else {
            Seq::<Seq<char>>::empty()
        };
        let ghost b = if self.config.password_prompt {
            seq![PEEK_ICON@, CONCEAL_ICON@]
        } else {
            Seq::<Seq<char>>::empty()
        };
        assert(r@.map_values(|s: &str| s@) =~= a + b);
        r
    }

    /// The line under the password field: PAM's words on a refusal
    /// (the catalogue's `locker.auth_failed` when it only said no),
    /// `locker.unlocking` while it checks, none otherwise.
    pub fn message(&self, locale: &Locale) -> (r: Option<String>)
        ensures
            crate::config::opt_view(r) == (match self.lock_view().state {
                StateView::Failed(Some(t)) => Some(t),
                StateView::Failed(None) => Some(
                    match last_value(locale.spec_texts(), "locker.auth_failed"@) {
                        Some(t) => t,
                        None => "locker.auth_failed"@,
                    },
                ),
                StateView::Busy => Some(
                    match last_value(locale.spec_texts(), "locker.unlocking"@) {
                        Some(t) => t,
                        None => "locker.unlocking"@,
                    },
                ),
                StateView::Idle => None,
            }),
    {
        match &self.state {
            State::Failed(Some(text)) => Some(text.clone()),
            State::Failed(None) => Some(locale.tr("locker.auth_failed").to_string()),
            State::Busy => Some(locale.tr("locker.unlocking").to_string()),
            State::Idle => None,
        }
    }

    /// One message; what to do next.
    pub fn update(&mut self, message: Message) -> (r: Action)
        ensures
            final(self).spec_config() == old(self).spec_config(),
            final(self).spec_display_name() == old(self).spec_display_name(),
            final(self).spec_locked() == old(self).spec_locked(),
            (final(self).lock_view(), action_view(r)) == lock_step(old(self).lock_view(), message_view(message)),
    {
        match message {
            Message::Password(p) => {
                if !self.busy() {
                    self.password = p;
                    self.state = State::Idle;
                }
                Action::Nothing
            },
            Message::TogglePeek => {
                self.peek = !self.peek;
                Action::Focus
            },
            Message::Submit => {
                if !self.config.password_prompt {
                    return Action::Unlock;
                }
                if self.busy() {
                    return Action::Nothing;
                }
                self.state = State::Busy;
                let password = self.password.clone();
                self.password = String::new();
                Action::Authenticate {
                    service: self.config.pam_service.clone(),
                    user: self.login.clone(),
                    password,
                }
            },
            Message::AuthDone(Ok(())) => Action::Unlock,
            Message::AuthDone(Err(e)) => {
                let generic = crate::config::str_eq(e.as_str(), "Authentication failure");
                let text = if !generic && !e.as_str().is_empty() {
                    Some(e)
                } else {
                    None
                };
                self.state = State::Failed(text);
                Action::Focus
            },
        }
    }
}

/// While PAM checks a password, neither typing nor a second submit
/// does anything: one check at a time, on the password submitted.
pub proof fn one_check_at_a_time(s: LockView, m: MessageView)
    requires
        s.prompt,
        s.state is Idle || s.state is Failed,
        m is Password || m is Submit,
    ensures
        ({
            let busy = lock_step(s, MessageView::Submit).0;
            lock_step(busy, m) == (busy, ActionView::Nothing)
        }),
{
}

/// A refused password leaves the field empty and the screen locked;
/// typing again clears the failure.
pub proof fn a_refusal_starts_over(s: LockView, e: Seq<char>, p: Seq<char>)
    requires
        s.prompt,
        s.state is Idle,
    ensures
        ({
            let (busy, check) = lock_step(s, MessageView::Submit);
            let (failed, shown) = lock_step(busy, MessageView::Refused(e));
            &&& check == ActionView::Authenticate(s.service, s.login, s.password)
            &&& failed.password.len() == 0
            &&& failed.state is Failed
            &&& shown == ActionView::Focus
            &&& lock_step(failed, MessageView::Password(p)).0.state is Idle
        }),
{
}

} // verus!
