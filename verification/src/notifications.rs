//! The notification daemon's state: the notifications on screen, the
//! history, do-not-disturb, and what each event or user command does to
//! them.
//!
//! The bus (`org.freedesktop.Notifications`), the timers and the
//! drawing are the caller's: [`Notifications::apply`] and
//! [`Notifications::run`] hand back the [`Effect`]s to carry out (start
//! an expiry timer, emit `NotificationClosed` / `ActionInvoked`).
//!
//! Reference: <https://specifications.freedesktop.org/notification-spec/latest/>
use vstd::prelude::*;

use crate::config::{bool_word, RawSection, Section};
use crate::text::{chars_of, eq_str, has_prefix, lower, owned, parse_u64, slice_vec, string_of};

verus! {

broadcast use vstd::string::group_string_axioms;

// ---------------------------------------------------------------------
// Small types
// ---------------------------------------------------------------------

/// The screen corner (or edge middle) the notifications stack from.
#[derive(Debug, Clone, Copy, PartialEq, Eq, Structural)]
pub enum Position {
    TopLeft,
    TopRight,
    TopCenter,
    BottomLeft,
    BottomRight,
    BottomCenter,
}

pub open spec fn position_of(s: Seq<char>) -> Option<Position> {
    if s == "top-left"@ {
        Some(Position::TopLeft)
    } else if s == "top-right"@ {
        Some(Position::TopRight)
    } else if s == "top-center"@ {
        Some(Position::TopCenter)
    } else if s == "bottom-left"@ {
        Some(Position::BottomLeft)
    } else if s == "bottom-right"@ {
        Some(Position::BottomRight)
    } else if s == "bottom-center"@ {
        Some(Position::BottomCenter)
    } else {
        None
    }
}

impl Position {
    /// The corner notifications stack from by default.
    pub fn default_position() -> (r: Position)
        ensures
            r == Position::TopRight,
    {
        Position::TopRight
    }

    pub fn parse(s: &str) -> (r: Option<Position>)
        ensures
            r == position_of(s@),
    {
        let c = chars_of(s);
        let c = c.as_slice();
        if eq_str(c, "top-left") {
            Some(Position::TopLeft)
        } else if eq_str(c, "top-right") {
            Some(Position::TopRight)
        } else if eq_str(c, "top-center") {
            Some(Position::TopCenter)
        } else if eq_str(c, "bottom-left") {
            Some(Position::BottomLeft)
        } else if eq_str(c, "bottom-right") {
            Some(Position::BottomRight)
        } else if eq_str(c, "bottom-center") {
            Some(Position::BottomCenter)
        } else {
            None
        }
    }

    pub fn is_top(self) -> (r: bool)
        ensures
            r == (self == Position::TopLeft || self == Position::TopRight || self
                == Position::TopCenter),
    {
        match self {
            Position::TopLeft | Position::TopRight | Position::TopCenter => true,
            _ => false,
        }
    }
}

#[derive(Debug, Clone, Copy, PartialEq, Eq, Structural)]
pub enum Urgency {
    Low,
    Normal,
    Critical,
}

impl Urgency {
    /// The class the toast's root node carries.
    pub fn name(self) -> (r: &'static str)
        ensures
            r@ == (match self {
                Urgency::Low => "low"@,
                Urgency::Normal => "normal"@,
                Urgency::Critical => "critical"@,
            }),
    {
        match self {
            Urgency::Low => "low",
            Urgency::Normal => "normal",
            Urgency::Critical => "critical",
        }
    }
}

/// Why a notification went away, as the `NotificationClosed` signal
/// reports it.
#[derive(Debug, Clone, Copy, PartialEq, Eq, Structural)]
pub enum Reason {
    Expired,
    Dismissed,
    /// `CloseNotification` from an app.
    Closed,
}

impl Reason {
    /// The number the signal carries.
    pub fn code(self) -> (r: u32)
        ensures
            r == (match self {
                Reason::Expired => 1u32,
                Reason::Dismissed => 2u32,
                Reason::Closed => 3u32,
            }),
    {
        match self {
            Reason::Expired => 1,
            Reason::Dismissed => 2,
            Reason::Closed => 3,
        }
    }
}

/// The icon an app asked for: a theme icon name or a file (`app_icon`,
/// or the `image-path` hint which wins over it).
#[derive(Debug, PartialEq, Eq)]
pub enum IconSource {
    Name(String),
    Path(String),
}

/// What an [`IconSource`] holds.
pub enum IconView {
    Name(Seq<char>),
    Path(Seq<char>),
}

impl View for IconSource {
    type V = IconView;

    open spec fn view(&self) -> IconView {
        match self {
            IconSource::Name(n) => IconView::Name(n@),
            IconSource::Path(p) => IconView::Path(p@),
        }
    }
}

pub open spec fn icon_source_of(s: Seq<char>) -> Option<IconView> {
    if s.len() == 0 {
        None
    } else if crate::text::starts_with(s, "file://"@) {
        Some(IconView::Path(s.skip(7)))
    } else if s[0] == '/' {
        Some(IconView::Path(s))
    } else {
        Some(IconView::Name(s))
    }
}

pub open spec fn opt_icon_view(o: Option<IconSource>) -> Option<IconView> {
    match o {
        Some(i) => Some(i@),
        None => None,
    }
}

impl IconSource {
    /// `app_icon` / `image-path` as apps send them: an absolute path, a
    /// `file://` URI or an icon name; empty means none.
    pub fn parse(s: &str) -> (r: Option<IconSource>)
        ensures
            opt_icon_view(r) == icon_source_of(s@),
    {
        let c = chars_of(s);
        if c.len() == 0 {
            None
        } else if has_prefix(c.as_slice(), "file://") {
            proof {
                reveal_strlit("file://");
            }
            let rest = slice_vec(c.as_slice(), 7, c.len());
            assert(rest@ =~= s@.skip(7));
            Some(IconSource::Path(string_of(rest.as_slice())))
        } else if c[0] == '/' {
            Some(IconSource::Path(owned(s)))
        } else {
            Some(IconSource::Name(owned(s)))
        }
    }

    pub fn name(&self) -> (r: Option<&String>)
        ensures
            match self@ {
                IconView::Name(n) => r matches Some(x) && x@ == n,
                IconView::Path(_) => r is None,
            },
    {
        match self {
            IconSource::Name(n) => Some(n),
            IconSource::Path(_) => None,
        }
    }

    pub fn copy(&self) -> (r: IconSource)
        ensures
            r@ == self@,
    {
        match self {
            IconSource::Name(n) => IconSource::Name(n.clone()),
            IconSource::Path(p) => IconSource::Path(p.clone()),
        }
    }
}

/// The `expire_timeout` argument: `-1` (or below) leaves it to the
/// server, `0` means never, else milliseconds.
#[derive(Debug, Clone, Copy, PartialEq, Eq, Structural)]
pub enum Timeout {
    Default,
    Never,
    /// Milliseconds.
    After(u64),
}

impl Timeout {
    pub fn parse(expire_timeout: i32) -> (r: Timeout)
        ensures
            r == (if expire_timeout < 0 {
                Timeout::Default
            } else if expire_timeout == 0 {
                Timeout::Never
            } else {
                Timeout::After(expire_timeout as u64)
            }),
    {
        if expire_timeout < 0 {
            Timeout::Default
        } else if expire_timeout == 0 {
            Timeout::Never
        } else {
            Timeout::After(expire_timeout as u64)
        }
    }
}

/// How long until an expiry timer fires.
#[derive(Debug, Clone, Copy, PartialEq, Eq, Structural)]
pub enum Delay {
    Millis(u64),
    Secs(u64),
}

// ---------------------------------------------------------------------
// Configuration
// ---------------------------------------------------------------------

/// `[Notifications]` section: the daemon's settings and the bar
/// gadget's.
#[derive(Debug, Clone)]
pub struct NotificationsConfig {
    pub enabled: bool,
    /// Seconds a notification stays when the app leaves it to us.
    pub duration: u64,
    pub position: Position,
    /// How many notifications the history keeps (0: none).
    pub history: usize,
    /// Icon names for the gadget's bell, and for it while
    /// do-not-disturb is on.
    pub icon: String,
    pub dnd_icon: String,
}

/// `raw`'s value for `key` read as a number, or `default`.
pub open spec fn number_or(raw: &RawSection, key: Seq<char>, default: u64) -> u64 {
    match raw.value(key) {
        None => default,
        Some(v) => match parse_u64(v) {
            Some(n) => n,
            None => default,
        },
    }
}

pub open spec fn flag_or(raw: &RawSection, key: Seq<char>, default: bool) -> bool {
    match raw.value(key) {
        None => default,
        Some(v) => match bool_word(lower(v)) {
            Some(b) => b,
            None => default,
        },
    }
}

pub open spec fn text_or(raw: &RawSection, key: Seq<char>, default: Seq<char>) -> Seq<char> {
    match raw.value(key) {
        None => default,
        Some(v) => v,
    }
}

impl NotificationsConfig {
    pub fn from_section(raw: &RawSection) -> (r: NotificationsConfig)
        ensures
            r.enabled == flag_or(raw, "enabled"@, true),
            r.duration == (if number_or(raw, "duration"@, 20) < 1 {
                1
            } else {
                number_or(raw, "duration"@, 20)
            }),
            r.position == (match raw.value("position"@) {
                None => Position::TopRight,
                Some(p) => match position_of(p) {
                    Some(x) => x,
                    None => Position::TopRight,
                },
            }),
            r.history == number_or(raw, "history"@, 50) as usize,
            r.icon@ == text_or(raw, "icon"@, "preferences-system-notifications-symbolic"@),
            r.dnd_icon@ == text_or(raw, "dnd_icon"@, "notifications-disabled-symbolic"@),
    {
        let position = match raw.get("position") {
            None => Position::TopRight,
            Some(p) => match Position::parse(p) {
                Some(x) => x,
                None => Position::TopRight,
            },
        };
        let duration = raw.u64_or("duration", 20);
        let history = raw.u64_or("history", 50);
        NotificationsConfig {
            enabled: raw.bool_or("enabled", true),
            duration: if duration < 1 {
                1
            } else {
                duration
            },
            position,
            history: usize_of(history),
            icon: raw.str_or("icon", "preferences-system-notifications-symbolic"),
            dnd_icon: raw.str_or("dnd_icon", "notifications-disabled-symbolic"),
        }
    }
}

impl Section for NotificationsConfig {
    open spec fn read_from(raw: &RawSection, r: NotificationsConfig) -> bool {
        &&& (r.enabled == flag_or(raw, "enabled"@, true))
        &&& (r.duration == (if number_or(raw, "duration"@, 20) < 1 {
            1
        } else {
            number_or(raw, "duration"@, 20)
        }))
        &&& (r.position == (match raw.value("position"@) {
            None => Position::TopRight,
            Some(p) => match position_of(p) {
                Some(x) => x,
                None => Position::TopRight,
            },
        }))
        &&& (r.history == number_or(raw, "history"@, 50) as usize)
        &&& (r.icon@ == text_or(raw, "icon"@, "preferences-system-notifications-symbolic"@))
        &&& (r.dnd_icon@ == text_or(raw, "dnd_icon"@, "notifications-disabled-symbolic"@))
    }

    fn section_name() -> &'static str {
        "Notifications"
    }

    fn from_raw(raw: &RawSection) -> (r: NotificationsConfig) {
        NotificationsConfig::from_section(raw)
    }
}

/// `n as usize` (wrapping where `usize` is narrower).
pub fn usize_of(n: u64) -> (r: usize)
    ensures
        r == n as usize,
        n <= usize::MAX ==> r == n,
{
    n as usize
}


// ---------------------------------------------------------------------
// Notifications
// ---------------------------------------------------------------------

pub open spec fn pairs_of(v: Seq<(String, String)>) -> Seq<(Seq<char>, Seq<char>)> {
    v.map_values(|p: (String, String)| (p.0@, p.1@))
}

/// A copy of a list of string pairs.
pub fn copy_pairs(v: &Vec<(String, String)>) -> (r: Vec<(String, String)>)
    ensures
        pairs_of(r@) == pairs_of(v@),
{
    let mut r: Vec<(String, String)> = Vec::new();
    let mut i: usize = 0;
    while i < v.len()
        invariant
            i <= v.len(),
            pairs_of(r@) == pairs_of(v@).take(i as int),
        decreases v.len() - i,
    {
        let ghost old = pairs_of(r@);
        r.push((v[i].0.clone(), v[i].1.clone()));
        assert(pairs_of(r@) =~= old.push((v@[i as int].0@, v@[i as int].1@)));
        assert(pairs_of(v@).take(i + 1) =~= pairs_of(v@).take(i as int).push(
            (v@[i as int].0@, v@[i as int].1@),
        ));
        i = i + 1;
    }
    assert(pairs_of(v@).take(v.len() as int) =~= pairs_of(v@));
    r
}

#[derive(Debug)]
pub struct Notification {
    /// What the app got back from `Notify`, and what the signals name.
    pub id: u32,
    /// Distinguishes one `Notify` from the one replacing it, for the
    /// expiry timer of the first not to close the second.
    pub serial: u64,
    pub app_name: String,
    pub summary: String,
    /// Plain text: the markup the spec allows is stripped.
    pub body: String,
    pub icon: Option<IconSource>,
    pub urgency: Urgency,
    /// `(key, label)` pairs; the `default` one is what a click on the
    /// notification invokes and has no button.
    pub actions: Vec<(String, String)>,
    pub timeout: Timeout,
}

/// What a [`Notification`] holds.
pub struct NotificationView {
    pub id: u32,
    pub serial: u64,
    pub app_name: Seq<char>,
    pub summary: Seq<char>,
    pub body: Seq<char>,
    pub icon: Option<IconView>,
    pub urgency: Urgency,
    pub actions: Seq<(Seq<char>, Seq<char>)>,
    pub timeout: Timeout,
}

impl View for Notification {
    type V = NotificationView;

    open spec fn view(&self) -> NotificationView {
        NotificationView {
            id: self.id,
            serial: self.serial,
            app_name: self.app_name@,
            summary: self.summary@,
            body: self.body@,
            icon: opt_icon_view(self.icon),
            urgency: self.urgency,
            actions: pairs_of(self.actions@),
            timeout: self.timeout,
        }
    }
}

/// Whether the app offered a `default` action.
pub open spec fn has_default(n: NotificationView) -> bool {
    exists|i: int| 0 <= i < n.actions.len() && #[trigger] n.actions[i].0 == "default"@
}

impl Notification {
    pub fn copy(&self) -> (r: Notification)
        ensures
            r@ == self@,
    {
        Notification {
            id: self.id,
            serial: self.serial,
            app_name: self.app_name.clone(),
            summary: self.summary.clone(),
            body: self.body.clone(),
            icon: match &self.icon {
                Some(i) => Some(i.copy()),
                None => None,
            },
            urgency: self.urgency,
            actions: copy_pairs(&self.actions),
            timeout: self.timeout,
        }
    }

    /// The actions shown as buttons: all but `default`.
    pub fn buttons(&self) -> (r: Vec<(String, String)>)
        ensures
            pairs_of(r@) == self@.actions.filter(
                |p: (Seq<char>, Seq<char>)| p.0 != "default"@,
            ),
    {
        let mut r: Vec<(String, String)> = Vec::new();
        let mut i: usize = 0;
        let ghost all = self@.actions;
        while i < self.actions.len()
            invariant
                i <= self.actions.len(),
                all == pairs_of(self.actions@),
                pairs_of(r@) == all.take(i as int).filter(
                    |p: (Seq<char>, Seq<char>)| p.0 != "default"@,
                ),
            decreases self.actions.len() - i,
        {
            let ghost old = pairs_of(r@);
            assert(all.take(i + 1).drop_last() =~= all.take(i as int));
            reveal_with_fuel(Seq::filter, 1);
            if !str_is(&self.actions[i].0, "default") {
                r.push((self.actions[i].0.clone(), self.actions[i].1.clone()));
                assert(pairs_of(r@) =~= old.push(all[i as int]));
            }
            i = i + 1;
        }
        assert(all.take(self.actions.len() as int) =~= all);
        r
    }

    pub fn has_default_action(&self) -> (r: bool)
        ensures
            r == has_default(self@),
    {
        let mut i: usize = 0;
        while i < self.actions.len()
            invariant
                i <= self.actions.len(),
                forall|j: int| 0 <= j < i ==> #[trigger] pairs_of(self.actions@)[j].0 != "default"@,
            decreases self.actions.len() - i,
        {
            if str_is(&self.actions[i].0, "default") {
                assert(self@.actions[i as int].0 == "default"@);
                return true;
            }
            i = i + 1;
        }
        false
    }
}

/// Whether `s` holds the characters of `lit`.
pub fn str_is(s: &String, lit: &str) -> (r: bool)
    ensures
        r == (s@ == lit@),
{
    let c = chars_of(s.as_str());
    eq_str(c.as_slice(), lit)
}

/// A notification in the history: as received (the caller's clock, in
/// its own unit), and whether the user has seen the list since.
#[derive(Debug)]
pub struct Entry {
    pub notification: Notification,
    pub received: u64,
    pub seen: bool,
}

pub struct EntryView {
    pub note: NotificationView,
    pub received: u64,
    pub seen: bool,
}

impl View for Entry {
    type V = EntryView;

    open spec fn view(&self) -> EntryView {
        EntryView { note: self.notification@, received: self.received, seen: self.seen }
    }
}

/// What the caller carries out after an event or a command.
#[derive(Debug)]
pub enum Effect {
    /// Start the expiry timer of notification `id` as `serial`: when it
    /// runs out, apply [`Event::Expired`].
    Expire { id: u32, serial: u64, after: Delay },
    /// Emit `NotificationClosed(id, reason)`.
    Closed { id: u32, reason: Reason },
    /// Emit `ActionInvoked(id, key)`.
    Invoked { id: u32, key: String },
}

pub enum EffectView {
    Expire { id: u32, serial: u64, after: Delay },
    Closed { id: u32, reason: Reason },
    Invoked { id: u32, key: Seq<char> },
}

impl View for Effect {
    type V = EffectView;

    open spec fn view(&self) -> EffectView {
        match self {
            Effect::Expire { id, serial, after } => EffectView::Expire {
                id: *id,
                serial: *serial,
                after: *after,
            },
            Effect::Closed { id, reason } => EffectView::Closed { id: *id, reason: *reason },
            Effect::Invoked { id, key } => EffectView::Invoked { id: *id, key: key@ },
        }
    }
}

pub open spec fn effects_view(v: Seq<Effect>) -> Seq<EffectView> {
    v.map_values(|e: Effect| e@)
}

pub enum Event {
    /// The session bus is up; signals can be emitted.
    Connected,
    /// `Notify`, received at the caller's time `received`: a new
    /// notification, or one replacing the notification with the same id.
    Notify(Notification, u64),
    /// `CloseNotification` from an app.
    Close(u32),
    /// Its timer ran out (if the serial still matches).
    Expired(u32, u64),
}

/// What the toasts and the bar gadget ask the daemon to do.
#[derive(Debug)]
pub enum Command {
    /// The user clicked it: invoke `default` if the app offered it,
    /// then close.
    Activate(u32),
    Invoke(u32, String),
    Dismiss(u32),
    /// Close every toast on screen; the history keeps them.
    DismissAll,
    ToggleDnd,
    /// The history was looked at: nothing is new any more.
    MarkSeen,
    /// Empty the history (and close the toasts up).
    Clear,
}

/// What a click on a notification asks of the daemon.
pub open spec fn command_of(m: crate::toast::Message) -> Command {
    match m {
        crate::toast::Message::Activate(id) => Command::Activate(id),
        crate::toast::Message::Invoke(id, key) => Command::Invoke(id, key),
        crate::toast::Message::Dismiss(id) => Command::Dismiss(id),
    }
}

impl From<crate::toast::Message> for Command {
    fn from(m: crate::toast::Message) -> (r: Command) {
        match m {
            crate::toast::Message::Activate(id) => Command::Activate(id),
            crate::toast::Message::Invoke(id, key) => Command::Invoke(id, key),
            crate::toast::Message::Dismiss(id) => Command::Dismiss(id),
        }
    }
}

impl vstd::std_specs::convert::FromSpecImpl<crate::toast::Message> for Command {
    open spec fn obeys_from_spec() -> bool {
        true
    }

    open spec fn from_spec(m: crate::toast::Message) -> Command {
        command_of(m)
    }
}

// --- sequences of notifications --------------------------------------

/// Index of the first element satisfying `p`; `s.len()` if none.
pub open spec fn index_where<T>(s: Seq<T>, p: spec_fn(T) -> bool) -> int
    decreases s.len(),
{
    if s.len() == 0 {
        0
    } else if p(s[0]) {
        0
    } else {
        index_where(s.drop_first(), p) + 1
    }
}

pub proof fn lemma_index_where<T>(s: Seq<T>, p: spec_fn(T) -> bool)
    ensures
        0 <= index_where(s, p) <= s.len(),
        index_where(s, p) < s.len() ==> p(s[index_where(s, p)]),
        forall|j: int| 0 <= j < index_where(s, p) ==> !p(#[trigger] s[j]),
    decreases s.len(),
{
    if s.len() > 0 && !p(s[0]) {
        lemma_index_where(s.drop_first(), p);
        assert forall|j: int| 0 <= j < index_where(s, p) implies !p(#[trigger] s[j]) by {
            if j > 0 {
                assert(s[j] == s.drop_first()[j - 1]);
            }
        }
    }
}

pub proof fn lemma_index_where_unique<T>(s: Seq<T>, p: spec_fn(T) -> bool, i: int)
    requires
        0 <= i <= s.len(),
        i < s.len() ==> p(s[i]),
        forall|j: int| 0 <= j < i ==> !p(#[trigger] s[j]),
    ensures
        index_where(s, p) == i,
{
    lemma_index_where(s, p);
    let f = index_where(s, p);
    if f < i {
        assert(!p(s[f]));
    } else if i < f {
        assert(!p(s[i]));
    }
}

/// `x` in place of the first element satisfying `p`, else `x` first.
pub open spec fn upsert<T>(s: Seq<T>, x: T, p: spec_fn(T) -> bool) -> Seq<T> {
    let i = index_where(s, p);
    if 0 <= i < s.len() {
        s.update(i, x)
    } else {
        seq![x] + s
    }
}

/// `s` without its first element satisfying `p`.
pub open spec fn remove_where<T>(s: Seq<T>, p: spec_fn(T) -> bool) -> Seq<T> {
    let i = index_where(s, p);
    if 0 <= i < s.len() {
        s.remove(i)
    } else {
        s
    }
}

/// At most the first `n` elements of `s`.
pub open spec fn truncated<T>(s: Seq<T>, n: nat) -> Seq<T> {
    if s.len() > n {
        s.take(n as int)
    } else {
        s
    }
}

pub open spec fn with_id(id: u32) -> spec_fn(NotificationView) -> bool {
    |n: NotificationView| n.id == id
}

pub open spec fn entry_with_id(id: u32) -> spec_fn(EntryView) -> bool {
    |e: EntryView| e.note.id == id
}

pub open spec fn unique_ids(s: Seq<NotificationView>) -> bool {
    forall|i: int, j: int| 0 <= i < j < s.len() ==> s[i].id != s[j].id
}

pub open spec fn unique_entry_ids(s: Seq<EntryView>) -> bool {
    forall|i: int, j: int| 0 <= i < j < s.len() ==> s[i].note.id != s[j].note.id
}

/// Whether `path` is the icon file of a notification in `items` or
/// `history`.
pub open spec fn file_used(items: Seq<NotificationView>, history: Seq<EntryView>, path: Seq<char>) -> bool {
    (exists|i: int| 0 <= i < items.len() && items[i].icon == Some(IconView::Path(path)))
    || (exists|j: int| 0 <= j < history.len() && history[j].note.icon == Some(IconView::Path(path)))
}

/// The files still used by `items` and `history`.
pub open spec fn pruned(files: Seq<Seq<char>>, items: Seq<NotificationView>, history: Seq<EntryView>) -> Seq<Seq<char>> {
    files.filter(|f: Seq<char>| file_used(items, history, f))
}

/// `files` with the icon file of `icon`, when it is a new one.
pub open spec fn with_file(files: Seq<Seq<char>>, icon: Option<IconView>) -> Seq<Seq<char>> {
    match icon {
        Some(IconView::Path(p)) => if files.contains(p) {
            files
        } else {
            files.push(p)
        },
        _ => files,
    }
}

/// How long `n` stays, if not forever: the app's own timeout, else the
/// configured duration; a critical notification left to us stays until
/// dismissed.
pub open spec fn timeout_of(duration: u64, n: NotificationView) -> Option<Delay> {
    match n.timeout {
        Timeout::Never => None,
        Timeout::After(ms) => Some(Delay::Millis(ms)),
        Timeout::Default => if n.urgency == Urgency::Critical {
            None
        } else {
            Some(Delay::Secs(duration))
        },
    }
}

/// The notification `id` on screen, else in the history.
pub open spec fn lookup_note(items: Seq<NotificationView>, history: Seq<EntryView>, id: u32) -> Option<NotificationView> {
    let i = index_where(items, with_id(id));
    let j = index_where(history, entry_with_id(id));
    if 0 <= i < items.len() {
        Some(items[i])
    } else if 0 <= j < history.len() {
        Some(history[j].note)
    } else {
        None
    }
}

pub open spec fn closed_effects(ids: Seq<u32>, connected: bool) -> Seq<EffectView> {
    if connected {
        ids.map_values(|id: u32| EffectView::Closed { id, reason: Reason::Dismissed })
    } else {
        seq![]
    }
}


// ---------------------------------------------------------------------
// The daemon's state
// ---------------------------------------------------------------------

pub open spec fn notes_view(v: Seq<Notification>) -> Seq<NotificationView> {
    v.map_values(|n: Notification| n@)
}

pub open spec fn entries_view(v: Seq<Entry>) -> Seq<EntryView> {
    v.map_values(|e: Entry| e@)
}

pub open spec fn files_view(v: Seq<String>) -> Seq<Seq<char>> {
    v.map_values(|f: String| f@)
}

pub struct Notifications {
    config: NotificationsConfig,
    /// The bus is up: the signals can be emitted.
    connected: bool,
    /// The toasts on screen, newest first.
    items: Vec<Notification>,
    /// What came in, newest first, up to the configured count.
    history: Vec<Entry>,
    /// Do not disturb: no toasts but the critical ones.
    dnd: bool,
    /// The icon files the notifications show, each once.
    files: Vec<String>,
}

impl Notifications {
    pub closed spec fn items_view(&self) -> Seq<NotificationView> {
        notes_view(self.items@)
    }

    pub closed spec fn history_view(&self) -> Seq<EntryView> {
        entries_view(self.history@)
    }

    pub closed spec fn files_of(&self) -> Seq<Seq<char>> {
        files_view(self.files@)
    }

    pub closed spec fn is_dnd(&self) -> bool {
        self.dnd
    }

    pub closed spec fn is_connected(&self) -> bool {
        self.connected
    }

    pub closed spec fn cap(&self) -> usize {
        self.config.history
    }

    pub closed spec fn duration(&self) -> u64 {
        self.config.duration
    }

    /// Ids are unique on screen and in the history.
    pub open spec fn wf(&self) -> bool {
        &&& unique_ids(self.items_view())
        &&& unique_entry_ids(self.history_view())
    }

    pub fn new(config: NotificationsConfig) -> (r: Notifications)
        ensures
            r.wf(),
            r.items_view() == Seq::<NotificationView>::empty(),
            r.history_view() == Seq::<EntryView>::empty(),
            r.files_of() == Seq::<Seq<char>>::empty(),
            !r.is_dnd(),
            !r.is_connected(),
            r.cap() == config.history,
            r.duration() == config.duration,
    {
        let r = Notifications {
            config,
            connected: false,
            items: Vec::new(),
            history: Vec::new(),
            dnd: false,
            files: Vec::new(),
        };
        assert(r.items_view() =~= Seq::<NotificationView>::empty());
        assert(r.history_view() =~= Seq::<EntryView>::empty());
        assert(r.files_of() =~= Seq::<Seq<char>>::empty());
        r
    }

    pub fn dnd(&self) -> (r: bool)
        ensures
            r == self.is_dnd(),
    {
        self.dnd
    }

    /// The toasts on screen, newest first.
    pub fn items(&self) -> (r: &Vec<Notification>)
        ensures
            notes_view(r@) == self.items_view(),
    {
        &self.items
    }

    /// Newest first.
    pub fn history(&self) -> (r: &Vec<Entry>)
        ensures
            entries_view(r@) == self.history_view(),
    {
        &self.history
    }

    /// The icon files the notifications held show.
    pub fn files(&self) -> (r: &Vec<String>)
        ensures
            files_view(r@) == self.files_of(),
    {
        &self.files
    }

    pub fn config(&self) -> (r: &NotificationsConfig)
        ensures
            r.history == self.cap(),
            r.duration == self.duration(),
    {
        &self.config
    }

    /// A config reload: what shows stays, new notifications follow the
    /// new settings.
    pub fn set_config(&mut self, config: NotificationsConfig)
        ensures
            final(self).cap() == config.history,
            final(self).duration() == config.duration,
            final(self).items_view() == old(self).items_view(),
            final(self).history_view() == old(self).history_view(),
            final(self).files_of() == old(self).files_of(),
            final(self).is_dnd() == old(self).is_dnd(),
            final(self).is_connected() == old(self).is_connected(),
    {
        self.config = config;
    }

    /// How many entries of the history the user hasn't looked at.
    pub fn unseen(&self) -> (r: usize)
        ensures
            r == self.history_view().filter(|e: EntryView| !e.seen).len(),
    {
        let mut n: usize = 0;
        let mut i: usize = 0;
        let ghost h = self.history_view();
        while i < self.history.len()
            invariant
                i <= self.history.len(),
                h == self.history_view(),
                h.len() == self.history.len(),
                n == h.take(i as int).filter(|e: EntryView| !e.seen).len(),
                n <= i,
            decreases self.history.len() - i,
        {
            assert(h.take(i + 1).drop_last() =~= h.take(i as int));
            reveal_with_fuel(Seq::filter, 1);
            if !self.history[i].seen {
                n = n + 1;
            }
            i = i + 1;
        }
        assert(h.take(self.history.len() as int) =~= h);
        n
    }

    /// How long `n` stays, if not forever.
    pub fn timeout(&self, n: &Notification) -> (r: Option<Delay>)
        ensures
            r == timeout_of(self.duration(), n@),
    {
        match n.timeout {
            Timeout::Never => None,
            Timeout::After(ms) => Some(Delay::Millis(ms)),
            Timeout::Default => if n.urgency == Urgency::Critical {
                None
            } else {
                Some(Delay::Secs(self.config.duration))
            },
        }
    }

    /// Index of the toast `id`; `items.len()` when not on screen.
    fn find_item(&self, id: u32) -> (r: usize)
        ensures
            r == index_where(self.items_view(), with_id(id)),
            r <= self.items.len(),
    {
        let mut i: usize = 0;
        let ghost v = self.items_view();
        while i < self.items.len() && self.items[i].id != id
            invariant
                i <= self.items.len(),
                v == self.items_view(),
                forall|j: int| 0 <= j < i ==> !with_id(id)(#[trigger] v[j]),
            decreases self.items.len() - i,
        {
            i = i + 1;
        }
        proof {
            lemma_index_where_unique(v, with_id(id), i as int);
        }
        i
    }

    /// Index of the history entry `id`; `history.len()` when none.
    fn find_entry(&self, id: u32) -> (r: usize)
        ensures
            r == index_where(self.history_view(), entry_with_id(id)),
            r <= self.history.len(),
    {
        let mut i: usize = 0;
        let ghost v = self.history_view();
        while i < self.history.len() && self.history[i].notification.id != id
            invariant
                i <= self.history.len(),
                v == self.history_view(),
                forall|j: int| 0 <= j < i ==> !entry_with_id(id)(#[trigger] v[j]),
            decreases self.history.len() - i,
        {
            i = i + 1;
        }
        proof {
            lemma_index_where_unique(v, entry_with_id(id), i as int);
        }
        i
    }

    /// The toast `id`, while on screen.
    pub fn get(&self, id: u32) -> (r: Option<&Notification>)
        ensures
            match r {
                Some(n) => exists|i: int|
                    0 <= i < self.items_view().len() && #[trigger] self.items_view()[i] == n@ && n.id
                        == id,
                None => forall|i: int|
                    0 <= i < self.items_view().len() ==> #[trigger] self.items_view()[i].id != id,
            },
    {
        let i = self.find_item(id);
        proof {
            lemma_index_where(self.items_view(), with_id(id));
        }
        if i < self.items.len() {
            assert(self.items_view()[i as int] == self.items@[i as int]@);
            Some(&self.items[i])
        } else {
            proof {
                assert forall|k: int| 0 <= k < self.items_view().len() implies #[trigger] self.items_view()[k].id != id by {
                    assert(!with_id(id)(self.items_view()[k]));
                }
            }
            None
        }
    }

    /// Whether some notification held shows the file `path`.
    fn uses_file(&self, path: &String) -> (r: bool)
        ensures
            r == file_used(self.items_view(), self.history_view(), path@),
    {
        let mut i: usize = 0;
        while i < self.items.len()
            invariant
                i <= self.items.len(),
                forall|j: int| 0 <= j < i ==> #[trigger] self.items_view()[j].icon != Some(IconView::Path(path@)),
            decreases self.items.len() - i,
        {
            assert(self.items_view()[i as int] == self.items@[i as int]@);
            if let Some(IconSource::Path(p)) = &self.items[i].icon {
                if str_eq_string(p, path) {
                    return true;
                }
            }
            i = i + 1;
        }
        let mut j: usize = 0;
        while j < self.history.len()
            invariant
                j <= self.history.len(),
                forall|k: int| 0 <= k < self.items_view().len() ==> #[trigger] self.items_view()[k].icon != Some(IconView::Path(path@)),
                forall|k: int| 0 <= k < j ==> #[trigger] self.history_view()[k].note.icon != Some(IconView::Path(path@)),
            decreases self.history.len() - j,
        {
            assert(self.history_view()[j as int] == self.history@[j as int]@);
            if let Some(IconSource::Path(p)) = &self.history[j].notification.icon {
                if str_eq_string(p, path) {
                    return true;
                }
            }
            j = j + 1;
        }
        false
    }

    /// Forget the files nothing shows any more.
    fn prune_files(&mut self)
        ensures
            final(self).files_of() == pruned(old(self).files_of(), old(self).items_view(), old(self).history_view()),
            final(self).items_view() == old(self).items_view(),
            final(self).history_view() == old(self).history_view(),
            final(self).is_dnd() == old(self).is_dnd(),
            final(self).is_connected() == old(self).is_connected(),
            final(self).cap() == old(self).cap(),
            final(self).duration() == old(self).duration(),
    {
        let mut kept: Vec<String> = Vec::new();
        let mut i: usize = 0;
        let ghost fv = self.files_of();
        let ghost items = self.items_view();
        let ghost history = self.history_view();
        while i < self.files.len()
            invariant
                i <= self.files.len(),
                fv == self.files_of(),
                items == self.items_view(),
                history == self.history_view(),
                files_view(kept@) == fv.take(i as int).filter(|f: Seq<char>| file_used(items, history, f)),
            decreases self.files.len() - i,
        {
            assert(fv.take(i + 1).drop_last() =~= fv.take(i as int));
            reveal_with_fuel(Seq::filter, 1);
            let ghost old_kept = files_view(kept@);
            if self.uses_file(&self.files[i]) {
                let f = self.files[i].clone();
                kept.push(f);
                assert(files_view(kept@) =~= old_kept.push(fv[i as int]));
            }
            i = i + 1;
        }
        assert(fv.take(self.files.len() as int) =~= fv);
        self.files = kept;
    }
}

/// Whether two strings hold the same characters.
pub fn str_eq_string(a: &String, b: &String) -> (r: bool)
    ensures
        r == (a@ == b@),
{
    crate::config::str_eq(a.as_str(), b.as_str())
}


// ---------------------------------------------------------------------
// Transitions
// ---------------------------------------------------------------------

/// The history after `Notify`: the entry replaces the one with its id
/// in place, or comes first; no more than `cap` are kept; nothing with
/// a cap of 0.
pub open spec fn history_after_notify(history: Seq<EntryView>, e: EntryView, cap: nat) -> Seq<EntryView> {
    if cap > 0 {
        truncated(upsert(history, e, entry_with_id(e.note.id)), cap)
    } else {
        history
    }
}

/// Whether a notification shows as a toast: always, but while
/// do-not-disturb, where only the critical ones do.
pub open spec fn shows(dnd: bool, n: NotificationView) -> bool {
    !dnd || n.urgency == Urgency::Critical
}

/// The toasts after `Notify`: shown in place of the one with its id, or
/// first; not shown, and the one with its id goes too.
pub open spec fn items_after_notify(items: Seq<NotificationView>, n: NotificationView, show: bool) -> Seq<NotificationView> {
    if show {
        upsert(items, n, with_id(n.id))
    } else {
        remove_where(items, with_id(n.id))
    }
}

pub open spec fn notify_effects(show: bool, duration: u64, n: NotificationView) -> Seq<EffectView> {
    if show {
        match timeout_of(duration, n) {
            Some(d) => seq![EffectView::Expire { id: n.id, serial: n.serial, after: d }],
            None => seq![],
        }
    } else {
        seq![]
    }
}

proof fn lemma_update_unique(s: Seq<NotificationView>, i: int, n: NotificationView)
    requires
        unique_ids(s),
        0 <= i < s.len(),
        s[i].id == n.id,
    ensures
        unique_ids(s.update(i, n)),
{
    let t = s.update(i, n);
    assert forall|a: int, b: int| 0 <= a < b < t.len() implies t[a].id != t[b].id by {
        assert(s[a].id != s[b].id);
    }
}

proof fn lemma_prepend_unique(s: Seq<NotificationView>, n: NotificationView)
    requires
        unique_ids(s),
        forall|j: int| 0 <= j < s.len() ==> s[j].id != n.id,
    ensures
        unique_ids(seq![n] + s),
{
    let t = seq![n] + s;
    assert forall|a: int, b: int| 0 <= a < b < t.len() implies t[a].id != t[b].id by {
        if a > 0 {
            assert(t[a] == s[a - 1]);
            assert(s[a - 1].id != s[b - 1].id);
        } else {
            assert(t[b] == s[b - 1]);
        }
    }
}

proof fn lemma_remove_unique(s: Seq<NotificationView>, i: int)
    requires
        unique_ids(s),
        0 <= i < s.len(),
    ensures
        unique_ids(s.remove(i)),
        forall|j: int| 0 <= j < s.remove(i).len() ==> s.remove(i)[j].id != s[i].id,
{
    let t = s.remove(i);
    assert forall|a: int, b: int| 0 <= a < b < t.len() implies t[a].id != t[b].id by {
        let a2 = if a < i { a } else { a + 1 };
        let b2 = if b < i { b } else { b + 1 };
        assert(t[a] == s[a2]);
        assert(t[b] == s[b2]);
        assert(s[a2].id != s[b2].id);
    }
    assert forall|j: int| 0 <= j < t.len() implies t[j].id != s[i].id by {
        let j2 = if j < i { j } else { j + 1 };
        assert(t[j] == s[j2]);
        assert(s[j2].id != s[i].id);
    }
}

proof fn lemma_entry_update_unique(s: Seq<EntryView>, i: int, e: EntryView)
    requires
        unique_entry_ids(s),
        0 <= i < s.len(),
        s[i].note.id == e.note.id,
    ensures
        unique_entry_ids(s.update(i, e)),
{
    let t = s.update(i, e);
    assert forall|a: int, b: int| 0 <= a < b < t.len() implies t[a].note.id != t[b].note.id by {
        assert(s[a].note.id != s[b].note.id);
    }
}

proof fn lemma_entry_prepend_unique(s: Seq<EntryView>, e: EntryView)
    requires
        unique_entry_ids(s),
        forall|j: int| 0 <= j < s.len() ==> s[j].note.id != e.note.id,
    ensures
        unique_entry_ids(seq![e] + s),
{
    let t = seq![e] + s;
    assert forall|a: int, b: int| 0 <= a < b < t.len() implies t[a].note.id != t[b].note.id by {
        if a > 0 {
            assert(t[a] == s[a - 1]);
            assert(s[a - 1].note.id != s[b - 1].note.id);
        } else {
            assert(t[b] == s[b - 1]);
        }
    }
}

proof fn lemma_entry_remove_unique(s: Seq<EntryView>, i: int)
    requires
        unique_entry_ids(s),
        0 <= i < s.len(),
    ensures
        unique_entry_ids(s.remove(i)),
        forall|j: int| 0 <= j < s.remove(i).len() ==> s.remove(i)[j].note.id != s[i].note.id,
{
    let t = s.remove(i);
    assert forall|a: int, b: int| 0 <= a < b < t.len() implies t[a].note.id != t[b].note.id by {
        let a2 = if a < i { a } else { a + 1 };
        let b2 = if b < i { b } else { b + 1 };
        assert(t[a] == s[a2]);
        assert(t[b] == s[b2]);
        assert(s[a2].note.id != s[b2].note.id);
    }
    assert forall|j: int| 0 <= j < t.len() implies t[j].note.id != s[i].note.id by {
        let j2 = if j < i { j } else { j + 1 };
        assert(t[j] == s[j2]);
        assert(s[j2].note.id != s[i].note.id);
    }
}

impl Notifications {
    /// Take toast `id` off the screen: whether there was one.
    fn remove_item(&mut self, id: u32) -> (removed: bool)
        requires
            old(self).wf(),
        ensures
            final(self).wf(),
            final(self).items_view() == remove_where(old(self).items_view(), with_id(id)),
            removed == (index_where(old(self).items_view(), with_id(id)) < old(self).items_view().len()),
            forall|j: int| 0 <= j < final(self).items_view().len() ==> #[trigger] final(self).items_view()[j].id != id,
            final(self).history_view() == old(self).history_view(),
            final(self).files_of() == old(self).files_of(),
            final(self).is_dnd() == old(self).is_dnd(),
            final(self).is_connected() == old(self).is_connected(),
            final(self).cap() == old(self).cap(),
            final(self).duration() == old(self).duration(),
    {
        let i = self.find_item(id);
        proof {
            lemma_index_where(self.items_view(), with_id(id));
        }
        if i < self.items.len() {
            let ghost before = self.items_view();
            let _ = self.items.remove(i);
            proof {
                assert(self.items_view() =~= before.remove(i as int));
                lemma_remove_unique(before, i as int);
            }
            true
        } else {
            proof {
                assert forall|j: int| 0 <= j < self.items_view().len() implies #[trigger] self.items_view()[j].id != id by {
                    assert(!with_id(id)(self.items_view()[j]));
                }
            }
            false
        }
    }

    /// Drop `id` from the history.
    fn forget(&mut self, id: u32)
        requires
            old(self).wf(),
        ensures
            final(self).wf(),
            final(self).history_view() == remove_where(old(self).history_view(), entry_with_id(id)),
            forall|j: int| 0 <= j < final(self).history_view().len() ==> #[trigger] final(self).history_view()[j].note.id != id,
            final(self).items_view() == old(self).items_view(),
            final(self).files_of() == old(self).files_of(),
            final(self).is_dnd() == old(self).is_dnd(),
            final(self).is_connected() == old(self).is_connected(),
            final(self).cap() == old(self).cap(),
            final(self).duration() == old(self).duration(),
    {
        let i = self.find_entry(id);
        proof {
            lemma_index_where(self.history_view(), entry_with_id(id));
        }
        if i < self.history.len() {
            let ghost before = self.history_view();
            let _ = self.history.remove(i);
            proof {
                assert(self.history_view() =~= before.remove(i as int));
                lemma_entry_remove_unique(before, i as int);
            }
        } else {
            proof {
                assert forall|j: int| 0 <= j < self.history_view().len() implies #[trigger] self.history_view()[j].note.id != id by {
                    assert(!entry_with_id(id)(self.history_view()[j]));
                }
            }
        }
    }

    /// Take toast `id` off the screen and tell the app why.
    fn close(&mut self, id: u32, reason: Reason) -> (effects: Vec<Effect>)
        requires
            old(self).wf(),
        ensures
            final(self).wf(),
            final(self).items_view() == remove_where(old(self).items_view(), with_id(id)),
            forall|j: int| 0 <= j < final(self).items_view().len() ==> #[trigger] final(self).items_view()[j].id != id,
            index_where(old(self).items_view(), with_id(id)) < old(self).items_view().len() ==> {
                &&& final(self).files_of() == pruned(old(self).files_of(), final(self).items_view(), old(self).history_view())
                &&& effects_view(effects@) == (if old(self).is_connected() {
                    seq![EffectView::Closed { id, reason }]
                } else {
                    seq![]
                })
            },
            index_where(old(self).items_view(), with_id(id)) >= old(self).items_view().len() ==> {
                &&& final(self).files_of() == old(self).files_of()
                &&& effects_view(effects@) == Seq::<EffectView>::empty()
            },
            final(self).history_view() == old(self).history_view(),
            final(self).is_dnd() == old(self).is_dnd(),
            final(self).is_connected() == old(self).is_connected(),
            final(self).cap() == old(self).cap(),
            final(self).duration() == old(self).duration(),
    {
        let mut effects: Vec<Effect> = Vec::new();
        if !self.remove_item(id) {
            assert(effects_view(effects@) =~= Seq::<EffectView>::empty());
            return effects;
        }
        self.prune_files();
        if self.connected {
            effects.push(Effect::Closed { id, reason });
            assert(effects_view(effects@) =~= seq![EffectView::Closed { id, reason }]);
        } else {
            assert(effects_view(effects@) =~= Seq::<EffectView>::empty());
        }
        effects
    }

    /// Add the icon file of `n`, if a new one.
    fn add_file(&mut self, n: &Notification)
        ensures
            final(self).files_of() == with_file(old(self).files_of(), n@.icon),
            final(self).items_view() == old(self).items_view(),
            final(self).history_view() == old(self).history_view(),
            final(self).is_dnd() == old(self).is_dnd(),
            final(self).is_connected() == old(self).is_connected(),
            final(self).cap() == old(self).cap(),
            final(self).duration() == old(self).duration(),
    {
        if let Some(IconSource::Path(p)) = &n.icon {
            let mut i: usize = 0;
            let ghost fv = self.files_of();
            while i < self.files.len()
                invariant
                    i <= self.files.len(),
                    fv == self.files_of(),
                    n@.icon == Some(IconView::Path(p@)),
                    forall|j: int| 0 <= j < i ==> fv[j] != p@,
                decreases self.files.len() - i,
            {
                if str_eq_string(&self.files[i], p) {
                    assert(fv[i as int] == p@);
                    assert(fv.contains(p@));
                    return;
                }
                i = i + 1;
            }
            let ghost before = self.files_of();
            self.files.push(p.clone());
            assert(self.files_of() =~= before.push(p@));
        }
    }

    /// Apply an event; the effects are its follow-up (the expiry timer
    /// of a new notification, the signal for a closed one).
    pub fn apply(&mut self, event: Event) -> (effects: Vec<Effect>)
        requires
            old(self).wf(),
        ensures
            final(self).wf(),
            final(self).cap() == old(self).cap(),
            final(self).duration() == old(self).duration(),
            match event {
                Event::Connected => {
                    &&& final(self).is_connected()
                    &&& final(self).items_view() == old(self).items_view()
                    &&& final(self).history_view() == old(self).history_view()
                    &&& final(self).files_of() == old(self).files_of()
                    &&& final(self).is_dnd() == old(self).is_dnd()
                    &&& effects@.len() == 0
                },
                Event::Notify(n, received) => {
                    let nv = n@;
                    let show = shows(old(self).is_dnd(), nv);
                    let e = EntryView { note: nv, received, seen: false };
                    &&& final(self).history_view() == history_after_notify(old(self).history_view(), e, old(self).cap() as nat)
                    &&& final(self).items_view() == items_after_notify(old(self).items_view(), nv, show)
                    &&& final(self).files_of() == pruned(
                        with_file(old(self).files_of(), nv.icon),
                        final(self).items_view(),
                        final(self).history_view(),
                    )
                    &&& effects_view(effects@) == notify_effects(show, old(self).duration(), nv)
                    &&& final(self).is_dnd() == old(self).is_dnd()
                    &&& final(self).is_connected() == old(self).is_connected()
                },
                Event::Close(id) => {
                    &&& final(self).items_view() == remove_where(old(self).items_view(), with_id(id))
                    &&& final(self).history_view() == old(self).history_view()
                    &&& final(self).files_of() == (if index_where(old(self).items_view(), with_id(id)) < old(self).items_view().len() {
                        pruned(old(self).files_of(), final(self).items_view(), old(self).history_view())
                    } else {
                        old(self).files_of()
                    })
                    &&& effects_view(effects@) == (if index_where(old(self).items_view(), with_id(id)) < old(self).items_view().len() && old(self).is_connected() {
                        seq![EffectView::Closed { id, reason: Reason::Closed }]
                    } else {
                        seq![]
                    })
                    &&& final(self).is_dnd() == old(self).is_dnd()
                    &&& final(self).is_connected() == old(self).is_connected()
                },
                Event::Expired(id, serial) => {
                    let current = exists|i: int| 0 <= i < old(self).items_view().len()
                        && #[trigger] old(self).items_view()[i].id == id && old(self).items_view()[i].serial == serial;
                    &&& current ==> final(self).items_view() == remove_where(old(self).items_view(), with_id(id))
                    &&& current ==> final(self).files_of() == pruned(old(self).files_of(), final(self).items_view(), old(self).history_view())
                    &&& current ==> effects_view(effects@) == (if old(self).is_connected() {
                        seq![EffectView::Closed { id, reason: Reason::Expired }]
                    } else {
                        seq![]
                    })
                    &&& !current ==> final(self).items_view() == old(self).items_view()
                        && final(self).files_of() == old(self).files_of()
                        && effects@.len() == 0
                    &&& final(self).history_view() == old(self).history_view()
                    &&& final(self).is_dnd() == old(self).is_dnd()
                    &&& final(self).is_connected() == old(self).is_connected()
                },
            },
    {
        match event {
            Event::Connected => {
                self.connected = true;
                Vec::new()
            },
            Event::Notify(n, received) => self.notify(n, received),
            Event::Close(id) => {
                let effects = self.close(id, Reason::Closed);
                effects
            },
            Event::Expired(id, serial) => {
                let i = self.find_item(id);
                proof {
                    lemma_index_where(self.items_view(), with_id(id));
                }
                if i < self.items.len() && self.items[i].serial == serial {
                    assert(self.items_view()[i as int] == self.items@[i as int]@);
                    self.close(id, Reason::Expired)
                } else {
                    proof {
                        assert forall|k: int| 0 <= k < self.items_view().len() && #[trigger] self.items_view()[k].id == id implies self.items_view()[k].serial != serial by {
                            if k != i {
                                assert(!with_id(id)(self.items_view()[k]) || k > i);
                                if k > i {
                                    assert(i < self.items_view().len());
                                    assert(self.items_view()[i as int].id == id);
                                    assert(unique_ids(self.items_view()));
                                }
                            }
                        }
                    }
                    Vec::new()
                }
            },
        }
    }

    fn notify(&mut self, n: Notification, received: u64) -> (effects: Vec<Effect>)
        requires
            old(self).wf(),
        ensures
            final(self).wf(),
            final(self).cap() == old(self).cap(),
            final(self).duration() == old(self).duration(),
            ({
                let nv = n@;
                let show = shows(old(self).is_dnd(), nv);
                let e = EntryView { note: nv, received, seen: false };
                &&& final(self).history_view() == history_after_notify(old(self).history_view(), e, old(self).cap() as nat)
                &&& final(self).items_view() == items_after_notify(old(self).items_view(), nv, show)
                &&& final(self).files_of() == pruned(
                    with_file(old(self).files_of(), nv.icon),
                    final(self).items_view(),
                    final(self).history_view(),
                )
                &&& effects_view(effects@) == notify_effects(show, old(self).duration(), nv)
                &&& final(self).is_dnd() == old(self).is_dnd()
                &&& final(self).is_connected() == old(self).is_connected()
            }),
    {
        let ghost nv = n@;
        self.add_file(&n);
        // Into the history, replacing in place or first.
        if self.config.history > 0 {
            let entry = Entry { notification: n.copy(), received, seen: false };
            let ghost ev = entry@;
            let j = self.find_entry(n.id);
            let ghost before = self.history_view();
            proof {
                lemma_index_where(before, entry_with_id(n.id));
            }
            if j < self.history.len() {
                self.history.set(j, entry);
                proof {
                    assert(self.history_view() =~= before.update(j as int, ev));
                    lemma_entry_update_unique(before, j as int, ev);
                }
            } else {
                self.history.insert(0, entry);
                proof {
                    assert(self.history_view() =~= seq![ev] + before);
                    assert forall|k: int| 0 <= k < before.len() implies before[k].note.id != ev.note.id by {
                        assert(!entry_with_id(n.id)(before[k]));
                    }
                    lemma_entry_prepend_unique(before, ev);
                }
            }
            let ghost up = self.history_view();
            self.history.truncate(self.config.history);
            proof {
                if up.len() > self.config.history {
                    assert(self.history_view() =~= up.take(self.config.history as int));
                    assert(unique_entry_ids(self.history_view()));
                } else {
                    assert(self.history_view() =~= up);
                }
            }
        }
        // On screen, unless quiet: then only what can't wait.
        let show = !self.dnd || n.urgency == Urgency::Critical;
        let mut effects: Vec<Effect> = Vec::new();
        if show {
            match self.timeout(&n) {
                Some(d) => {
                    effects.push(Effect::Expire { id: n.id, serial: n.serial, after: d });
                    assert(effects_view(effects@) =~= seq![EffectView::Expire { id: nv.id, serial: nv.serial, after: d }]);
                },
                None => {
                    assert(effects_view(effects@) =~= Seq::<EffectView>::empty());
                },
            }
            let i = self.find_item(n.id);
            let ghost before = self.items_view();
            proof {
                lemma_index_where(before, with_id(nv.id));
            }
            if i < self.items.len() {
                self.items.set(i, n);
                proof {
                    assert(self.items_view() =~= before.update(i as int, nv));
                    lemma_update_unique(before, i as int, nv);
                }
            } else {
                self.items.insert(0, n);
                proof {
                    assert(self.items_view() =~= seq![nv] + before);
                    assert forall|k: int| 0 <= k < before.len() implies before[k].id != nv.id by {
                        assert(!with_id(nv.id)(before[k]));
                    }
                    lemma_prepend_unique(before, nv);
                }
            }
        } else {
            assert(effects_view(effects@) =~= Seq::<EffectView>::empty());
            let _ = self.remove_item(n.id);
        }
        self.prune_files();
        effects
    }
}


/// Every entry marked seen.
pub open spec fn all_seen(history: Seq<EntryView>) -> Seq<EntryView> {
    history.map_values(|e: EntryView| EntryView { note: e.note, received: e.received, seen: true })
}

pub open spec fn item_ids(items: Seq<NotificationView>) -> Seq<u32> {
    items.map_values(|n: NotificationView| n.id)
}

impl Notifications {
    /// Notification `id`, on screen or in the history.
    fn lookup(&self, id: u32) -> (r: Option<&Notification>)
        ensures
            match r {
                Some(n) => lookup_note(self.items_view(), self.history_view(), id) == Some(n@),
                None => lookup_note(self.items_view(), self.history_view(), id) is None,
            },
    {
        let i = self.find_item(id);
        if i < self.items.len() {
            assert(self.items_view()[i as int] == self.items@[i as int]@);
            return Some(&self.items[i]);
        }
        let j = self.find_entry(id);
        if j < self.history.len() {
            assert(self.history_view()[j as int] == self.history@[j as int]@);
            return Some(&self.history[j].notification);
        }
        None
    }

    /// Close every toast on screen.
    fn close_all(&mut self) -> (effects: Vec<Effect>)
        requires
            old(self).wf(),
        ensures
            final(self).wf(),
            final(self).items_view() == Seq::<NotificationView>::empty(),
            effects_view(effects@) == closed_effects(item_ids(old(self).items_view()), old(self).is_connected()),
            final(self).files_of() == old(self).files_of(),
            final(self).history_view() == old(self).history_view(),
            final(self).is_dnd() == old(self).is_dnd(),
            final(self).is_connected() == old(self).is_connected(),
            final(self).cap() == old(self).cap(),
            final(self).duration() == old(self).duration(),
    {
        let mut effects: Vec<Effect> = Vec::new();
        let ghost ids = item_ids(self.items_view());
        if self.connected {
            let mut i: usize = 0;
            while i < self.items.len()
                invariant
                    i <= self.items.len(),
                    ids == item_ids(self.items_view()),
                    effects_view(effects@) == closed_effects(ids, true).take(i as int),
                decreases self.items.len() - i,
            {
                let ghost old_e = effects_view(effects@);
                let e = Effect::Closed { id: self.items[i].id, reason: Reason::Dismissed };
                effects.push(e);
                assert(effects_view(effects@) =~= old_e.push(e@));
                assert(closed_effects(ids, true).take(i + 1) =~= closed_effects(ids, true).take(
                    i as int,
                ).push(EffectView::Closed { id: ids[i as int], reason: Reason::Dismissed }));
                i = i + 1;
            }
            assert(closed_effects(ids, true).take(self.items.len() as int) =~= closed_effects(ids, true));
        } else {
            assert(effects_view(effects@) =~= closed_effects(ids, false));
        }
        self.items.clear();
        assert(self.items_view() =~= Seq::<NotificationView>::empty());
        effects
    }

    fn mark_seen(&mut self)
        requires
            old(self).wf(),
        ensures
            final(self).wf(),
            final(self).history_view() == all_seen(old(self).history_view()),
            final(self).items_view() == old(self).items_view(),
            final(self).files_of() == old(self).files_of(),
            final(self).is_dnd() == old(self).is_dnd(),
            final(self).is_connected() == old(self).is_connected(),
            final(self).cap() == old(self).cap(),
            final(self).duration() == old(self).duration(),
    {
        let ghost h0 = self.history_view();
        let mut i: usize = 0;
        while i < self.history.len()
            invariant
                i <= self.history.len(),
                self.history.len() == h0.len(),
                unique_entry_ids(h0),
                forall|j: int| 0 <= j < i ==> #[trigger] self.history_view()[j] == all_seen(h0)[j],
                forall|j: int| i <= j < h0.len() ==> #[trigger] self.history_view()[j] == h0[j],
                self.items_view() == old(self).items_view(),
                self.files_of() == old(self).files_of(),
                self.dnd == old(self).dnd,
                self.connected == old(self).connected,
                self.config.history == old(self).config.history,
                self.config.duration == old(self).config.duration,
            decreases self.history.len() - i,
        {
            let ghost before = self.history@;
            let ghost bv = self.history_view();
            assert(forall|j: int| 0 <= j < i ==> bv[j] == all_seen(h0)[j]);
            assert(forall|j: int| i <= j < h0.len() ==> bv[j] == h0[j]);
            assert(self.history_view()[i as int] == h0[i as int]);
            assert(before[i as int]@ == h0[i as int]);
            let mut e = self.history.remove(i);
            e.seen = true;
            self.history.insert(i, e);
            proof {
                assert(self.history@ =~= before.update(i as int, e));
                assert(e@ == EntryView { note: h0[i as int].note, received: h0[i as int].received, seen: true });
                assert(self.history_view()[i as int] == all_seen(h0)[i as int]);
                assert forall|j: int| 0 <= j < h0.len() && j != i implies #[trigger] self.history_view()[j] == before[j]@ by {}
                assert forall|j: int| 0 <= j < i + 1 implies #[trigger] self.history_view()[j] == all_seen(h0)[j] by {
                    if j < i {
                        assert(self.history_view()[j] == before[j]@);
                        assert(bv[j] == before[j]@);
                    }
                }
                assert forall|j: int| i + 1 <= j < h0.len() implies #[trigger] self.history_view()[j] == h0[j] by {
                    assert(self.history_view()[j] == before[j]@);
                    assert(bv[j] == before[j]@);
                }
            }
            i = i + 1;
        }
        assert(self.history_view() =~= all_seen(h0));
        proof {
            let h = self.history_view();
            assert forall|a: int, b: int| 0 <= a < b < h.len() implies h[a].note.id != h[b].note.id by {
                assert(h0[a].note.id != h0[b].note.id);
            }
        }
    }

    /// Run a command from the toasts or the bar gadget; the effects are
    /// the signals it sends. Every command ends by forgetting the icon
    /// files nothing shows any more.
    pub fn run(&mut self, command: Command) -> (effects: Vec<Effect>)
        requires
            old(self).wf(),
        ensures
            final(self).wf(),
            final(self).cap() == old(self).cap(),
            final(self).duration() == old(self).duration(),
            final(self).is_connected() == old(self).is_connected(),
            final(self).files_of() == pruned(
                old(self).files_of(),
                final(self).items_view(),
                final(self).history_view(),
            ),
            match command {
                Command::Activate(id) => {
                    let default = match lookup_note(old(self).items_view(), old(self).history_view(), id) {
                        Some(n) => has_default(n),
                        None => false,
                    };
                    let found = index_where(old(self).items_view(), with_id(id)) < old(self).items_view().len();
                    &&& final(self).items_view() == remove_where(old(self).items_view(), with_id(id))
                    &&& final(self).history_view() == remove_where(old(self).history_view(), entry_with_id(id))
                    &&& effects_view(effects@) == (if default && old(self).is_connected() {
                        seq![EffectView::Invoked { id, key: "default"@ }]
                    } else {
                        seq![]
                    }) + (if found && old(self).is_connected() {
                        seq![EffectView::Closed { id, reason: Reason::Dismissed }]
                    } else {
                        seq![]
                    })
                    &&& final(self).is_dnd() == old(self).is_dnd()
                },
                Command::Invoke(id, key) => {
                    let found = index_where(old(self).items_view(), with_id(id)) < old(self).items_view().len();
                    &&& final(self).items_view() == remove_where(old(self).items_view(), with_id(id))
                    &&& final(self).history_view() == remove_where(old(self).history_view(), entry_with_id(id))
                    &&& effects_view(effects@) == (if old(self).is_connected() {
                        seq![EffectView::Invoked { id, key: key@ }]
                    } else {
                        seq![]
                    }) + (if found && old(self).is_connected() {
                        seq![EffectView::Closed { id, reason: Reason::Dismissed }]
                    } else {
                        seq![]
                    })
                    &&& final(self).is_dnd() == old(self).is_dnd()
                },
                Command::Dismiss(id) => {
                    let found = index_where(old(self).items_view(), with_id(id)) < old(self).items_view().len();
                    &&& final(self).items_view() == remove_where(old(self).items_view(), with_id(id))
                    &&& final(self).history_view() == remove_where(old(self).history_view(), entry_with_id(id))
                    &&& effects_view(effects@) == (if found && old(self).is_connected() {
                        seq![EffectView::Closed { id, reason: Reason::Dismissed }]
                    } else {
                        seq![]
                    })
                    &&& final(self).is_dnd() == old(self).is_dnd()
                },
                Command::DismissAll => {
                    &&& final(self).items_view() == Seq::<NotificationView>::empty()
                    &&& final(self).history_view() == old(self).history_view()
                    &&& effects_view(effects@) == closed_effects(item_ids(old(self).items_view()), old(self).is_connected())
                    &&& final(self).is_dnd() == old(self).is_dnd()
                },
                Command::ToggleDnd => {
                    &&& final(self).is_dnd() == !old(self).is_dnd()
                    &&& final(self).items_view() == old(self).items_view()
                    &&& final(self).history_view() == old(self).history_view()
                    &&& effects@.len() == 0
                },
                Command::MarkSeen => {
                    &&& final(self).history_view() == all_seen(old(self).history_view())
                    &&& final(self).items_view() == old(self).items_view()
                    &&& final(self).is_dnd() == old(self).is_dnd()
                    &&& effects@.len() == 0
                },
                Command::Clear => {
                    &&& final(self).items_view() == Seq::<NotificationView>::empty()
                    &&& final(self).history_view() == Seq::<EntryView>::empty()
                    &&& effects_view(effects@) == closed_effects(item_ids(old(self).items_view()), old(self).is_connected())
                    &&& final(self).is_dnd() == old(self).is_dnd()
                },
            },
    {
        let mut effects: Vec<Effect> = Vec::new();
        match command {
            Command::Activate(id) => {
                let default = match self.lookup(id) {
                    Some(n) => n.has_default_action(),
                    None => false,
                };
                if default && self.connected {
                    effects.push(Effect::Invoked { id, key: owned("default") });
                }
                let ghost first = effects_view(effects@);
                self.forget(id);
                let found = self.remove_item(id);
                let mut closed = self.closed_signal(found, id);
                let ghost second = effects_view(closed@);
                effects.append(&mut closed);
                assert(effects_view(effects@) =~= first + second);
            },
            Command::Invoke(id, key) => {
                if self.connected {
                    effects.push(Effect::Invoked { id, key });
                }
                let ghost first = effects_view(effects@);
                self.forget(id);
                let found = self.remove_item(id);
                let mut closed = self.closed_signal(found, id);
                let ghost second = effects_view(closed@);
                effects.append(&mut closed);
                assert(effects_view(effects@) =~= first + second);
            },
            Command::Dismiss(id) => {
                self.forget(id);
                let found = self.remove_item(id);
                effects = self.closed_signal(found, id);
            },
            Command::DismissAll => {
                effects = self.close_all();
            },
            Command::ToggleDnd => {
                self.dnd = !self.dnd;
            },
            Command::MarkSeen => {
                self.mark_seen();
            },
            Command::Clear => {
                self.history.clear();
                assert(self.history_view() =~= Seq::<EntryView>::empty());
                effects = self.close_all();
            },
        }
        self.prune_files();
        effects
    }

    /// The `NotificationClosed(id, Dismissed)` signal of a toast taken
    /// off the screen, when there was one and the bus is up.
    fn closed_signal(&self, found: bool, id: u32) -> (effects: Vec<Effect>)
        ensures
            effects_view(effects@) == (if found && self.is_connected() {
                seq![EffectView::Closed { id, reason: Reason::Dismissed }]
            } else {
                seq![]
            }),
    {
        let mut effects: Vec<Effect> = Vec::new();
        if found && self.connected {
            effects.push(Effect::Closed { id, reason: Reason::Dismissed });
            assert(effects_view(effects@) =~= seq![EffectView::Closed { id, reason: Reason::Dismissed }]);
        } else {
            assert(effects_view(effects@) =~= Seq::<EffectView>::empty());
        }
        effects
    }
}


// ---------------------------------------------------------------------
// Laws
// ---------------------------------------------------------------------

/// The history never holds more than its configured size once a
/// notification came in (and it grows by at most one).
pub proof fn history_is_capped(history: Seq<EntryView>, e: EntryView, cap: nat)
    requires
        cap > 0,
    ensures
        history_after_notify(history, e, cap).len() <= cap,
        history_after_notify(history, e, cap).len() <= history.len() + 1,
        history_after_notify(history, e, cap)[0] == e || index_where(history, entry_with_id(e.note.id)) < history.len(),
{
    lemma_index_where(history, entry_with_id(e.note.id));
}

/// A history within its configured size stays within it whatever comes
/// in, a size of 0 included: with a size of 0 nothing is ever kept.
pub proof fn the_history_keeps_to_its_size(history: Seq<EntryView>, e: EntryView, cap: nat)
    requires
        history.len() <= cap,
    ensures
        history_after_notify(history, e, cap).len() <= cap,
        cap == 0 ==> history_after_notify(history, e, cap).len() == 0,
        cap > 0 ==> history_after_notify(history, e, cap).contains(e),
{
    if cap > 0 {
        lemma_index_where(history, entry_with_id(e.note.id));
        let up = upsert(history, e, entry_with_id(e.note.id));
        let i = index_where(history, entry_with_id(e.note.id));
        if 0 <= i < history.len() {
            assert(up[i] == e);
            assert(up.len() == history.len());
            assert(history_after_notify(history, e, cap) == up);
        } else {
            assert(up[0] == e);
            if up.len() > cap {
                assert(up.take(cap as int)[0] == e);
            }
        }
    }
}

/// A notification replacing one on screen takes its place: same
/// position, nothing else moves.
pub proof fn replacement_keeps_its_place(items: Seq<NotificationView>, n: NotificationView, i: int)
    requires
        unique_ids(items),
        0 <= i < items.len(),
        items[i].id == n.id,
    ensures
        items_after_notify(items, n, true) == items.update(i, n),
{
    lemma_index_where(items, with_id(n.id));
    let f = index_where(items, with_id(n.id));
    if f != i {
        assert(f < i);
        assert(items[f].id == n.id);
    }
}

/// A new notification comes first.
pub proof fn new_notification_comes_first(items: Seq<NotificationView>, n: NotificationView)
    requires
        forall|j: int| 0 <= j < items.len() ==> items[j].id != n.id,
    ensures
        items_after_notify(items, n, true) == seq![n] + items,
{
    lemma_index_where(items, with_id(n.id));
    if index_where(items, with_id(n.id)) < items.len() {
        assert(items[index_where(items, with_id(n.id))].id == n.id);
    }
}

/// While do-not-disturb is on, only a critical notification shows: any
/// other leaves no toast with its id.
pub proof fn quiet_means_no_toast(items: Seq<NotificationView>, n: NotificationView)
    requires
        unique_ids(items),
        n.urgency != Urgency::Critical,
    ensures
        !shows(true, n),
        forall|j: int|
            0 <= j < items_after_notify(items, n, shows(true, n)).len() ==> #[trigger] items_after_notify(
                items,
                n,
                shows(true, n),
            )[j].id != n.id,
{
    lemma_index_where(items, with_id(n.id));
    let i = index_where(items, with_id(n.id));
    if i < items.len() {
        lemma_remove_unique(items, i);
    } else {
        assert forall|j: int| 0 <= j < items.len() implies items[j].id != n.id by {
            assert(!with_id(n.id)(items[j]));
        }
    }
}

/// What the user dealt with is gone: after removal by id, no toast and
/// no history entry carries it.
pub proof fn dismissed_is_gone(items: Seq<NotificationView>, history: Seq<EntryView>, id: u32)
    requires
        unique_ids(items),
        unique_entry_ids(history),
    ensures
        forall|j: int|
            0 <= j < remove_where(items, with_id(id)).len() ==> #[trigger] remove_where(items, with_id(id))[j].id != id,
        forall|j: int|
            0 <= j < remove_where(history, entry_with_id(id)).len() ==> #[trigger] remove_where(
                history,
                entry_with_id(id),
            )[j].note.id != id,
{
    lemma_index_where(items, with_id(id));
    lemma_index_where(history, entry_with_id(id));
    let i = index_where(items, with_id(id));
    let k = index_where(history, entry_with_id(id));
    if i < items.len() {
        lemma_remove_unique(items, i);
    } else {
        assert forall|j: int| 0 <= j < items.len() implies items[j].id != id by {
            assert(!with_id(id)(items[j]));
        }
    }
    if k < history.len() {
        lemma_entry_remove_unique(history, k);
    } else {
        assert forall|j: int| 0 <= j < history.len() implies history[j].note.id != id by {
            assert(!entry_with_id(id)(history[j]));
        }
    }
}

/// Once the history was looked at, nothing in it is new.
pub proof fn marked_history_has_nothing_unseen(history: Seq<EntryView>)
    ensures
        all_seen(history).filter(|e: EntryView| !e.seen).len() == 0,
        all_seen(history).len() == history.len(),
{
    let a = all_seen(history);
    a.lemma_all_neg_filter_empty(|e: EntryView| !e.seen);
}


// ---------------------------------------------------------------------
// The body's markup
// ---------------------------------------------------------------------

pub open spec fn is_markup_start(c: char) -> bool {
    c == '<' || c == '&'
}

/// Index of the first `<` or `&`; `s.len()` when none.
pub open spec fn first_markup(s: Seq<char>) -> int
    decreases s.len(),
{
    if s.len() == 0 {
        0
    } else if is_markup_start(s[0]) {
        0
    } else {
        first_markup(s.drop_first()) + 1
    }
}

proof fn lemma_first_markup(s: Seq<char>)
    ensures
        0 <= first_markup(s) <= s.len(),
        first_markup(s) < s.len() ==> is_markup_start(s[first_markup(s)]),
        forall|j: int| 0 <= j < first_markup(s) ==> !is_markup_start(#[trigger] s[j]),
    decreases s.len(),
{
    if s.len() > 0 && !is_markup_start(s[0]) {
        lemma_first_markup(s.drop_first());
        assert forall|j: int| 0 <= j < first_markup(s) implies !is_markup_start(#[trigger] s[j]) by {
            if j > 0 {
                assert(s[j] == s.drop_first()[j - 1]);
            }
        }
    }
}

proof fn lemma_first_markup_unique(s: Seq<char>, i: int)
    requires
        0 <= i <= s.len(),
        i < s.len() ==> is_markup_start(s[i]),
        forall|j: int| 0 <= j < i ==> !is_markup_start(#[trigger] s[j]),
    ensures
        first_markup(s) == i,
{
    lemma_first_markup(s);
    let f = first_markup(s);
    if f < i {
        assert(!is_markup_start(s[f]));
    } else if i < f {
        assert(!is_markup_start(s[i]));
    }
}

/// `s` without its leading `/`s.
pub open spec fn skip_slashes(s: Seq<char>) -> Seq<char>
    decreases s.len(),
{
    if s.len() > 0 && s[0] == '/' {
        skip_slashes(s.drop_first())
    } else {
        s
    }
}

/// What is between `<` and `>` reads as a tag: letters after the
/// slashes.
pub open spec fn tag_like(inner: Seq<char>) -> bool {
    let t = skip_slashes(inner);
    t.len() > 0 && crate::text::is_ascii_alpha(t[0])
}

/// A Unicode scalar value: what `char::from_u32` accepts.
pub open spec fn is_scalar(u: u32) -> bool {
    u <= 0x10ffff && !(0xd800 <= u <= 0xdfff)
}

/// `char::from_u32`: the character of a scalar value, `None` for a
/// surrogate or a value past `0x10FFFF`.
#[verifier::external_body]
fn char_from_u32(u: u32) -> (r: Option<char>)
    ensures
        r is Some <==> is_scalar(u),
        r matches Some(c) ==> c as u32 == u && c == u as char,
{
    char::from_u32(u)
}

/// The code of a numeric entity's text after `#`: `x` then hex digits,
/// else decimal digits.
pub open spec fn entity_code(num: Seq<char>) -> Option<nat> {
    if num.len() > 0 && num[0] == 'x' {
        crate::text::parse_uint(num.drop_first(), 16, u32::MAX as nat)
    } else {
        crate::text::parse_uint(num, 10, u32::MAX as nat)
    }
}

/// The character an entity's name (between `&` and `;`) stands for.
pub open spec fn entity_char(e: Seq<char>) -> Option<char> {
    if e == "amp"@ {
        Some('&')
    } else if e == "lt"@ {
        Some('<')
    } else if e == "gt"@ {
        Some('>')
    } else if e == "quot"@ {
        Some('"')
    } else if e == "apos"@ {
        Some('\'')
    } else if e.len() > 0 && e[0] == '#' {
        match entity_code(e.drop_first()) {
            Some(u) => if is_scalar(u as u32) {
                Some((u as u32) as char)
            } else {
                None
            },
            None => None,
        }
    } else {
        None
    }
}

/// The body as plain text: the spec's markup (`<b>`, `<i>`, `<u>`,
/// `<a href>`, `<img>`) stripped, `<br>` a line break, entities
/// decoded. A `<` or `&` that starts no tag or entity is kept.
pub open spec fn plain(s: Seq<char>) -> Seq<char>
    decreases s.len(),
{
    let i = first_markup(s);
    if i < 0 || i >= s.len() {
        s
    } else {
        let tail = s.skip(i);
        s.take(i) + if tail[0] == '<' {
            let end = crate::text::first_index(tail, '>');
            if 1 <= end < tail.len() && tag_like(tail.subrange(1, end)) {
                (if crate::text::starts_with(tail.subrange(1, end), "br"@) {
                    seq!['\n']
                } else {
                    seq![]
                }) + plain(tail.skip(end + 1))
            } else {
                seq!['<'] + plain(tail.skip(1))
            }
        } else {
            let semi = crate::text::first_index(tail, ';');
            if 1 <= semi < tail.len() && entity_char(tail.subrange(1, semi)) is Some {
                seq![entity_char(tail.subrange(1, semi))->0] + plain(tail.skip(semi + 1))
            } else {
                seq!['&'] + plain(tail.skip(1))
            }
        }
    }
}

fn is_tag_like(s: &[char], from: usize, to: usize) -> (r: bool)
    requires
        from <= to <= s.len(),
    ensures
        r == tag_like(s@.subrange(from as int, to as int)),
{
    let mut a = from;
    assert(s@.subrange(from as int, to as int) =~= s@.subrange(a as int, to as int));
    while a < to && s[a] == '/'
        invariant
            from <= a <= to <= s.len(),
            skip_slashes(s@.subrange(from as int, to as int)) == skip_slashes(s@.subrange(a as int, to as int)),
        decreases to - a,
    {
        assert(s@.subrange(a as int, to as int).drop_first() =~= s@.subrange(a + 1, to as int));
        a = a + 1;
    }
    let ghost t = s@.subrange(a as int, to as int);
    assert(skip_slashes(t) == t);
    a < to && (('A' <= s[a] && s[a] <= 'Z') || ('a' <= s[a] && s[a] <= 'z'))
}

fn entity_of(e: &[char]) -> (r: Option<char>)
    ensures
        r == entity_char(e@),
{
    if crate::text::eq_str(e, "amp") {
        Some('&')
    } else if crate::text::eq_str(e, "lt") {
        Some('<')
    } else if crate::text::eq_str(e, "gt") {
        Some('>')
    } else if crate::text::eq_str(e, "quot") {
        Some('"')
    } else if crate::text::eq_str(e, "apos") {
        Some('\'')
    } else if e.len() > 0 && e[0] == '#' {
        let code = if e.len() > 1 && e[1] == 'x' {
            let hex = slice_vec(e, 2, e.len());
            assert(hex@ =~= e@.drop_first().drop_first());
            crate::text::parse_number(hex.as_slice(), 16, u32::MAX as u64)
        } else {
            let num = slice_vec(e, 1, e.len());
            assert(num@ =~= e@.drop_first());
            crate::text::parse_number(num.as_slice(), 10, u32::MAX as u64)
        };
        match code {
            Some(u) => char_from_u32(u as u32),
            None => None,
        }
    } else {
        None
    }
}

fn push_all(out: &mut Vec<char>, s: &[char], from: usize, to: usize)
    requires
        from <= to <= s.len(),
    ensures
        final(out)@ == old(out)@ + s@.subrange(from as int, to as int),
{
    let mut i = from;
    while i < to
        invariant
            from <= i <= to <= s.len(),
            out@ == old(out)@ + s@.subrange(from as int, i as int),
        decreases to - i,
    {
        out.push(s[i]);
        i = i + 1;
        assert(old(out)@ + s@.subrange(from as int, i as int) =~= (old(out)@ + s@.subrange(
            from as int,
            i - 1,
        )).push(s@[i - 1]));
    }
}

proof fn lemma_plain_split(s: Seq<char>)
    requires
        0 <= first_markup(s) < s.len(),
    ensures
        plain(s) == s.take(first_markup(s)) + plain(s.skip(first_markup(s))),
{
    let i = first_markup(s);
    lemma_first_markup(s);
    let tail = s.skip(i);
    assert(tail[0] == s[i]);
    lemma_first_markup_unique(tail, 0);
    assert(tail.take(0) =~= Seq::<char>::empty());
    assert(tail.skip(0) =~= tail);
    assert(Seq::<char>::empty() + plain(tail.skip(0)) =~= plain(tail.skip(0)));
}

/// One piece of markup at `s[i]` (a `<` or `&`): what it stands for,
/// and where the text resumes.
#[verifier::spinoff_prover]
#[verifier::rlimit(40)]
fn markup_step(s: &[char], i: usize) -> (r: (Vec<char>, usize))
    requires
        i < s.len(),
        is_markup_start(s@[i as int]),
    ensures
        i < r.1 <= s.len(),
        ({
            let tail = s@.skip(i as int);
            plain(tail) == r.0@ + plain(s@.skip(r.1 as int))
        }),
{
    let ghost tail = s@.skip(i as int);
    proof {
        lemma_first_markup_unique(tail, 0);
        assert(tail.take(0) =~= Seq::<char>::empty());
        assert(tail.skip(0) =~= tail);
    }
    let mut out: Vec<char> = Vec::new();
    if s[i] == '<' {
        let end = crate::text::find_from(s, i, '>');
        if end < s.len() && end >= i + 1 && is_tag_like(s, i + 1, end) {
            assert(tail.subrange(1, end - i) =~= s@.subrange(i + 1, end as int));
            let inner = slice_vec(s, i + 1, end);
            let br = crate::text::has_prefix(inner.as_slice(), "br");
            if br {
                out.push('\n');
            }
            assert(tail.skip(end - i + 1) =~= s@.skip(end + 1));
            assert(out@ =~= (if br { seq!['\n'] } else { Seq::<char>::empty() }));
            (out, end + 1)
        } else {
            out.push('<');
            assert(tail.skip(1) =~= s@.skip(i + 1));
            assert(out@ =~= seq!['<']);
            (out, i + 1)
        }
    } else {
        let semi = crate::text::find_from(s, i, ';');
        let decoded = if semi < s.len() && semi >= i + 1 {
            let e = slice_vec(s, i + 1, semi);
            assert(tail.subrange(1, semi - i) =~= e@);
            entity_of(e.as_slice())
        } else {
            None
        };
        match decoded {
            Some(c) => {
                out.push(c);
                assert(tail.skip(semi - i + 1) =~= s@.skip(semi + 1));
                assert(out@ =~= seq![c]);
                (out, semi + 1)
            },
            None => {
                out.push('&');
                assert(tail.skip(1) =~= s@.skip(i + 1));
                assert(out@ =~= seq!['&']);
                (out, i + 1)
            },
        }
    }
}

/// The body as plain text (see [`plain`]).
pub fn plain_text(body: &str) -> (r: String)
    ensures
        r@ == plain(body@),
{
    let s = chars_of(body);
    let s = s.as_slice();
    let mut out: Vec<char> = Vec::new();
    let mut pos: usize = 0;
    assert(s@.skip(0) =~= s@);
    while pos < s.len()
        invariant
            pos <= s.len(),
            s@ == body@,
            plain(s@) == out@ + plain(s@.skip(pos as int)),
        decreases s.len() - pos,
    {
        let ghost rest = s@.skip(pos as int);
        let mut i = pos;
        while i < s.len() && s[i] != '<' && s[i] != '&'
            invariant
                pos <= i <= s.len(),
                forall|j: int| pos <= j < i ==> !is_markup_start(#[trigger] s@[j]),
            decreases s.len() - i,
        {
            i = i + 1;
        }
        proof {
            assert forall|j: int| 0 <= j < i - pos implies !is_markup_start(#[trigger] rest[j]) by {
                assert(rest[j] == s@[pos + j]);
            }
            if i < s.len() {
                assert(rest[i - pos] == s@[i as int]);
            }
            lemma_first_markup_unique(rest, i - pos);
        }
        let ghost before = out@;
        push_all(&mut out, s, pos, i);
        assert(rest.take(i - pos) =~= s@.subrange(pos as int, i as int));
        if i == s.len() {
            assert(rest =~= s@.subrange(pos as int, i as int));
            assert(s@.skip(i as int) =~= Seq::<char>::empty());
            assert(before + plain(rest) =~= out@ + plain(s@.skip(i as int)));
            pos = i;
        } else {
            assert(rest.skip(i - pos) =~= s@.skip(i as int));
            let (emitted, next) = markup_step(s, i);
            let ghost mid = out@;
            push_all(&mut out, emitted.as_slice(), 0, emitted.len());
            assert(emitted@.subrange(0, emitted@.len() as int) =~= emitted@);
            proof {
                lemma_plain_split(rest);
                assert(plain(rest) == rest.take(i - pos) + plain(s@.skip(i as int)));
                assert(before + plain(rest) =~= out@ + plain(s@.skip(next as int)));
            }
            pos = next;
        }
    }
    assert(s@.skip(pos as int) =~= Seq::<char>::empty());
    assert(out@ + Seq::<char>::empty() =~= out@);
    string_of(out.as_slice())
}

} // verus!
