//! Audio: the mixer (outputs, inputs and the streams playing, with
//! their volume and mute) and the media players, as last reported.
//!
//! The mixer and bus connections are the caller's: it turns what they
//! report into [`Event`]s for [`Audio::apply`], gadgets read the
//! resulting [`Channel`]s and [`Player`]s, and the [`Command`]s they
//! give become, through [`Audio::run`], what to send on which
//! connection.
use vstd::prelude::*;
use vstd::utf8::{decode_utf8, encode_utf8, valid_utf8};

use crate::config::opt_view;
use crate::notifications::str_eq_string;
use crate::text::{chars_of, has_prefix, parse_number, parse_uint, slice_vec, starts_with, string_of};

verus! {

/// The kind of a mixer channel.
#[derive(Debug, Clone, Copy, PartialEq, Eq, Structural, Hash)]
pub enum Kind {
    /// A sink: speakers, headphones, ...
    Output,
    /// A source: a microphone, ...
    Input,
    /// An application's stream playing to a sink.
    Stream,
}

#[derive(Debug, Clone, Copy, PartialEq, Eq, Structural)]
pub enum PlaybackStatus {
    Playing,
    Paused,
    Stopped,
}

/// A media player, as last reported over MPRIS.
#[derive(Debug, Clone)]
pub struct Player {
    /// Its bus name: `org.mpris.MediaPlayer2.spotify`.
    pub bus: String,
    pub identity: String,
    /// Its desktop entry id, to find its icon.
    pub desktop_entry: Option<String>,
    pub status: PlaybackStatus,
    pub title: String,
    pub artist: String,
    pub album: String,
    /// The cover's URL.
    pub art: Option<String>,
    pub can_go_next: bool,
    pub can_go_previous: bool,
    pub can_play: bool,
    pub can_pause: bool,
}

impl Player {
    /// A player known by its bus name only: stopped, nothing playing,
    /// nothing allowed.
    pub fn new(bus: String) -> (r: Player)
        ensures
            r.bus@ == bus@,
            r.identity@.len() == 0,
            r.desktop_entry is None,
            r.status == PlaybackStatus::Stopped,
            r.title@.len() == 0,
            r.artist@.len() == 0,
            r.album@.len() == 0,
            r.art is None,
            !r.can_go_next && !r.can_go_previous && !r.can_play && !r.can_pause,
    {
        Player {
            bus,
            identity: String::new(),
            desktop_entry: None,
            status: PlaybackStatus::Stopped,
            title: String::new(),
            artist: String::new(),
            album: String::new(),
            art: None,
            can_go_next: false,
            can_go_previous: false,
            can_play: false,
            can_pause: false,
        }
    }
}

/// The byte two hex digits stand for, as `u8::from_str_radix(.., 16)`
/// reads the pair; both must be ASCII.
pub open spec fn hex_pair(a: u8, b: u8) -> Option<u8> {
    if a < 128 && b < 128 {
        match parse_uint(seq![a as char, b as char], 16, 255) {
            Some(v) => Some(v as u8),
            None => None,
        }
    } else {
        None
    }
}

/// `%XX` escapes turned into their bytes; a `%` without two hex digits
/// after it (and a third byte to spare) stays as it is.
pub open spec fn unpercent(b: Seq<u8>) -> Seq<u8>
    decreases b.len(),
{
    if b.len() == 0 {
        seq![]
    } else if b[0] == 37 && b.len() >= 3 && hex_pair(b[1], b[2]) is Some {
        seq![hex_pair(b[1], b[2])->0] + unpercent(b.skip(3))
    } else {
        seq![b[0]] + unpercent(b.drop_first())
    }
}

fn hex_byte(a: u8, b: u8) -> (r: Option<u8>)
    ensures
        r == hex_pair(a, b),
{
    if a >= 128 || b >= 128 {
        return None;
    }
    let pair = [a as char, b as char];
    assert(pair@ =~= seq![a as char, b as char]);
    match parse_number(&pair, 16, 255) {
        Some(v) => Some(v as u8),
        None => None,
    }
}

/// The bytes of `%20` and friends decoded.
pub fn decode_percents(b: &[u8]) -> (r: Vec<u8>)
    ensures
        r@ == unpercent(b@),
{
    let mut out: Vec<u8> = Vec::new();
    let mut i: usize = 0;
    assert(b@.skip(0) =~= b@);
    while i < b.len()
        invariant
            i <= b.len(),
            unpercent(b@) == out@ + unpercent(b@.skip(i as int)),
        decreases b.len() - i,
    {
        let ghost t = b@.skip(i as int);
        if b[i] == 37 && b.len() - i >= 3 {
            match hex_byte(b[i + 1], b[i + 2]) {
                Some(v) => {
                    let ghost o0 = out@;
                    out.push(v);
                    assert(t[1] == b@[i + 1] && t[2] == b@[i + 2]);
                    assert(t.skip(3) =~= b@.skip(i + 3));
                    assert(o0 + unpercent(t) =~= out@ + unpercent(b@.skip(i + 3)));
                    i = i + 3;
                    continue;
                },
                None => {},
            }
        }
        let ghost o0 = out@;
        out.push(b[i]);
        assert(t.drop_first() =~= b@.skip(i + 1));
        assert(t[0] == b@[i as int]);
        assert(o0 + unpercent(t) =~= out@ + unpercent(b@.skip(i + 1)));
        i = i + 1;
    }
    assert(b@.skip(i as int) =~= Seq::<u8>::empty());
    assert(out@ + Seq::<u8>::empty() =~= out@);
    out
}

/// What `String::from_utf8_lossy` makes of some bytes.
pub uninterp spec fn lossy_utf8(b: Seq<u8>) -> Seq<char>;

/// `String::from_utf8_lossy`: the text the bytes encode, invalid
/// sequences each replaced by U+FFFD. Stated here: the result is a
/// function of the bytes, and valid UTF-8 decodes as it is.
#[verifier::external_body]
fn text_of_bytes(b: &[u8]) -> (r: String)
    ensures
        r@ == lossy_utf8(b@),
        valid_utf8(b@) ==> r@ == decode_utf8(b@),
{
    String::from_utf8_lossy(b).into_owned()
}

/// `%20` and friends in a `file://` URL.
pub fn percent_decode(s: &str) -> (r: String)
    ensures
        r@ == lossy_utf8(unpercent(encode_utf8(s@))),
        valid_utf8(unpercent(encode_utf8(s@))) ==> r@ == decode_utf8(unpercent(encode_utf8(s@))),
{
    let bytes = s.as_bytes();
    let out = decode_percents(bytes);
    text_of_bytes(out.as_slice())
}


// ---------------------------------------------------------------------
// The mixer and the players, as last reported.

/// 100% in the server's volume units (libpulse's `Volume::NORMAL`).
pub const VOLUME_NORM: u32 = 0x10000;

/// A mixer channel, as last reported. Sinks, sources and streams are
/// numbered apart: `(kind, index)` is the identity.
#[derive(Debug)]
pub struct Channel {
    pub kind: Kind,
    pub index: u32,
    /// The server's name (`alsa_output.pci-...`), what the default is
    /// named by; a stream's media name.
    pub name: String,
    /// What to show: the device's description, the stream's application.
    pub label: String,
    /// An icon name the server suggested, if any.
    pub icon: Option<String>,
    /// A stream's application name, to find its desktop entry's icon.
    pub app: Option<String>,
    /// In the server's units: [`VOLUME_NORM`] is 100%; may go above.
    pub volume: u32,
    pub muted: bool,
    /// How many audio channels (left, right, ...) it has.
    pub channels: u8,
    /// Whether the volume can be set (some streams say no).
    pub has_volume: bool,
    /// The default device of its kind.
    pub default: bool,
}

pub struct ChannelView {
    pub kind: Kind,
    pub index: u32,
    pub name: Seq<char>,
    pub label: Seq<char>,
    pub icon: Option<Seq<char>>,
    pub app: Option<Seq<char>>,
    pub volume: u32,
    pub muted: bool,
    pub channels: u8,
    pub has_volume: bool,
    pub default: bool,
}

impl View for Channel {
    type V = ChannelView;

    open spec fn view(&self) -> ChannelView {
        ChannelView {
            kind: self.kind,
            index: self.index,
            name: self.name@,
            label: self.label@,
            icon: opt_view(self.icon),
            app: opt_view(self.app),
            volume: self.volume,
            muted: self.muted,
            channels: self.channels,
            has_volume: self.has_volume,
            default: self.default,
        }
    }
}

fn copy_opt(o: &Option<String>) -> (r: Option<String>)
    ensures
        opt_view(r) == opt_view(*o),
{
    match o {
        Some(s) => Some(s.clone()),
        None => None,
    }
}

fn opt_same(a: &Option<String>, b: &Option<String>) -> (r: bool)
    ensures
        r == (opt_view(*a) == opt_view(*b)),
{
    match (a, b) {
        (Some(x), Some(y)) => str_eq_string(x, y),
        (None, None) => true,
        _ => false,
    }
}

impl Channel {
    /// A field-by-field copy.
    pub fn copy(&self) -> (r: Channel)
        ensures
            r@ == self@,
    {
        Channel {
            kind: self.kind,
            index: self.index,
            name: self.name.clone(),
            label: self.label.clone(),
            icon: copy_opt(&self.icon),
            app: copy_opt(&self.app),
            volume: self.volume,
            muted: self.muted,
            channels: self.channels,
            has_volume: self.has_volume,
            default: self.default,
        }
    }

    /// Whether two reports say the same, field by field.
    pub fn same(&self, other: &Channel) -> (r: bool)
        ensures
            r == (self@ == other@),
    {
        self.kind == other.kind && self.index == other.index && str_eq_string(&self.name, &other.name)
            && str_eq_string(&self.label, &other.label) && opt_same(&self.icon, &other.icon)
            && opt_same(&self.app, &other.app) && self.volume == other.volume && self.muted == other.muted
            && self.channels == other.channels && self.has_volume == other.has_volume
            && self.default == other.default
    }
}

pub struct PlayerView {
    pub bus: Seq<char>,
    pub identity: Seq<char>,
    pub desktop_entry: Option<Seq<char>>,
    pub status: PlaybackStatus,
    pub title: Seq<char>,
    pub artist: Seq<char>,
    pub album: Seq<char>,
    pub art: Option<Seq<char>>,
    pub can_go_next: bool,
    pub can_go_previous: bool,
    pub can_play: bool,
    pub can_pause: bool,
}

impl View for Player {
    type V = PlayerView;

    open spec fn view(&self) -> PlayerView {
        PlayerView {
            bus: self.bus@,
            identity: self.identity@,
            desktop_entry: opt_view(self.desktop_entry),
            status: self.status,
            title: self.title@,
            artist: self.artist@,
            album: self.album@,
            art: opt_view(self.art),
            can_go_next: self.can_go_next,
            can_go_previous: self.can_go_previous,
            can_play: self.can_play,
            can_pause: self.can_pause,
        }
    }
}

impl Player {
    /// A field-by-field copy.
    pub fn copy(&self) -> (r: Player)
        ensures
            r@ == self@,
    {
        Player {
            bus: self.bus.clone(),
            identity: self.identity.clone(),
            desktop_entry: copy_opt(&self.desktop_entry),
            status: self.status,
            title: self.title.clone(),
            artist: self.artist.clone(),
            album: self.album.clone(),
            art: copy_opt(&self.art),
            can_go_next: self.can_go_next,
            can_go_previous: self.can_go_previous,
            can_play: self.can_play,
            can_pause: self.can_pause,
        }
    }

    /// Whether two reports say the same, field by field.
    pub fn same(&self, other: &Player) -> (r: bool)
        ensures
            r == (self@ == other@),
    {
        str_eq_string(&self.bus, &other.bus) && str_eq_string(&self.identity, &other.identity)
            && opt_same(&self.desktop_entry, &other.desktop_entry) && self.status == other.status
            && str_eq_string(&self.title, &other.title) && str_eq_string(&self.artist, &other.artist)
            && str_eq_string(&self.album, &other.album) && opt_same(&self.art, &other.art)
            && self.can_go_next == other.can_go_next && self.can_go_previous == other.can_go_previous
            && self.can_play == other.can_play && self.can_pause == other.can_pause
    }
}

/// Where a kind's channels stand: outputs, then inputs, then streams.
pub open spec fn rank(k: Kind) -> int {
    match k {
        Kind::Output => 0,
        Kind::Input => 1,
        Kind::Stream => 2,
    }
}

fn kind_rank(k: Kind) -> (r: u8)
    ensures
        r == rank(k),
{
    match k {
        Kind::Output => 0,
        Kind::Input => 1,
        Kind::Stream => 2,
    }
}

pub open spec fn same_id(c: ChannelView, kind: Kind, index: u32) -> bool {
    c.kind == kind && c.index == index
}

/// Index of the first channel with this identity; `s.len()` if none.
pub open spec fn chan_pos(s: Seq<ChannelView>, kind: Kind, index: u32) -> int
    decreases s.len(),
{
    if s.len() == 0 {
        0
    } else if same_id(s[0], kind, index) {
        0
    } else {
        chan_pos(s.drop_first(), kind, index) + 1
    }
}

/// Where a new channel of rank `r` goes: after the last channel of its
/// kind or of the kinds before it; at the start when there is none.
pub open spec fn insert_at(s: Seq<ChannelView>, r: int) -> int
    decreases s.len(),
{
    if s.len() == 0 {
        0
    } else if rank(s.last().kind) <= r {
        s.len() as int
    } else {
        insert_at(s.drop_last(), r)
    }
}

/// Index of the first player on this bus name; `s.len()` if none.
pub open spec fn player_pos(s: Seq<PlayerView>, bus: Seq<char>) -> int
    decreases s.len(),
{
    if s.len() == 0 {
        0
    } else if s[0].bus == bus {
        0
    } else {
        player_pos(s.drop_first(), bus) + 1
    }
}

/// A reported channel is the default when it is a device named as the
/// default of its kind (an unnamed device never is).
pub open spec fn default_flag(c: ChannelView, sink: Seq<char>, source: Seq<char>) -> bool {
    match c.kind {
        Kind::Output => c.name.len() > 0 && c.name == sink,
        Kind::Input => c.name.len() > 0 && c.name == source,
        Kind::Stream => false,
    }
}

/// When the defaults change, every device is marked by its name alone.
pub open spec fn named_default(c: ChannelView, sink: Seq<char>, source: Seq<char>) -> bool {
    match c.kind {
        Kind::Output => c.name == sink,
        Kind::Input => c.name == source,
        Kind::Stream => false,
    }
}

pub open spec fn with_flag(c: ChannelView, flag: bool) -> ChannelView {
    ChannelView {
        kind: c.kind,
        index: c.index,
        name: c.name,
        label: c.label,
        icon: c.icon,
        app: c.app,
        volume: c.volume,
        muted: c.muted,
        channels: c.channels,
        has_volume: c.has_volume,
        default: flag,
    }
}

/// Outputs, then inputs, then streams.
pub open spec fn grouped(s: Seq<ChannelView>) -> bool {
    forall|i: int, j: int| 0 <= i < j < s.len() ==> rank(#[trigger] s[i].kind) <= rank(#[trigger] s[j].kind)
}

/// No identity twice.
pub open spec fn distinct_channels(s: Seq<ChannelView>) -> bool {
    forall|i: int, j: int| 0 <= i < j < s.len() ==> !same_id(#[trigger] s[i], #[trigger] s[j].kind, s[j].index)
}

/// No bus name twice.
pub open spec fn distinct_players(s: Seq<PlayerView>) -> bool {
    forall|i: int, j: int| 0 <= i < j < s.len() ==> #[trigger] s[i].bus != #[trigger] s[j].bus
}

pub struct AudioView {
    /// The mixer connection is up.
    pub mixer: bool,
    /// The session bus is up.
    pub bus: bool,
    pub channels: Seq<ChannelView>,
    pub default_sink: Seq<char>,
    pub default_source: Seq<char>,
    /// In appearance order.
    pub players: Seq<PlayerView>,
}

/// What every state of the mixer keeps.
pub open spec fn audio_wf(a: AudioView) -> bool {
    grouped(a.channels) && distinct_channels(a.channels) && distinct_players(a.players)
}

pub open spec fn with_channels(a: AudioView, channels: Seq<ChannelView>) -> AudioView {
    AudioView {
        mixer: a.mixer,
        bus: a.bus,
        channels,
        default_sink: a.default_sink,
        default_source: a.default_source,
        players: a.players,
    }
}

pub open spec fn with_players(a: AudioView, players: Seq<PlayerView>) -> AudioView {
    AudioView {
        mixer: a.mixer,
        bus: a.bus,
        channels: a.channels,
        default_sink: a.default_sink,
        default_source: a.default_source,
        players,
    }
}

/// What the connections report.
pub enum Event {
    /// The mixer is up; its commands can be sent.
    Connected,
    Disconnected,
    /// A channel appeared or changed.
    Channel(Channel),
    ChannelGone(Kind, u32),
    /// The default devices, by name.
    Defaults { sink: String, source: String },
    /// The session bus is up; player commands can be sent.
    Bus,
    /// A player appeared or changed.
    Player(Player),
    PlayerGone(String),
}

pub enum EventView {
    Connected,
    Disconnected,
    Channel(ChannelView),
    ChannelGone(Kind, u32),
    Defaults(Seq<char>, Seq<char>),
    Bus,
    Player(PlayerView),
    PlayerGone(Seq<char>),
}

impl View for Event {
    type V = EventView;

    open spec fn view(&self) -> EventView {
        match self {
            Event::Connected => EventView::Connected,
            Event::Disconnected => EventView::Disconnected,
            Event::Channel(c) => EventView::Channel(c@),
            Event::ChannelGone(k, i) => EventView::ChannelGone(*k, *i),
            Event::Defaults { sink, source } => EventView::Defaults(sink@, source@),
            Event::Bus => EventView::Bus,
            Event::Player(p) => EventView::Player(p@),
            Event::PlayerGone(b) => EventView::PlayerGone(b@),
        }
    }
}

/// A channel report: the default flag set from the defaults known; an
/// identity already there is replaced (unless nothing changed), a new
/// one goes after the last channel of its kind or the kinds before it.
pub open spec fn channel_step(a: AudioView, c: ChannelView) -> (AudioView, bool) {
    let c2 = with_flag(c, default_flag(c, a.default_sink, a.default_source));
    let p = chan_pos(a.channels, c.kind, c.index);
    if p < a.channels.len() {
        if a.channels[p] == c2 {
            (a, false)
        } else {
            (with_channels(a, a.channels.update(p, c2)), true)
        }
    } else {
        (with_channels(a, a.channels.insert(insert_at(a.channels, rank(c.kind)), c2)), true)
    }
}

/// A player report: one on a known bus name replaces it (unless nothing
/// changed), a new one goes last.
pub open spec fn player_step(a: AudioView, p: PlayerView) -> (AudioView, bool) {
    let q = player_pos(a.players, p.bus);
    if q < a.players.len() {
        if a.players[q] == p {
            (a, false)
        } else {
            (with_players(a, a.players.update(q, p)), true)
        }
    } else {
        (with_players(a, a.players.push(p)), true)
    }
}

pub open spec fn without_channel(s: Seq<ChannelView>, kind: Kind, index: u32) -> Seq<ChannelView> {
    s.filter(|c: ChannelView| !same_id(c, kind, index))
}

pub open spec fn without_player(s: Seq<PlayerView>, bus: Seq<char>) -> Seq<PlayerView> {
    s.filter(|p: PlayerView| p.bus != bus)
}

pub open spec fn remarked(s: Seq<ChannelView>, sink: Seq<char>, source: Seq<char>) -> Seq<ChannelView> {
    s.map_values(|c: ChannelView| with_flag(c, named_default(c, sink, source)))
}

/// The state after an event, and whether what gadgets see changed.
pub open spec fn step(a: AudioView, e: EventView) -> (AudioView, bool) {
    match e {
        EventView::Connected => (AudioView { mixer: true, ..a }, true),
        EventView::Disconnected => (
            AudioView { mixer: false, channels: Seq::empty(), ..a },
            a.channels.len() > 0,
        ),
        EventView::Channel(c) => channel_step(a, c),
        EventView::ChannelGone(k, i) => {
            let kept = without_channel(a.channels, k, i);
            (with_channels(a, kept), kept.len() != a.channels.len())
        },
        EventView::Defaults(sink, source) => {
            if a.default_sink == sink && a.default_source == source {
                (a, false)
            } else {
                (
                    AudioView {
                        channels: remarked(a.channels, sink, source),
                        default_sink: sink,
                        default_source: source,
                        ..a
                    },
                    true,
                )
            }
        },
        EventView::Bus => (AudioView { bus: true, ..a }, true),
        EventView::Player(p) => player_step(a, p),
        EventView::PlayerGone(b) => {
            let kept = without_player(a.players, b);
            (with_players(a, kept), kept.len() != a.players.len())
        },
    }
}


proof fn lemma_chan_pos(s: Seq<ChannelView>, kind: Kind, index: u32)
    ensures
        0 <= chan_pos(s, kind, index) <= s.len(),
        chan_pos(s, kind, index) < s.len() ==> same_id(s[chan_pos(s, kind, index)], kind, index),
        forall|j: int| 0 <= j < chan_pos(s, kind, index) ==> !same_id(#[trigger] s[j], kind, index),
    decreases s.len(),
{
    if s.len() > 0 && !same_id(s[0], kind, index) {
        lemma_chan_pos(s.drop_first(), kind, index);
        assert forall|j: int| 0 <= j < chan_pos(s, kind, index) implies !same_id(#[trigger] s[j], kind, index) by {
            if j > 0 {
                assert(s[j] == s.drop_first()[j - 1]);
            }
        }
    }
}

proof fn lemma_chan_pos_at(s: Seq<ChannelView>, kind: Kind, index: u32, i: int)
    requires
        0 <= i <= s.len(),
        i < s.len() ==> same_id(s[i], kind, index),
        forall|j: int| 0 <= j < i ==> !same_id(#[trigger] s[j], kind, index),
    ensures
        chan_pos(s, kind, index) == i,
    decreases s.len(),
{
    if s.len() > 0 && i > 0 {
        assert(!same_id(s[0], kind, index));
        assert forall|j: int| 0 <= j < i - 1 implies !same_id(#[trigger] s.drop_first()[j], kind, index) by {
            assert(s.drop_first()[j] == s[j + 1]);
        }
        lemma_chan_pos_at(s.drop_first(), kind, index, i - 1);
    }
}

proof fn lemma_player_pos(s: Seq<PlayerView>, bus: Seq<char>)
    ensures
        0 <= player_pos(s, bus) <= s.len(),
        player_pos(s, bus) < s.len() ==> s[player_pos(s, bus)].bus == bus,
        forall|j: int| 0 <= j < player_pos(s, bus) ==> (#[trigger] s[j]).bus != bus,
    decreases s.len(),
{
    if s.len() > 0 && s[0].bus != bus {
        lemma_player_pos(s.drop_first(), bus);
        assert forall|j: int| 0 <= j < player_pos(s, bus) implies (#[trigger] s[j]).bus != bus by {
            if j > 0 {
                assert(s[j] == s.drop_first()[j - 1]);
            }
        }
    }
}

proof fn lemma_player_pos_at(s: Seq<PlayerView>, bus: Seq<char>, i: int)
    requires
        0 <= i <= s.len(),
        i < s.len() ==> s[i].bus == bus,
        forall|j: int| 0 <= j < i ==> (#[trigger] s[j]).bus != bus,
    ensures
        player_pos(s, bus) == i,
    decreases s.len(),
{
    if s.len() > 0 && i > 0 {
        assert(s[0].bus != bus);
        assert forall|j: int| 0 <= j < i - 1 implies (#[trigger] s.drop_first()[j]).bus != bus by {
            assert(s.drop_first()[j] == s[j + 1]);
        }
        lemma_player_pos_at(s.drop_first(), bus, i - 1);
    }
}

proof fn lemma_insert_at(s: Seq<ChannelView>, r: int)
    requires
        grouped(s),
    ensures
        0 <= insert_at(s, r) <= s.len(),
        forall|j: int| 0 <= j < insert_at(s, r) ==> rank(#[trigger] s[j].kind) <= r,
        forall|j: int| insert_at(s, r) <= j < s.len() ==> rank(#[trigger] s[j].kind) > r,
    decreases s.len(),
{
    if s.len() > 0 {
        let t = s.drop_last();
        if rank(s.last().kind) <= r {
            assert forall|j: int| 0 <= j < insert_at(s, r) implies rank(#[trigger] s[j].kind) <= r by {
                if j < s.len() - 1 {
                    assert(rank(s[j].kind) <= rank(s[s.len() - 1].kind));
                }
            }
        } else {
            assert(grouped(t)) by {
                assert forall|i: int, j: int| 0 <= i < j < t.len() implies rank(#[trigger] t[i].kind) <= rank(
                    #[trigger] t[j].kind,
                ) by {
                    assert(t[i] == s[i] && t[j] == s[j]);
                }
            }
            lemma_insert_at(t, r);
            assert forall|j: int| 0 <= j < insert_at(s, r) implies rank(#[trigger] s[j].kind) <= r by {
                assert(t[j] == s[j]);
            }
            assert forall|j: int| insert_at(s, r) <= j < s.len() implies rank(#[trigger] s[j].kind) > r by {
                if j < s.len() - 1 {
                    assert(t[j] == s[j]);
                }
            }
        }
    }
}

proof fn lemma_insert_at_bound(s: Seq<ChannelView>, r: int)
    ensures
        0 <= insert_at(s, r) <= s.len(),
    decreases s.len(),
{
    if s.len() > 0 && rank(s.last().kind) > r {
        lemma_insert_at_bound(s.drop_last(), r);
    }
}

/// A filter keeps any relation that held between earlier and later
/// items.
proof fn lemma_filter_pairwise<A>(s: Seq<A>, keep: spec_fn(A) -> bool, rel: spec_fn(A, A) -> bool)
    requires
        forall|i: int, j: int| 0 <= i < j < s.len() ==> #[trigger] rel(s[i], s[j]),
    ensures
        forall|i: int, j: int|
            0 <= i < j < s.filter(keep).len() ==> #[trigger] rel(s.filter(keep)[i], s.filter(keep)[j]),
    decreases s.len(),
{
    reveal_with_fuel(Seq::filter, 1);
    if s.len() > 0 {
        let t = s.drop_last();
        assert forall|i: int, j: int| 0 <= i < j < t.len() implies #[trigger] rel(t[i], t[j]) by {
            assert(t[i] == s[i] && t[j] == s[j]);
        }
        lemma_filter_pairwise(t, keep, rel);
        let f = t.filter(keep);
        if keep(s.last()) {
            assert forall|i: int, j: int| 0 <= i < j < f.push(s.last()).len() implies #[trigger] rel(
                f.push(s.last())[i],
                f.push(s.last())[j],
            ) by {
                if j == f.len() {
                    assert(f.contains(f[i]));
                    t.lemma_filter_contains_rev(keep, f[i]);
                    let k = choose|k: int| 0 <= k < t.len() && t[k] == f[i];
                    assert(s[k] == f[i]);
                    assert(rel(s[k], s[s.len() - 1]));
                } else {
                    assert(f.push(s.last())[i] == f[i] && f.push(s.last())[j] == f[j]);
                }
            }
        }
    }
}

proof fn lemma_wf_after_channel(a: AudioView, c: ChannelView)
    requires
        audio_wf(a),
    ensures
        audio_wf(step(a, EventView::Channel(c)).0),
{
    let c2 = with_flag(c, default_flag(c, a.default_sink, a.default_source));
    let s = a.channels;
    lemma_chan_pos(s, c.kind, c.index);
    let p = chan_pos(s, c.kind, c.index);
    if p < s.len() {
        let u = s.update(p, c2);
        assert forall|i: int, j: int| 0 <= i < j < u.len() implies rank(#[trigger] u[i].kind) <= rank(
            #[trigger] u[j].kind,
        ) by {
            assert(rank(s[i].kind) <= rank(s[j].kind));
        }
        assert forall|i: int, j: int| 0 <= i < j < u.len() implies !same_id(
            #[trigger] u[i],
            #[trigger] u[j].kind,
            u[j].index,
        ) by {
            assert(!same_id(s[i], s[j].kind, s[j].index));
        }
    } else {
        let at = insert_at(s, rank(c.kind));
        lemma_insert_at(s, rank(c.kind));
        let u = s.insert(at, c2);
        assert forall|i: int, j: int| 0 <= i < j < u.len() implies rank(#[trigger] u[i].kind) <= rank(
            #[trigger] u[j].kind,
        ) by {
            if i < at && j > at {
                assert(rank(s[i].kind) <= rank(s[j - 1].kind));
            } else if j < at {
                assert(rank(s[i].kind) <= rank(s[j].kind));
            } else if i > at {
                assert(rank(s[i - 1].kind) <= rank(s[j - 1].kind));
            }
        }
        assert forall|i: int, j: int| 0 <= i < j < u.len() implies !same_id(
            #[trigger] u[i],
            #[trigger] u[j].kind,
            u[j].index,
        ) by {
            if i < at && j > at {
                assert(!same_id(s[i], s[j - 1].kind, s[j - 1].index));
            } else if j < at {
                assert(!same_id(s[i], s[j].kind, s[j].index));
            } else if i > at {
                assert(!same_id(s[i - 1], s[j - 1].kind, s[j - 1].index));
            } else if i == at {
                assert(!same_id(s[j - 1], c.kind, c.index));
            } else {
                assert(!same_id(s[i], c.kind, c.index));
            }
        }
    }
}

proof fn lemma_wf_after_channel_gone(a: AudioView, k: Kind, i: u32)
    requires
        audio_wf(a),
    ensures
        audio_wf(step(a, EventView::ChannelGone(k, i)).0),
{
    let keep = |c: ChannelView| !same_id(c, k, i);
    lemma_filter_pairwise(
        a.channels,
        keep,
        |x: ChannelView, y: ChannelView| rank(x.kind) <= rank(y.kind),
    );
    lemma_filter_pairwise(
        a.channels,
        keep,
        |x: ChannelView, y: ChannelView| !same_id(x, y.kind, y.index),
    );
    let f = without_channel(a.channels, k, i);
    assert(f == a.channels.filter(keep));
    assert forall|x: int, y: int| 0 <= x < y < f.len() implies rank(#[trigger] f[x].kind) <= rank(
        #[trigger] f[y].kind,
    ) by {
        assert((|x: ChannelView, y: ChannelView| rank(x.kind) <= rank(y.kind))(f[x], f[y]));
    }
    assert forall|x: int, y: int| 0 <= x < y < f.len() implies !same_id(
        #[trigger] f[x],
        #[trigger] f[y].kind,
        f[y].index,
    ) by {
        assert((|x: ChannelView, y: ChannelView| !same_id(x, y.kind, y.index))(f[x], f[y]));
    }
}

proof fn lemma_wf_after_defaults(a: AudioView, sink: Seq<char>, source: Seq<char>)
    requires
        audio_wf(a),
    ensures
        audio_wf(step(a, EventView::Defaults(sink, source)).0),
{
    let s = a.channels;
    let m = remarked(s, sink, source);
    assert forall|i: int, j: int| 0 <= i < j < m.len() implies rank(#[trigger] m[i].kind) <= rank(
        #[trigger] m[j].kind,
    ) by {
        assert(rank(s[i].kind) <= rank(s[j].kind));
    }
    assert forall|i: int, j: int| 0 <= i < j < m.len() implies !same_id(
        #[trigger] m[i],
        #[trigger] m[j].kind,
        m[j].index,
    ) by {
        assert(!same_id(s[i], s[j].kind, s[j].index));
    }
}

proof fn lemma_wf_after_player(a: AudioView, p: PlayerView)
    requires
        audio_wf(a),
    ensures
        audio_wf(step(a, EventView::Player(p)).0),
{
    let s = a.players;
    lemma_player_pos(s, p.bus);
    let q = player_pos(s, p.bus);
    if q < s.len() {
        let u = s.update(q, p);
        assert forall|i: int, j: int| 0 <= i < j < u.len() implies #[trigger] u[i].bus != #[trigger] u[j].bus by {
            assert(s[i].bus != s[j].bus);
        }
    } else {
        let u = s.push(p);
        assert forall|i: int, j: int| 0 <= i < j < u.len() implies #[trigger] u[i].bus != #[trigger] u[j].bus by {
            if j < s.len() {
                assert(s[i].bus != s[j].bus);
            }
        }
    }
}

proof fn lemma_wf_after_player_gone(a: AudioView, b: Seq<char>)
    requires
        audio_wf(a),
    ensures
        audio_wf(step(a, EventView::PlayerGone(b)).0),
{
    let keep = |p: PlayerView| p.bus != b;
    lemma_filter_pairwise(a.players, keep, |x: PlayerView, y: PlayerView| x.bus != y.bus);
    let f = without_player(a.players, b);
    assert(f == a.players.filter(keep));
    assert forall|x: int, y: int| 0 <= x < y < f.len() implies #[trigger] f[x].bus != #[trigger] f[y].bus by {
        assert((|x: PlayerView, y: PlayerView| x.bus != y.bus)(f[x], f[y]));
    }
}

/// Every report keeps the channels grouped by kind, their identities
/// and the players' bus names each once.
pub proof fn every_event_keeps_the_mixer_well_formed(a: AudioView, e: EventView)
    requires
        audio_wf(a),
    ensures
        audio_wf(step(a, e).0),
{
    match e {
        EventView::Channel(c) => lemma_wf_after_channel(a, c),
        EventView::ChannelGone(k, i) => lemma_wf_after_channel_gone(a, k, i),
        EventView::Defaults(sink, source) => lemma_wf_after_defaults(a, sink, source),
        EventView::Player(p) => lemma_wf_after_player(a, p),
        EventView::PlayerGone(b) => lemma_wf_after_player_gone(a, b),
        _ => {},
    }
}

/// Reporting a channel, a player or the defaults again, unchanged, is
/// not a change: the second report leaves the state as the first left it.
pub proof fn a_repeated_report_is_no_change(a: AudioView, e: EventView)
    requires
        audio_wf(a),
        e is Channel || e is Player || e is Defaults,
    ensures
        step(step(a, e).0, e) == (step(a, e).0, false),
{
    let b = step(a, e).0;
    match e {
        EventView::Channel(c) => {
            let c2 = with_flag(c, default_flag(c, a.default_sink, a.default_source));
            let s = a.channels;
            lemma_chan_pos(s, c.kind, c.index);
            let p = chan_pos(s, c.kind, c.index);
            if p < s.len() {
                if s[p] != c2 {
                    let u = s.update(p, c2);
                    lemma_chan_pos_at(u, c.kind, c.index, p);
                }
            } else {
                let at = insert_at(s, rank(c.kind));
                lemma_insert_at(s, rank(c.kind));
                let u = s.insert(at, c2);
                assert forall|j: int| 0 <= j < at implies !same_id(#[trigger] u[j], c.kind, c.index) by {
                    assert(u[j] == s[j]);
                }
                lemma_chan_pos_at(u, c.kind, c.index, at);
            }
        },
        EventView::Player(p) => {
            let s = a.players;
            lemma_player_pos(s, p.bus);
            let q = player_pos(s, p.bus);
            if q < s.len() {
                if s[q] != p {
                    lemma_player_pos_at(s.update(q, p), p.bus, q);
                }
            } else {
                let u = s.push(p);
                assert forall|j: int| 0 <= j < s.len() implies (#[trigger] u[j]).bus != p.bus by {
                    assert(u[j] == s[j]);
                }
                lemma_player_pos_at(u, p.bus, s.len() as int);
            }
        },
        _ => {},
    }
}


/// A device reported again after the defaults named it stays marked as
/// the default: the mark follows the name, not the report.
pub proof fn a_reported_default_device_stays_marked(a: AudioView, c: ChannelView)
    requires
        audio_wf(a),
        c.name.len() > 0,
        c.kind == Kind::Output && c.name == a.default_sink || c.kind == Kind::Input && c.name == a.default_source,
    ensures
        ({
            let b = step(a, EventView::Channel(c)).0;
            let p = chan_pos(b.channels, c.kind, c.index);
            p < b.channels.len() && b.channels[p].default && b.channels[p].name == c.name
        }),
{
    let c2 = with_flag(c, default_flag(c, a.default_sink, a.default_source));
    let s = a.channels;
    lemma_chan_pos(s, c.kind, c.index);
    let p = chan_pos(s, c.kind, c.index);
    if p < s.len() {
        if s[p] != c2 {
            lemma_chan_pos_at(s.update(p, c2), c.kind, c.index, p);
        }
    } else {
        let at = insert_at(s, rank(c.kind));
        lemma_insert_at_bound(s, rank(c.kind));
        let u = s.insert(at, c2);
        assert forall|j: int| 0 <= j < at implies !same_id(#[trigger] u[j], c.kind, c.index) by {
            assert(u[j] == s[j]);
        }
        lemma_chan_pos_at(u, c.kind, c.index, at);
    }
}

/// Once a channel is reported gone, no channel has its identity.
pub proof fn a_gone_channel_is_gone(a: AudioView, kind: Kind, index: u32)
    ensures
        ({
            let b = step(a, EventView::ChannelGone(kind, index)).0;
            forall|j: int| 0 <= j < b.channels.len() ==> !same_id(#[trigger] b.channels[j], kind, index)
        }),
{
    let keep = |c: ChannelView| !same_id(c, kind, index);
    let f = a.channels.filter(keep);
    assert(without_channel(a.channels, kind, index) == f);
    assert forall|j: int| 0 <= j < f.len() implies !same_id(#[trigger] f[j], kind, index) by {
        a.channels.lemma_filter_pred(keep, j);
    }
}

pub open spec fn channels_view(v: Seq<Channel>) -> Seq<ChannelView> {
    v.map_values(|c: Channel| c@)
}

pub open spec fn players_view(v: Seq<Player>) -> Seq<PlayerView> {
    v.map_values(|p: Player| p@)
}

/// The mixer and the players, as last reported.
pub struct Audio {
    mixer: bool,
    bus: bool,
    /// Outputs, then inputs, then streams, each group in the order the
    /// server listed them.
    channels: Vec<Channel>,
    default_sink: String,
    default_source: String,
    /// In appearance order.
    players: Vec<Player>,
}

impl View for Audio {
    type V = AudioView;

    closed spec fn view(&self) -> AudioView {
        AudioView {
            mixer: self.mixer,
            bus: self.bus,
            channels: channels_view(self.channels@),
            default_sink: self.default_sink@,
            default_source: self.default_source@,
            players: players_view(self.players@),
        }
    }
}

impl Default for Audio {
    /// Nothing connected, nothing known.
    fn default() -> (r: Audio)
        ensures
            r@ == (AudioView {
                mixer: false,
                bus: false,
                channels: Seq::empty(),
                default_sink: Seq::empty(),
                default_source: Seq::empty(),
                players: Seq::empty(),
            }),
            r.wf(),
    {
        let r = Audio {
            mixer: false,
            bus: false,
            channels: Vec::new(),
            default_sink: String::new(),
            default_source: String::new(),
            players: Vec::new(),
        };
        assert(channels_view(r.channels@) =~= Seq::<ChannelView>::empty());
        assert(players_view(r.players@) =~= Seq::<PlayerView>::empty());
        r
    }
}

fn named_as(c: &Channel, sink: &String, source: &String) -> (r: bool)
    ensures
        r == named_default(c@, sink@, source@),
{
    match c.kind {
        Kind::Output => str_eq_string(&c.name, sink),
        Kind::Input => str_eq_string(&c.name, source),
        Kind::Stream => false,
    }
}

impl Audio {
    pub open spec fn wf(&self) -> bool {
        audio_wf(self@)
    }

    fn is_default(&self, c: &Channel) -> (r: bool)
        ensures
            r == default_flag(c@, self@.default_sink, self@.default_source),
    {
        !c.name.as_str().is_empty() && named_as(c, &self.default_sink, &self.default_source)
    }

    /// Index of the channel with this identity; the count if none.
    fn position(&self, kind: Kind, index: u32) -> (r: usize)
        ensures
            r == chan_pos(self@.channels, kind, index),
    {
        let ghost s = self@.channels;
        let mut i: usize = 0;
        while i < self.channels.len()
            invariant
                i <= self.channels.len(),
                s == channels_view(self.channels@),
                forall|j: int| 0 <= j < i ==> !same_id(#[trigger] s[j], kind, index),
            decreases self.channels.len() - i,
        {
            if self.channels[i].kind == kind && self.channels[i].index == index {
                proof {
                    lemma_chan_pos_at(s, kind, index, i as int);
                }
                return i;
            }
            i = i + 1;
        }
        proof {
            lemma_chan_pos_at(s, kind, index, i as int);
        }
        i
    }

    /// Where a new channel of this rank goes.
    fn insert_position(&self, r: u8) -> (at: usize)
        ensures
            at == insert_at(self@.channels, r as int),
    {
        let ghost s = self@.channels;
        let mut j: usize = self.channels.len();
        assert(s.take(j as int) =~= s);
        while j > 0
            invariant
                j <= self.channels.len(),
                s == channels_view(self.channels@),
                insert_at(s, r as int) == insert_at(s.take(j as int), r as int),
            decreases j,
        {
            let ghost t = s.take(j as int);
            assert(t.last() == s[j - 1]);
            if kind_rank(self.channels[j - 1].kind) <= r {
                return j;
            }
            assert(t.drop_last() =~= s.take(j - 1));
            j = j - 1;
        }
        0
    }

    /// Index of the player on this bus name; the count if none.
    fn player_position(&self, bus: &String) -> (r: usize)
        ensures
            r == player_pos(self@.players, bus@),
    {
        let ghost s = self@.players;
        let mut i: usize = 0;
        while i < self.players.len()
            invariant
                i <= self.players.len(),
                s == players_view(self.players@),
                forall|j: int| 0 <= j < i ==> (#[trigger] s[j]).bus != bus@,
            decreases self.players.len() - i,
        {
            if str_eq_string(&self.players[i].bus, bus) {
                proof {
                    lemma_player_pos_at(s, bus@, i as int);
                }
                return i;
            }
            i = i + 1;
        }
        proof {
            lemma_player_pos_at(s, bus@, i as int);
        }
        i
    }

    fn apply_channel(&mut self, channel: Channel) -> (r: bool)
        ensures
            (final(self)@, r) == channel_step(old(self)@, channel@),
    {
        let mut c = channel;
        c.default = self.is_default(&c);
        let ghost s = self@.channels;
        let p = self.position(c.kind, c.index);
        if p < self.channels.len() {
            assert(self.channels@[p as int]@ == s[p as int]);
            if self.channels[p].same(&c) {
                return false;
            }
            self.channels.set(p, c);
            assert(channels_view(self.channels@) =~= s.update(p as int, c@));
            true
        } else {
            let at = self.insert_position(kind_rank(c.kind));
            proof {
                lemma_chan_pos(s, c.kind, c.index);
                lemma_insert_at_bound(s, rank(c.kind));
            }
            self.channels.insert(at, c);
            assert(channels_view(self.channels@) =~= s.insert(at as int, c@));
            true
        }
    }

    fn apply_player(&mut self, player: Player) -> (r: bool)
        ensures
            (final(self)@, r) == player_step(old(self)@, player@),
    {
        let ghost s = self@.players;
        let q = self.player_position(&player.bus);
        if q < self.players.len() {
            assert(self.players@[q as int]@ == s[q as int]);
            if self.players[q].same(&player) {
                return false;
            }
            self.players.set(q, player);
            assert(players_view(self.players@) =~= s.update(q as int, player@));
            true
        } else {
            self.players.push(player);
            assert(players_view(self.players@) =~= s.push(player@));
            true
        }
    }

    fn drop_channel(&mut self, kind: Kind, index: u32) -> (r: bool)
        ensures
            final(self)@ == with_channels(old(self)@, without_channel(old(self)@.channels, kind, index)),
            r == (without_channel(old(self)@.channels, kind, index).len() != old(self)@.channels.len()),
    {
        let ghost all = self@.channels;
        let mut kept: Vec<Channel> = Vec::new();
        let mut i: usize = 0;
        while i < self.channels.len()
            invariant
                i <= self.channels.len(),
                all == channels_view(self.channels@),
                channels_view(kept@) == all.take(i as int).filter(|c: ChannelView| !same_id(c, kind, index)),
            decreases self.channels.len() - i,
        {
            let ghost before = channels_view(kept@);
            assert(all.take(i + 1).drop_last() =~= all.take(i as int));
            reveal_with_fuel(Seq::filter, 1);
            assert(all[i as int] == self.channels@[i as int]@);
            if !(self.channels[i].kind == kind && self.channels[i].index == index) {
                kept.push(self.channels[i].copy());
                assert(channels_view(kept@) =~= before.push(all[i as int]));
            }
            i = i + 1;
        }
        assert(all.take(self.channels.len() as int) =~= all);
        let changed = kept.len() != self.channels.len();
        self.channels = kept;
        changed
    }

    fn drop_player(&mut self, bus: &String) -> (r: bool)
        ensures
            final(self)@ == with_players(old(self)@, without_player(old(self)@.players, bus@)),
            r == (without_player(old(self)@.players, bus@).len() != old(self)@.players.len()),
    {
        let ghost all = self@.players;
        let mut kept: Vec<Player> = Vec::new();
        let mut i: usize = 0;
        while i < self.players.len()
            invariant
                i <= self.players.len(),
                all == players_view(self.players@),
                players_view(kept@) == all.take(i as int).filter(|p: PlayerView| p.bus != bus@),
            decreases self.players.len() - i,
        {
            let ghost before = players_view(kept@);
            assert(all.take(i + 1).drop_last() =~= all.take(i as int));
            reveal_with_fuel(Seq::filter, 1);
            assert(all[i as int] == self.players@[i as int]@);
            if !str_eq_string(&self.players[i].bus, bus) {
                kept.push(self.players[i].copy());
                assert(players_view(kept@) =~= before.push(all[i as int]));
            }
            i = i + 1;
        }
        assert(all.take(self.players.len() as int) =~= all);
        let changed = kept.len() != self.players.len();
        self.players = kept;
        changed
    }

    fn set_defaults(&mut self, sink: String, source: String)
        ensures
            final(self)@ == (AudioView {
                channels: remarked(old(self)@.channels, sink@, source@),
                default_sink: sink@,
                default_source: source@,
                ..old(self)@
            }),
    {
        let ghost all = self@.channels;
        let mut marked: Vec<Channel> = Vec::new();
        let mut i: usize = 0;
        while i < self.channels.len()
            invariant
                i <= self.channels.len(),
                all == channels_view(self.channels@),
                channels_view(marked@) == remarked(all, sink@, source@).take(i as int),
            decreases self.channels.len() - i,
        {
            let mut c = self.channels[i].copy();
            assert(all[i as int] == c@);
            c.default = named_as(&c, &sink, &source);
            let ghost before = channels_view(marked@);
            marked.push(c);
            assert(channels_view(marked@) =~= before.push(channels_view(marked@).last()));
            assert(channels_view(marked@) =~= remarked(all, sink@, source@).take(i + 1));
            i = i + 1;
        }
        assert(remarked(all, sink@, source@).take(i as int) =~= remarked(all, sink@, source@));
        self.channels = marked;
        self.default_sink = sink;
        self.default_source = source;
    }

    /// Apply a report; whether what gadgets see changed (the server
    /// reports a stream "changed" several times a second while it
    /// plays, mostly with nothing new).
    pub fn apply(&mut self, event: Event) -> (r: bool)
        requires
            old(self).wf(),
        ensures
            final(self).wf(),
            (final(self)@, r) == step(old(self)@, event@),
    {
        proof {
            every_event_keeps_the_mixer_well_formed(self@, event@);
        }
        match event {
            Event::Connected => {
                self.mixer = true;
                true
            },
            Event::Disconnected => {
                self.mixer = false;
                let had = self.channels.len() > 0;
                self.channels = Vec::new();
                assert(channels_view(self.channels@) =~= Seq::<ChannelView>::empty());
                had
            },
            Event::Channel(c) => self.apply_channel(c),
            Event::ChannelGone(kind, index) => self.drop_channel(kind, index),
            Event::Defaults { sink, source } => {
                if str_eq_string(&self.default_sink, &sink) && str_eq_string(&self.default_source, &source) {
                    return false;
                }
                self.set_defaults(sink, source);
                true
            },
            Event::Bus => {
                self.bus = true;
                true
            },
            Event::Player(p) => self.apply_player(p),
            Event::PlayerGone(bus) => self.drop_player(&bus),
        }
    }
}


/// Index of the first channel of `kind` marked default; `s.len()` if none.
pub open spec fn default_pos(s: Seq<ChannelView>, kind: Kind) -> int
    decreases s.len(),
{
    if s.len() == 0 {
        0
    } else if s[0].kind == kind && s[0].default {
        0
    } else {
        default_pos(s.drop_first(), kind) + 1
    }
}

proof fn lemma_default_pos_at(s: Seq<ChannelView>, kind: Kind, i: int)
    requires
        0 <= i <= s.len(),
        i < s.len() ==> s[i].kind == kind && s[i].default,
        forall|j: int| 0 <= j < i ==> !((#[trigger] s[j]).kind == kind && s[j].default),
    ensures
        default_pos(s, kind) == i,
    decreases s.len(),
{
    if s.len() > 0 && i > 0 {
        assert(!(s[0].kind == kind && s[0].default));
        assert forall|j: int| 0 <= j < i - 1 implies !((#[trigger] s.drop_first()[j]).kind == kind
            && s.drop_first()[j].default) by {
            assert(s.drop_first()[j] == s[j + 1]);
        }
        lemma_default_pos_at(s.drop_first(), kind, i - 1);
    }
}

/// The values present, in order.
pub open spec fn present(s: Seq<Option<Seq<char>>>) -> Seq<Seq<char>>
    decreases s.len(),
{
    if s.len() == 0 {
        Seq::empty()
    } else {
        match s.last() {
            Some(v) => present(s.drop_last()).push(v),
            None => present(s.drop_last()),
        }
    }
}

/// The path of a `file://` cover, `%XX` escapes decoded; other schemes
/// would need fetching and give none.
pub open spec fn cover_path(art: Option<Seq<char>>) -> Option<Seq<char>> {
    match art {
        Some(url) => if starts_with(url, "file://"@) {
            Some(lossy_utf8(unpercent(encode_utf8(url.skip(7)))))
        } else {
            None
        },
        None => None,
    }
}

/// The volume `delta` away, kept within 0 and `max`.
pub open spec fn stepped(volume: int, delta: int, max: int) -> int {
    if volume + delta < 0 {
        0
    } else if volume + delta > max {
        max
    } else {
        volume + delta
    }
}

/// What a gadget asks of the mixer or a player.
#[derive(Debug)]
pub enum Command {
    /// A channel's volume, in the server's units.
    SetVolume(Kind, u32, u32),
    SetMuted(Kind, u32, bool),
    /// Make a device the default of its kind.
    SetDefault(Kind, u32),
    /// The default device's volume, by this much, kept within 0 and `max`.
    StepDefault { kind: Kind, delta: i64, max: u32 },
    /// Mute or unmute the default device.
    ToggleDefaultMute(Kind),
    PlayPause(String),
    Next(String),
    Previous(String),
}

/// What to send on the mixer connection.
#[derive(Debug)]
pub enum Request {
    SetVolume { kind: Kind, index: u32, channels: u8, volume: u32 },
    SetMute { kind: Kind, index: u32, mute: bool },
    SetDefault { kind: Kind, name: String },
}

/// The mixer connection's state, as the server reports it.
#[derive(Debug, Clone, Copy, PartialEq, Eq, Structural)]
pub enum ContextState {
    /// Still connecting (or any other state on the way).
    Connecting,
    Ready,
    Failed,
    Terminated,
}

/// What kind of object a change notice is about.
#[derive(Debug, Clone, Copy, PartialEq, Eq, Structural)]
pub enum Facility {
    Sink,
    Source,
    SinkInput,
    Server,
    /// Modules, clients, cards, ...: not followed.
    Other,
}

/// What happened to it.
#[derive(Debug, Clone, Copy, PartialEq, Eq, Structural)]
pub enum Operation {
    New,
    Changed,
    Removed,
}

/// What the mixer connection reports to the thread serving it.
#[derive(Debug, Clone, Copy, PartialEq, Eq, Structural)]
pub enum MixerNotice {
    /// The connection changed state.
    State(ContextState),
    /// An object came, changed or went.
    Changed(Option<Facility>, Option<Operation>, u32),
}

/// What the serving thread does about a notice.
#[derive(Debug, Clone, Copy, PartialEq, Eq, Structural)]
pub enum MixerStep {
    Nothing,
    /// Hand the command handle over ([`Event::Connected`]), subscribe
    /// to sinks, sources, streams and the server, and fetch them all.
    Connected,
    /// The connection is over: end the session with this error.
    Lost(ConnectionLoss),
    /// Fetch the default devices.
    FetchDefaults,
    /// Report [`Event::ChannelGone`].
    Gone(Kind, u32),
    /// Fetch this channel.
    Fetch(Kind, u32),
}

/// Why the mixer connection ended.
#[derive(Debug, Clone, Copy, PartialEq, Eq, Structural)]
pub enum ConnectionLoss {
    Failed,
    Terminated,
}

impl ConnectionLoss {
    /// The session's error text.
    pub fn message(self) -> (r: &'static str)
        ensures
            r@ == (match self {
                ConnectionLoss::Failed => "the connection failed"@,
                ConnectionLoss::Terminated => "the server closed the connection"@,
            }),
    {
        match self {
            ConnectionLoss::Failed => "the connection failed",
            ConnectionLoss::Terminated => "the server closed the connection",
        }
    }
}

/// The channel kind a facility's objects are.
pub open spec fn facility_kind(f: Option<Facility>) -> Option<Kind> {
    match f {
        Some(Facility::Sink) => Some(Kind::Output),
        Some(Facility::Source) => Some(Kind::Input),
        Some(Facility::SinkInput) => Some(Kind::Stream),
        _ => None,
    }
}

/// The step for `notice`, with the command handle still to hand over
/// when `handle_held`: the handle goes out on the first `Ready` only.
pub open spec fn mixer_step_of(handle_held: bool, notice: MixerNotice) -> (MixerStep, bool) {
    match notice {
        MixerNotice::State(ContextState::Ready) => if handle_held {
            (MixerStep::Connected, false)
        } else {
            (MixerStep::Nothing, false)
        },
        MixerNotice::State(ContextState::Failed) => (MixerStep::Lost(ConnectionLoss::Failed), handle_held),
        MixerNotice::State(ContextState::Terminated) => (MixerStep::Lost(ConnectionLoss::Terminated), handle_held),
        MixerNotice::State(ContextState::Connecting) => (MixerStep::Nothing, handle_held),
        MixerNotice::Changed(f, op, index) => {
            if f == Some(Facility::Server) {
                (MixerStep::FetchDefaults, handle_held)
            } else {
                match facility_kind(f) {
                    Some(kind) => if op == Some(Operation::Removed) {
                        (MixerStep::Gone(kind, index), handle_held)
                    } else {
                        (MixerStep::Fetch(kind, index), handle_held)
                    },
                    None => (MixerStep::Nothing, handle_held),
                }
            }
        },
    }
}

/// One notice of the mixer connection: what to do, and whether the
/// command handle is still to hand over.
pub fn mixer_step(handle_held: bool, notice: MixerNotice) -> (r: (MixerStep, bool))
    ensures
        r == mixer_step_of(handle_held, notice),
{
    match notice {
        MixerNotice::State(ContextState::Ready) => if handle_held {
            (MixerStep::Connected, false)
        } else {
            (MixerStep::Nothing, false)
        },
        MixerNotice::State(ContextState::Failed) => (MixerStep::Lost(ConnectionLoss::Failed), handle_held),
        MixerNotice::State(ContextState::Terminated) => (MixerStep::Lost(ConnectionLoss::Terminated), handle_held),
        MixerNotice::State(ContextState::Connecting) => (MixerStep::Nothing, handle_held),
        MixerNotice::Changed(f, op, index) => {
            let kind = match f {
                Some(Facility::Sink) => Kind::Output,
                Some(Facility::Source) => Kind::Input,
                Some(Facility::SinkInput) => Kind::Stream,
                Some(Facility::Server) => {
                    return (MixerStep::FetchDefaults, handle_held);
                },
                _ => {
                    return (MixerStep::Nothing, handle_held);
                },
            };
            match op {
                Some(Operation::Removed) => (MixerStep::Gone(kind, index), handle_held),
                _ => (MixerStep::Fetch(kind, index), handle_held),
            }
        },
    }
}

/// How many audio channels a volume is set on: the channel's count,
/// at least one.
pub fn volume_channels(channels: u8) -> (r: u8)
    ensures
        r == (if channels == 0 { 1 } else { channels }),
{
    if channels == 0 {
        1
    } else {
        channels
    }
}

/// A player method.
#[derive(Debug, Clone, Copy, PartialEq, Eq, Structural)]
pub enum PlayerCall {
    PlayPause,
    Next,
    Previous,
}

/// Where a command goes: a request on the mixer connection, or a call
/// to the player on a bus name.
#[derive(Debug)]
pub enum Dispatch {
    Mixer(Request),
    Player(String, PlayerCall),
}

pub enum CommandView {
    SetVolume(Kind, u32, u32),
    SetMuted(Kind, u32, bool),
    SetDefault(Kind, u32),
    StepDefault(Kind, i64, u32),
    ToggleDefaultMute(Kind),
    PlayPause(Seq<char>),
    Next(Seq<char>),
    Previous(Seq<char>),
}

impl View for Command {
    type V = CommandView;

    open spec fn view(&self) -> CommandView {
        match self {
            Command::SetVolume(k, i, v) => CommandView::SetVolume(*k, *i, *v),
            Command::SetMuted(k, i, m) => CommandView::SetMuted(*k, *i, *m),
            Command::SetDefault(k, i) => CommandView::SetDefault(*k, *i),
            Command::StepDefault { kind, delta, max } => CommandView::StepDefault(*kind, *delta, *max),
            Command::ToggleDefaultMute(k) => CommandView::ToggleDefaultMute(*k),
            Command::PlayPause(b) => CommandView::PlayPause(b@),
            Command::Next(b) => CommandView::Next(b@),
            Command::Previous(b) => CommandView::Previous(b@),
        }
    }
}

pub enum DispatchView {
    SetVolume(Kind, u32, u8, u32),
    SetMute(Kind, u32, bool),
    SetDefault(Kind, Seq<char>),
    Player(Seq<char>, PlayerCall),
}

pub open spec fn dispatch_view(d: Option<Dispatch>) -> Option<DispatchView> {
    match d {
        Some(Dispatch::Mixer(Request::SetVolume { kind, index, channels, volume })) => Some(
            DispatchView::SetVolume(kind, index, channels, volume),
        ),
        Some(Dispatch::Mixer(Request::SetMute { kind, index, mute })) => Some(DispatchView::SetMute(kind, index, mute)),
        Some(Dispatch::Mixer(Request::SetDefault { kind, name })) => Some(DispatchView::SetDefault(kind, name@)),
        Some(Dispatch::Player(bus, call)) => Some(DispatchView::Player(bus@, call)),
        None => None,
    }
}

/// What a command becomes: channels are looked up by identity (the
/// volume of a channel goes with its count of audio channels, a device
/// is made default by name), "the default" is the first device of the
/// kind marked so; nothing when that channel is not known or the
/// connection it needs is down.
pub open spec fn dispatched(a: AudioView, c: CommandView) -> Option<DispatchView> {
    match c {
        CommandView::SetVolume(k, i, v) => {
            let p = chan_pos(a.channels, k, i);
            if p < a.channels.len() && a.mixer {
                Some(DispatchView::SetVolume(k, i, a.channels[p].channels, v))
            } else {
                None
            }
        },
        CommandView::SetMuted(k, i, m) => if a.mixer {
            Some(DispatchView::SetMute(k, i, m))
        } else {
            None
        },
        CommandView::SetDefault(k, i) => {
            let p = chan_pos(a.channels, k, i);
            if p < a.channels.len() && a.mixer {
                Some(DispatchView::SetDefault(k, a.channels[p].name))
            } else {
                None
            }
        },
        CommandView::StepDefault(k, delta, max) => {
            let d = default_pos(a.channels, k);
            if d < a.channels.len() && a.mixer {
                let ch = a.channels[d];
                Some(
                    DispatchView::SetVolume(
                        ch.kind,
                        ch.index,
                        ch.channels,
                        stepped(ch.volume as int, delta as int, max as int) as u32,
                    ),
                )
            } else {
                None
            }
        },
        CommandView::ToggleDefaultMute(k) => {
            let d = default_pos(a.channels, k);
            if d < a.channels.len() && a.mixer {
                Some(DispatchView::SetMute(a.channels[d].kind, a.channels[d].index, !a.channels[d].muted))
            } else {
                None
            }
        },
        CommandView::PlayPause(b) => if a.bus {
            Some(DispatchView::Player(b, PlayerCall::PlayPause))
        } else {
            None
        },
        CommandView::Next(b) => if a.bus {
            Some(DispatchView::Player(b, PlayerCall::Next))
        } else {
            None
        },
        CommandView::Previous(b) => if a.bus {
            Some(DispatchView::Player(b, PlayerCall::Previous))
        } else {
            None
        },
    }
}

impl Audio {
    /// Every channel, outputs first, then inputs, then streams.
    pub fn channels(&self) -> (r: &[Channel])
        ensures
            channels_view(r@) == self@.channels,
    {
        self.channels.as_slice()
    }

    /// The channels of one kind, in order.
    pub fn channels_of(&self, kind: Kind) -> (r: Vec<Channel>)
        ensures
            channels_view(r@) == self@.channels.filter(|c: ChannelView| c.kind == kind),
    {
        let ghost all = self@.channels;
        let mut r: Vec<Channel> = Vec::new();
        let mut i: usize = 0;
        while i < self.channels.len()
            invariant
                i <= self.channels.len(),
                all == channels_view(self.channels@),
                channels_view(r@) == all.take(i as int).filter(|c: ChannelView| c.kind == kind),
            decreases self.channels.len() - i,
        {
            let ghost before = channels_view(r@);
            assert(all.take(i + 1).drop_last() =~= all.take(i as int));
            reveal_with_fuel(Seq::filter, 1);
            assert(all[i as int] == self.channels@[i as int]@);
            if self.channels[i].kind == kind {
                r.push(self.channels[i].copy());
                assert(channels_view(r@) =~= before.push(all[i as int]));
            }
            i = i + 1;
        }
        assert(all.take(self.channels.len() as int) =~= all);
        r
    }

    /// The default device of a kind, if known.
    pub fn default_of(&self, kind: Kind) -> (r: Option<&Channel>)
        ensures
            match r {
                Some(c) => default_pos(self@.channels, kind) < self@.channels.len()
                    && c@ == self@.channels[default_pos(self@.channels, kind)],
                None => default_pos(self@.channels, kind) == self@.channels.len(),
            },
    {
        let ghost s = self@.channels;
        let mut i: usize = 0;
        while i < self.channels.len()
            invariant
                i <= self.channels.len(),
                s == channels_view(self.channels@),
                forall|j: int| 0 <= j < i ==> !((#[trigger] s[j]).kind == kind && s[j].default),
            decreases self.channels.len() - i,
        {
            assert(s[i as int] == self.channels@[i as int]@);
            if self.channels[i].kind == kind && self.channels[i].default {
                proof {
                    lemma_default_pos_at(s, kind, i as int);
                }
                return Some(&self.channels[i]);
            }
            i = i + 1;
        }
        proof {
            lemma_default_pos_at(s, kind, i as int);
        }
        None
    }

    /// The players, in appearance order.
    pub fn players(&self) -> (r: &[Player])
        ensures
            players_view(r@) == self@.players,
    {
        self.players.as_slice()
    }

    /// Where the cover of the player on `bus` is on disk: its art when
    /// that is a `file://` URL; none for other schemes or no art.
    pub fn cover(&self, bus: &str) -> (r: Option<String>)
        ensures
            ({
                let p = player_pos(self@.players, bus@);
                opt_view(r) == (if p < self@.players.len() {
                    cover_path(self@.players[p].art)
                } else {
                    None
                })
            }),
    {
        let owned = bus.to_string();
        let q = self.player_position(&owned);
        if q >= self.players.len() {
            return None;
        }
        assert(self.players@[q as int]@ == self@.players[q as int]);
        match &self.players[q].art {
            Some(url) => {
                let chars = chars_of(url.as_str());
                if has_prefix(chars.as_slice(), "file://") {
                    proof {
                        reveal_strlit("file://");
                    }
                    let rest = slice_vec(chars.as_slice(), 7, chars.len());
                    assert(rest@ =~= url@.skip(7));
                    let path = string_of(rest.as_slice());
                    Some(percent_decode(path.as_str()))
                } else {
                    None
                }
            },
            None => None,
        }
    }

    /// Icon names the channels suggest, for the caller to resolve.
    pub fn icon_names(&self) -> (r: Vec<String>)
        ensures
            crate::config::strings_view(r@) == present(self@.channels.map_values(|c: ChannelView| c.icon)),
    {
        let ghost icons = self@.channels.map_values(|c: ChannelView| c.icon);
        let mut r: Vec<String> = Vec::new();
        let mut i: usize = 0;
        while i < self.channels.len()
            invariant
                i <= self.channels.len(),
                icons == channels_view(self.channels@).map_values(|c: ChannelView| c.icon),
                crate::config::strings_view(r@) == present(icons.take(i as int)),
            decreases self.channels.len() - i,
        {
            let ghost before = crate::config::strings_view(r@);
            assert(icons.take(i + 1).drop_last() =~= icons.take(i as int));
            assert(icons[i as int] == opt_view(self.channels@[i as int].icon));
            match &self.channels[i].icon {
                Some(name) => {
                    r.push(name.clone());
                    assert(crate::config::strings_view(r@) =~= before.push(name@));
                },
                None => {},
            }
            i = i + 1;
        }
        assert(icons.take(self.channels.len() as int) =~= icons);
        r
    }

    /// Classes (application names, then desktop ids) whose icons the
    /// caller should resolve from the desktop entries.
    pub fn app_classes(&self) -> (r: Vec<String>)
        ensures
            crate::config::strings_view(r@) == present(self@.channels.map_values(|c: ChannelView| c.app))
                + present(self@.players.map_values(|p: PlayerView| p.desktop_entry)),
    {
        let ghost apps = self@.channels.map_values(|c: ChannelView| c.app);
        let ghost entries = self@.players.map_values(|p: PlayerView| p.desktop_entry);
        let mut r: Vec<String> = Vec::new();
        let mut i: usize = 0;
        while i < self.channels.len()
            invariant
                i <= self.channels.len(),
                apps == channels_view(self.channels@).map_values(|c: ChannelView| c.app),
                crate::config::strings_view(r@) == present(apps.take(i as int)),
            decreases self.channels.len() - i,
        {
            let ghost before = crate::config::strings_view(r@);
            assert(apps.take(i + 1).drop_last() =~= apps.take(i as int));
            assert(apps[i as int] == opt_view(self.channels@[i as int].app));
            match &self.channels[i].app {
                Some(name) => {
                    r.push(name.clone());
                    assert(crate::config::strings_view(r@) =~= before.push(name@));
                },
                None => {},
            }
            i = i + 1;
        }
        assert(apps.take(self.channels.len() as int) =~= apps);
        let ghost first = crate::config::strings_view(r@);
        let mut j: usize = 0;
        assert(entries.take(0) =~= Seq::<Option<Seq<char>>>::empty());
        assert(first + present(entries.take(0)) =~= first);
        while j < self.players.len()
            invariant
                j <= self.players.len(),
                entries == players_view(self.players@).map_values(|p: PlayerView| p.desktop_entry),
                crate::config::strings_view(r@) == first + present(entries.take(j as int)),
            decreases self.players.len() - j,
        {
            let ghost before = present(entries.take(j as int));
            assert(entries.take(j + 1).drop_last() =~= entries.take(j as int));
            assert(entries[j as int] == opt_view(self.players@[j as int].desktop_entry));
            assert(entries.take(j + 1).last() == entries[j as int]);
            match &self.players[j].desktop_entry {
                Some(name) => {
                    let ghost old_r = crate::config::strings_view(r@);
                    r.push(name.clone());
                    assert(crate::config::strings_view(r@) =~= old_r.push(name@));
                    assert(present(entries.take(j + 1)) == before.push(name@));
                    assert(crate::config::strings_view(r@) =~= first + before.push(name@));
                },
                None => {},
            }
            j = j + 1;
        }
        assert(entries.take(self.players.len() as int) =~= entries);
        r
    }

    /// What a command becomes, and on which connection it goes; `None`
    /// when its channel is not known or that connection is down.
    pub fn run(&self, command: Command) -> (r: Option<Dispatch>)
        ensures
            dispatch_view(r) == dispatched(self@, command@),
    {
        match command {
            Command::SetVolume(kind, index, volume) => {
                let p = self.position(kind, index);
                if p < self.channels.len() && self.mixer {
                    assert(self.channels@[p as int]@ == self@.channels[p as int]);
                    Some(Dispatch::Mixer(Request::SetVolume { kind, index, channels: self.channels[p].channels, volume }))
                } else {
                    None
                }
            },
            Command::SetMuted(kind, index, mute) => if self.mixer {
                Some(Dispatch::Mixer(Request::SetMute { kind, index, mute }))
            } else {
                None
            },
            Command::SetDefault(kind, index) => {
                let p = self.position(kind, index);
                if p < self.channels.len() && self.mixer {
                    assert(self.channels@[p as int]@ == self@.channels[p as int]);
                    Some(Dispatch::Mixer(Request::SetDefault { kind, name: self.channels[p].name.clone() }))
                } else {
                    None
                }
            },
            Command::StepDefault { kind, delta, max } => {
                if !self.mixer {
                    return None;
                }
                match self.default_of(kind) {
                    Some(c) => {
                        let sum: i128 = c.volume as i128 + delta as i128;
                        let volume: u32 = if sum < 0 {
                            0
                        } else if sum > max as i128 {
                            max
                        } else {
                            sum as u32
                        };
                        Some(Dispatch::Mixer(Request::SetVolume { kind: c.kind, index: c.index, channels: c.channels, volume }))
                    },
                    None => None,
                }
            },
            Command::ToggleDefaultMute(kind) => {
                if !self.mixer {
                    return None;
                }
                match self.default_of(kind) {
                    Some(c) => Some(Dispatch::Mixer(Request::SetMute { kind: c.kind, index: c.index, mute: !c.muted })),
                    None => None,
                }
            },
            Command::PlayPause(bus) => if self.bus {
                Some(Dispatch::Player(bus, PlayerCall::PlayPause))
            } else {
                None
            },
            Command::Next(bus) => if self.bus {
                Some(Dispatch::Player(bus, PlayerCall::Next))
            } else {
                None
            },
            Command::Previous(bus) => if self.bus {
                Some(Dispatch::Player(bus, PlayerCall::Previous))
            } else {
                None
            },
        }
    }
}


// ---------------------------------------------------------------------
// Player properties

/// A value in a player's `Metadata`, as far as it is read: its text
/// (when it is a string) and, when it is an array, its items' texts.
#[derive(Debug)]
pub struct MetaValue {
    pub text: Option<String>,
    pub items: Option<Vec<Option<String>>>,
}

/// A player property's value, as far as it is read: its text, its
/// truth value, and, for a dictionary (`Metadata`), its entries (key
/// text, value), variants looked through.
#[derive(Debug)]
pub struct PropValue {
    pub text: Option<String>,
    pub flag: Option<bool>,
    pub entries: Option<Vec<(Option<String>, MetaValue)>>,
}

pub struct MetaView {
    pub text: Option<Seq<char>>,
    pub items: Option<Seq<Option<Seq<char>>>>,
}

pub open spec fn opts_view(v: Seq<Option<String>>) -> Seq<Option<Seq<char>>> {
    v.map_values(|o: Option<String>| opt_view(o))
}

pub open spec fn meta_view(m: MetaValue) -> MetaView {
    MetaView {
        text: opt_view(m.text),
        items: match m.items {
            Some(v) => Some(opts_view(v@)),
            None => None,
        },
    }
}

pub open spec fn entries_view(v: Seq<(Option<String>, MetaValue)>) -> Seq<(Option<Seq<char>>, MetaView)> {
    v.map_values(|e: (Option<String>, MetaValue)| (opt_view(e.0), meta_view(e.1)))
}

/// A value's text; empty when it is not a string.
pub open spec fn text_of(o: Option<Seq<char>>) -> Seq<char> {
    match o {
        Some(t) => t,
        None => Seq::empty(),
    }
}

/// The metadata entry under `key`: the first whose key reads so.
pub open spec fn meta_get(entries: Seq<(Option<Seq<char>>, MetaView)>, key: Seq<char>) -> Option<MetaView>
    decreases entries.len(),
{
    if entries.len() == 0 {
        None
    } else if text_of(entries[0].0) == key {
        Some(entries[0].1)
    } else {
        meta_get(entries.drop_first(), key)
    }
}

/// The non-empty texts, in order.
pub open spec fn nonempty_texts(items: Seq<Option<Seq<char>>>) -> Seq<Seq<char>>
    decreases items.len(),
{
    if items.len() == 0 {
        seq![]
    } else {
        let before = nonempty_texts(items.drop_last());
        if text_of(items.last()).len() > 0 {
            before.push(text_of(items.last()))
        } else {
            before
        }
    }
}

/// `xesam:artist`: a list of names joined with `, ` (empty ones left
/// out), or a single name.
pub open spec fn artist_of(v: Option<MetaView>) -> Seq<char> {
    match v {
        Some(m) => match m.items {
            Some(items) => crate::text::joined(nonempty_texts(items), ", "@),
            None => text_of(m.text),
        },
        None => Seq::empty(),
    }
}

pub open spec fn meta_text(v: Option<MetaView>) -> Seq<char> {
    match v {
        Some(m) => text_of(m.text),
        None => Seq::empty(),
    }
}

pub open spec fn nonempty(t: Seq<char>) -> Option<Seq<char>> {
    if t.len() > 0 {
        Some(t)
    } else {
        None
    }
}

pub open spec fn status_named(t: Seq<char>) -> PlaybackStatus {
    if t == "Playing"@ {
        PlaybackStatus::Playing
    } else if t == "Paused"@ {
        PlaybackStatus::Paused
    } else {
        PlaybackStatus::Stopped
    }
}

pub open spec fn flag_of(f: Option<bool>) -> bool {
    match f {
        Some(b) => b,
        None => false,
    }
}

/// A player after one property of the root or player interface
/// changed; properties not read change nothing.
pub open spec fn player_set(
    p: PlayerView,
    name: Seq<char>,
    text: Option<Seq<char>>,
    flag: Option<bool>,
    entries: Option<Seq<(Option<Seq<char>>, MetaView)>>,
) -> PlayerView {
    if name == "Identity"@ {
        PlayerView { identity: text_of(text), ..p }
    } else if name == "DesktopEntry"@ {
        PlayerView { desktop_entry: nonempty(text_of(text)), ..p }
    } else if name == "PlaybackStatus"@ {
        PlayerView { status: status_named(text_of(text)), ..p }
    } else if name == "Metadata"@ {
        match entries {
            Some(d) => PlayerView {
                title: meta_text(meta_get(d, "xesam:title"@)),
                album: meta_text(meta_get(d, "xesam:album"@)),
                artist: artist_of(meta_get(d, "xesam:artist"@)),
                art: nonempty(meta_text(meta_get(d, "mpris:artUrl"@))),
                ..p
            },
            None => p,
        }
    } else if name == "CanGoNext"@ {
        PlayerView { can_go_next: flag_of(flag), ..p }
    } else if name == "CanGoPrevious"@ {
        PlayerView { can_go_previous: flag_of(flag), ..p }
    } else if name == "CanPlay"@ {
        PlayerView { can_play: flag_of(flag), ..p }
    } else if name == "CanPause"@ {
        PlayerView { can_pause: flag_of(flag), ..p }
    } else {
        p
    }
}

fn text_or_empty(o: &Option<String>) -> (r: String)
    ensures
        r@ == text_of(opt_view(*o)),
{
    match o {
        Some(t) => t.clone(),
        None => String::new(),
    }
}

fn find_meta<'a>(entries: &'a Vec<(Option<String>, MetaValue)>, key: &str) -> (r: Option<&'a MetaValue>)
    ensures
        match r {
            Some(m) => meta_get(entries_view(entries@), key@) == Some(meta_view(*m)),
            None => meta_get(entries_view(entries@), key@) is None,
        },
{
    let ghost ev = entries_view(entries@);
    let mut i: usize = 0;
    assert(ev.skip(0) =~= ev);
    while i < entries.len()
        invariant
            i <= entries.len(),
            ev == entries_view(entries@),
            meta_get(ev, key@) == meta_get(ev.skip(i as int), key@),
        decreases entries.len() - i,
    {
        let ghost rest = ev.skip(i as int);
        assert(rest[0] == (opt_view(entries@[i as int].0), meta_view(entries@[i as int].1)));
        let k = text_or_empty(&entries[i].0);
        if crate::config::str_eq(k.as_str(), key) {
            return Some(&entries[i].1);
        }
        assert(rest.drop_first() =~= ev.skip(i + 1));
        i = i + 1;
    }
    None
}

fn meta_text_of(v: Option<&MetaValue>) -> (r: String)
    ensures
        r@ == meta_text(match v {
            Some(m) => Some(meta_view(*m)),
            None => None,
        }),
{
    match v {
        Some(m) => text_or_empty(&m.text),
        None => String::new(),
    }
}

fn artist_text(v: Option<&MetaValue>) -> (r: String)
    ensures
        r@ == artist_of(match v {
            Some(m) => Some(meta_view(*m)),
            None => None,
        }),
{
    match v {
        Some(m) => match &m.items {
            Some(items) => {
                let ghost iv = opts_view(items@);
                let mut names: Vec<Vec<char>> = Vec::new();
                let mut i: usize = 0;
                assert(iv.take(0) =~= Seq::<Option<Seq<char>>>::empty());
                assert(crate::text::views(names@) =~= Seq::<Seq<char>>::empty());
                while i < items.len()
                    invariant
                        i <= items.len(),
                        iv == opts_view(items@),
                        crate::text::views(names@) == nonempty_texts(iv.take(i as int)),
                    decreases items.len() - i,
                {
                    assert(iv.take(i + 1).drop_last() =~= iv.take(i as int));
                    assert(iv.take(i + 1).last() == opt_view(items@[i as int]));
                    let t = text_or_empty(&items[i]);
                    if !t.as_str().is_empty() {
                        let ghost before = crate::text::views(names@);
                        names.push(chars_of(t.as_str()));
                        assert(crate::text::views(names@) =~= before.push(t@));
                    }
                    i = i + 1;
                }
                assert(iv.take(items.len() as int) =~= iv);
                let joined = crate::text::join_with(&names, ", ");
                string_of(joined.as_slice())
            },
            None => text_or_empty(&m.text),
        },
        None => String::new(),
    }
}

impl Player {
    /// One property of the root or player interface, as reported.
    pub fn set(&mut self, name: &str, value: &PropValue)
        ensures
            final(self)@ == player_set(
                old(self)@,
                name@,
                opt_view(value.text),
                value.flag,
                match value.entries {
                    Some(e) => Some(entries_view(e@)),
                    None => None,
                },
            ),
    {
        let flag = match value.flag {
            Some(b) => b,
            None => false,
        };
        if crate::config::str_eq(name, "Identity") {
            self.identity = text_or_empty(&value.text);
        } else if crate::config::str_eq(name, "DesktopEntry") {
            let id = text_or_empty(&value.text);
            self.desktop_entry = if id.as_str().is_empty() {
                None
            } else {
                Some(id)
            };
        } else if crate::config::str_eq(name, "PlaybackStatus") {
            let t = text_or_empty(&value.text);
            self.status = if crate::config::str_eq(t.as_str(), "Playing") {
                PlaybackStatus::Playing
            } else if crate::config::str_eq(t.as_str(), "Paused") {
                PlaybackStatus::Paused
            } else {
                PlaybackStatus::Stopped
            };
        } else if crate::config::str_eq(name, "Metadata") {
            match &value.entries {
                Some(d) => {
                    self.title = meta_text_of(find_meta(d, "xesam:title"));
                    self.album = meta_text_of(find_meta(d, "xesam:album"));
                    self.artist = artist_text(find_meta(d, "xesam:artist"));
                    let art = meta_text_of(find_meta(d, "mpris:artUrl"));
                    self.art = if art.as_str().is_empty() {
                        None
                    } else {
                        Some(art)
                    };
                },
                None => {},
            }
        } else if crate::config::str_eq(name, "CanGoNext") {
            self.can_go_next = flag;
        } else if crate::config::str_eq(name, "CanGoPrevious") {
            self.can_go_previous = flag;
        } else if crate::config::str_eq(name, "CanPlay") {
            self.can_play = flag;
        } else if crate::config::str_eq(name, "CanPause") {
            self.can_pause = flag;
        }
    }
}

} // verus!
