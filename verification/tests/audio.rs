use aria_shell::audio::{mixer_step, volume_channels, ConnectionLoss, ContextState, Facility, MixerNotice, MixerStep, Operation};
use aria_shell::audio::{
    decode_percents, percent_decode, Audio, Channel, Command, Dispatch, Event, Kind, MetaValue, PlaybackStatus, Player,
    PlayerCall, PropValue, Request, VOLUME_NORM,
};

fn channel(kind: Kind, index: u32, name: &str) -> Channel {
    Channel {
        kind,
        index,
        name: name.into(),
        label: name.into(),
        icon: None,
        app: None,
        volume: VOLUME_NORM / 2,
        muted: false,
        channels: 2,
        has_volume: true,
        default: false,
    }
}

fn ids(a: &Audio) -> Vec<(Kind, u32)> {
    a.channels().iter().map(|c| (c.kind, c.index)).collect()
}

#[test]
fn channels_grouped_by_kind_and_defaults_marked() {
    let mut a = Audio::default();
    assert!(a.apply(Event::Channel(channel(Kind::Stream, 7, "song"))));
    assert!(
        !a.apply(Event::Channel(channel(Kind::Stream, 7, "song"))),
        "unchanged: not a change"
    );
    a.apply(Event::Channel(channel(Kind::Output, 1, "spk")));
    a.apply(Event::Channel(channel(Kind::Input, 3, "mic")));
    a.apply(Event::Channel(channel(Kind::Output, 2, "hp")));
    assert_eq!(
        ids(&a),
        [
            (Kind::Output, 1),
            (Kind::Output, 2),
            (Kind::Input, 3),
            (Kind::Stream, 7)
        ]
    );
    a.apply(Event::Defaults {
        sink: "hp".into(),
        source: "mic".into(),
    });
    assert_eq!(a.default_of(Kind::Output).map(|c| c.index), Some(2));
    assert!(a.channels_of(Kind::Input)[0].default);
    // An update keeps the default flag.
    a.apply(Event::Channel(channel(Kind::Output, 2, "hp")));
    assert_eq!(a.default_of(Kind::Output).map(|c| c.index), Some(2));
    a.apply(Event::ChannelGone(Kind::Output, 2));
    assert!(a.default_of(Kind::Output).is_none());
    a.apply(Event::Disconnected);
    assert!(a.channels().is_empty());
}

#[test]
fn changes_are_reported_once() {
    let mut a = Audio::default();
    assert!(a.apply(Event::Channel(channel(Kind::Output, 1, "spk"))));
    let mut louder = channel(Kind::Output, 1, "spk");
    louder.volume = VOLUME_NORM;
    assert!(a.apply(Event::Channel(louder)), "a new volume is a change");
    assert_eq!(a.channels()[0].volume, VOLUME_NORM);
    assert_eq!(a.channels().len(), 1, "same identity: replaced");
    assert!(!a.apply(Event::ChannelGone(Kind::Output, 9)), "unknown: no change");
    assert!(a.apply(Event::Defaults { sink: "spk".into(), source: String::new() }));
    assert!(!a.apply(Event::Defaults { sink: "spk".into(), source: String::new() }));
    assert!(a.channels()[0].default);
    // An input seen before the defaults is marked by the next Defaults.
    a.apply(Event::Channel(channel(Kind::Input, 4, "mic")));
    assert!(!a.channels_of(Kind::Input)[0].default);
    a.apply(Event::Defaults { sink: "spk".into(), source: "mic".into() });
    assert!(a.channels_of(Kind::Input)[0].default);
    assert!(a.apply(Event::Disconnected));
    assert!(a.channels().is_empty());
    assert!(!a.apply(Event::Disconnected), "nothing left to lose");
}

#[test]
fn commands_go_where_they_belong() {
    let mut a = Audio::default();
    a.apply(Event::Channel(channel(Kind::Output, 1, "spk")));
    assert!(a.run(Command::SetMuted(Kind::Output, 1, true)).is_none(), "no mixer yet");
    a.apply(Event::Connected);
    match a.run(Command::SetVolume(Kind::Output, 1, VOLUME_NORM)) {
        Some(Dispatch::Mixer(Request::SetVolume { kind, index, channels, volume })) => {
            assert_eq!((kind, index, channels, volume), (Kind::Output, 1, 2, VOLUME_NORM));
        }
        other => panic!("unexpected {other:?}"),
    }
    assert!(a.run(Command::SetVolume(Kind::Output, 5, 0)).is_none(), "unknown channel");
    match a.run(Command::SetDefault(Kind::Output, 1)) {
        Some(Dispatch::Mixer(Request::SetDefault { kind, name })) => {
            assert_eq!((kind, name.as_str()), (Kind::Output, "spk"));
        }
        other => panic!("unexpected {other:?}"),
    }
    let step = Command::StepDefault { kind: Kind::Output, delta: 5000, max: VOLUME_NORM };
    assert!(a.run(step).is_none(), "no default device yet");
    a.apply(Event::Defaults { sink: "spk".into(), source: String::new() });
    let step = Command::StepDefault { kind: Kind::Output, delta: 5000, max: VOLUME_NORM };
    match a.run(step) {
        Some(Dispatch::Mixer(Request::SetVolume { volume, .. })) => assert_eq!(volume, VOLUME_NORM / 2 + 5000),
        other => panic!("unexpected {other:?}"),
    }
    let step = Command::StepDefault { kind: Kind::Output, delta: 100_000, max: VOLUME_NORM };
    match a.run(step) {
        Some(Dispatch::Mixer(Request::SetVolume { volume, .. })) => assert_eq!(volume, VOLUME_NORM, "clamped"),
        other => panic!("unexpected {other:?}"),
    }
    let step = Command::StepDefault { kind: Kind::Output, delta: -100_000, max: VOLUME_NORM };
    match a.run(step) {
        Some(Dispatch::Mixer(Request::SetVolume { volume, .. })) => assert_eq!(volume, 0),
        other => panic!("unexpected {other:?}"),
    }
    match a.run(Command::ToggleDefaultMute(Kind::Output)) {
        Some(Dispatch::Mixer(Request::SetMute { index, mute, .. })) => assert_eq!((index, mute), (1, true)),
        other => panic!("unexpected {other:?}"),
    }
    assert!(a.run(Command::Next("org.mpris.MediaPlayer2.x".into())).is_none(), "no bus yet");
    a.apply(Event::Bus);
    match a.run(Command::Next("org.mpris.MediaPlayer2.x".into())) {
        Some(Dispatch::Player(bus, call)) => {
            assert_eq!(bus, "org.mpris.MediaPlayer2.x");
            assert_eq!(call, PlayerCall::Next);
        }
        other => panic!("unexpected {other:?}"),
    }
}

#[test]
fn players_covers_and_classes() {
    let mut a = Audio::default();
    let mut p = Player::new("org.mpris.MediaPlayer2.spotify".into());
    p.art = Some("file:///home/me/My%20Cover.png".into());
    p.desktop_entry = Some("spotify".into());
    assert!(a.apply(Event::Player(p)));
    let q = Player::new("org.mpris.MediaPlayer2.web".into());
    assert!(a.apply(Event::Player(q)));
    let mut p2 = Player::new("org.mpris.MediaPlayer2.spotify".into());
    p2.art = Some("file:///home/me/My%20Cover.png".into());
    p2.desktop_entry = Some("spotify".into());
    assert!(!a.apply(Event::Player(p2)), "same report");
    assert_eq!(a.players().len(), 2);
    assert_eq!(a.cover("org.mpris.MediaPlayer2.spotify").as_deref(), Some("/home/me/My Cover.png"));
    assert_eq!(a.cover("org.mpris.MediaPlayer2.web"), None);
    assert_eq!(a.cover("org.mpris.MediaPlayer2.none"), None);
    let mut web = Player::new("org.mpris.MediaPlayer2.web".into());
    web.art = Some("https://example.org/a.png".into());
    assert!(a.apply(Event::Player(web)));
    assert_eq!(a.cover("org.mpris.MediaPlayer2.web"), None, "only file:// covers");
    let mut c = channel(Kind::Stream, 3, "song");
    c.app = Some("firefox".into());
    c.icon = Some("firefox".into());
    a.apply(Event::Channel(c));
    let mut d = channel(Kind::Output, 0, "spk");
    d.icon = Some("audio-speakers".into());
    a.apply(Event::Channel(d));
    assert_eq!(a.icon_names(), ["audio-speakers", "firefox"]);
    assert_eq!(a.app_classes(), ["firefox", "spotify"]);
    assert!(a.apply(Event::PlayerGone("org.mpris.MediaPlayer2.spotify".into())));
    assert!(!a.apply(Event::PlayerGone("org.mpris.MediaPlayer2.spotify".into())));
    assert_eq!(a.players().len(), 1);
    assert_eq!(a.app_classes(), ["firefox"]);
}

#[test]
fn percent_decoding() {
    assert_eq!(percent_decode("/a%20b/c%C3%A8.png"), "/a b/cè.png");
    assert_eq!(percent_decode("/plain"), "/plain");
    assert_eq!(percent_decode("/bad%2"), "/bad%2");
}

#[test]
fn percent_bytes() {
    assert_eq!(decode_percents(b"%41%zz%4"), b"A%zz%4".to_vec());
    assert_eq!(decode_percents(b"%+F"), vec![15u8]);
    assert_eq!(percent_decode("%FF"), "\u{FFFD}");
}

#[test]
fn a_new_player_is_stopped() {
    let p = Player::new("org.mpris.MediaPlayer2.test".into());
    assert_eq!(p.status, PlaybackStatus::Stopped);
    assert_eq!(p.bus, "org.mpris.MediaPlayer2.test");
    assert!(p.title.is_empty() && p.art.is_none() && !p.can_play);
}

fn text(t: &str) -> PropValue {
    PropValue { text: Some(t.into()), flag: None, entries: None }
}

fn flag(b: bool) -> PropValue {
    PropValue { text: None, flag: Some(b), entries: None }
}

fn meta(t: &str) -> MetaValue {
    MetaValue { text: Some(t.into()), items: None }
}

#[test]
fn metadata_and_status() {
    let mut p = Player::new("org.mpris.MediaPlayer2.test".into());
    p.set("Identity", &text("Test"));
    p.set("PlaybackStatus", &text("Playing"));
    let artists = MetaValue { text: None, items: Some(vec![Some("A".into()), Some("B".into())]) };
    let dict = PropValue {
        text: None,
        flag: None,
        entries: Some(vec![
            (Some("xesam:title".into()), meta("Song")),
            (Some("xesam:artist".into()), artists),
            (Some("mpris:artUrl".into()), meta("file:///tmp/cover.png")),
        ]),
    };
    p.set("Metadata", &dict);
    p.set("CanGoNext", &flag(true));
    assert_eq!(p.identity, "Test");
    assert_eq!(p.status, PlaybackStatus::Playing);
    assert_eq!(p.title, "Song");
    assert_eq!(p.artist, "A, B");
    assert_eq!(p.art.as_deref(), Some("file:///tmp/cover.png"));
    assert!(p.can_go_next);
}

#[test]
fn odd_properties() {
    let mut p = Player::new("org.mpris.MediaPlayer2.x".into());
    p.set("PlaybackStatus", &text("Rewinding"));
    assert_eq!(p.status, PlaybackStatus::Stopped);
    p.set("DesktopEntry", &text(""));
    assert_eq!(p.desktop_entry, None);
    p.set("DesktopEntry", &text("vlc"));
    assert_eq!(p.desktop_entry.as_deref(), Some("vlc"));
    p.set("CanPlay", &text("yes"));
    assert!(!p.can_play, "not a boolean: false");
    p.set("Volume", &flag(true));
    p.set("Metadata", &text("not a dict"));
    assert_eq!(p.title, "");
    let artists = MetaValue { text: None, items: Some(vec![Some("".into()), None, Some("C".into())]) };
    let dict = PropValue {
        text: None,
        flag: None,
        entries: Some(vec![(Some("xesam:artist".into()), artists), (Some("xesam:title".into()), meta("T"))]),
    };
    p.set("Metadata", &dict);
    assert_eq!((p.artist.as_str(), p.title.as_str(), p.album.as_str()), ("C", "T", ""));
    assert_eq!(p.art, None);
}

#[test]
fn mixer_notices_become_steps() {
    assert_eq!(mixer_step(true, MixerNotice::State(ContextState::Ready)), (MixerStep::Connected, false));
    assert_eq!(mixer_step(false, MixerNotice::State(ContextState::Ready)), (MixerStep::Nothing, false));
    assert_eq!(mixer_step(true, MixerNotice::State(ContextState::Connecting)), (MixerStep::Nothing, true));
    let (step, held) = mixer_step(false, MixerNotice::State(ContextState::Failed));
    assert_eq!(step, MixerStep::Lost(ConnectionLoss::Failed));
    assert!(!held);
    assert_eq!(ConnectionLoss::Failed.message(), "the connection failed");
    assert_eq!(ConnectionLoss::Terminated.message(), "the server closed the connection");
    assert_eq!(
        mixer_step(false, MixerNotice::State(ContextState::Terminated)).0,
        MixerStep::Lost(ConnectionLoss::Terminated)
    );
    assert_eq!(
        mixer_step(false, MixerNotice::Changed(Some(Facility::Sink), Some(Operation::Removed), 4)).0,
        MixerStep::Gone(Kind::Output, 4)
    );
    assert_eq!(
        mixer_step(false, MixerNotice::Changed(Some(Facility::Source), Some(Operation::New), 2)).0,
        MixerStep::Fetch(Kind::Input, 2)
    );
    assert_eq!(
        mixer_step(false, MixerNotice::Changed(Some(Facility::SinkInput), None, 9)).0,
        MixerStep::Fetch(Kind::Stream, 9)
    );
    assert_eq!(
        mixer_step(true, MixerNotice::Changed(Some(Facility::Server), Some(Operation::Changed), 0)),
        (MixerStep::FetchDefaults, true)
    );
    assert_eq!(mixer_step(false, MixerNotice::Changed(Some(Facility::Other), None, 1)).0, MixerStep::Nothing);
    assert_eq!(mixer_step(false, MixerNotice::Changed(None, Some(Operation::Removed), 1)).0, MixerStep::Nothing);
    assert_eq!(volume_channels(0), 1);
    assert_eq!(volume_channels(2), 2);
}
