//! The bars: their `[panel]` sections, which outputs they go on, and
//! which gadgets fill their three slots. The layer surfaces and drawing
//! are the caller's.
use vstd::prelude::*;

use crate::config::{is_instance, lookup, section_pairs, strings_view, strs_view, Config, IniSection, Pairs, RawSection, Section};
use crate::text::{chars_of, split_once, split_once_char, string_of, words};

verus! {

/// The screen edge a bar sits on.
#[derive(Debug, Clone, Copy, PartialEq, Eq, Structural)]
pub enum Position {
    Top,
    Bottom,
}

/// The layer-shell layer a bar is on.
#[derive(Debug, Clone, Copy, PartialEq, Eq, Structural)]
pub enum Layer {
    Bottom,
    Top,
    Overlay,
}

/// `[panel]` section, one per bar (`[panel:2]` for a second one).
#[derive(Debug)]
pub struct PanelConfig {
    /// `all`, or the connector names (`DP-1 HDMI-A-1`) to show this bar on.
    pub outputs: Vec<String>,
    pub position: Position,
    pub layer: Layer,
    pub items_start: Vec<String>,
    pub items_center: Vec<String>,
    pub items_end: Vec<String>,
}

/// `position`: `bottom`, else (missing or anything else) `top`.
pub open spec fn position_of(v: Option<Seq<char>>) -> Position {
    match v {
        Some(p) => if p == "bottom"@ {
            Position::Bottom
        } else {
            Position::Top
        },
        None => Position::Top,
    }
}

/// `layer`: `top` or `overlay`, else (missing or anything else) `bottom`.
pub open spec fn layer_of(v: Option<Seq<char>>) -> Layer {
    match v {
        Some(l) => if l == "top"@ {
            Layer::Top
        } else if l == "overlay"@ {
            Layer::Overlay
        } else {
            Layer::Bottom
        },
        None => Layer::Bottom,
    }
}

/// The value of `key` in a section's pairs, when present and not
/// empty (as [`RawSection::value`] reads it).
pub open spec fn setting(pairs: Pairs, key: Seq<char>) -> Option<Seq<char>> {
    match lookup(pairs, key) {
        Some(v) => if v.len() > 0 {
            Some(v)
        } else {
            None
        },
        None => None,
    }
}

pub open spec fn words_or(pairs: Pairs, key: Seq<char>, default: Seq<Seq<char>>) -> Seq<Seq<char>> {
    match setting(pairs, key) {
        Some(v) => words(v),
        None => default,
    }
}

/// What a section's pairs make of a bar, its middle slot aside.
pub open spec fn built_from(p: PanelConfig, pairs: Pairs) -> bool {
    &&& strings_view(p.outputs@) == words_or(pairs, "outputs"@, seq!["all"@])
    &&& p.position == position_of(setting(pairs, "position"@))
    &&& p.layer == layer_of(setting(pairs, "layer"@))
    &&& strings_view(p.items_start@) == words_or(pairs, "items_start"@, seq![])
    &&& strings_view(p.items_end@) == words_or(pairs, "items_end"@, seq![])
}

impl PanelConfig {
    pub fn from_section(raw: &RawSection) -> (r: PanelConfig)
        ensures
            built_from(r, raw@),
            strings_view(r.items_center@) == words_or(raw@, "items_center"@, seq![]),
    {
        let position = match raw.get("position") {
            Some(p) => if crate::config::str_eq(p, "bottom") {
                Position::Bottom
            } else {
                Position::Top
            },
            None => Position::Top,
        };
        let layer = match raw.get("layer") {
            Some(l) => if crate::config::str_eq(l, "top") {
                Layer::Top
            } else if crate::config::str_eq(l, "overlay") {
                Layer::Overlay
            } else {
                Layer::Bottom
            },
            None => Layer::Bottom,
        };
        let all = ["all"];
        let none: [&str; 0] = [];
        proof {
            reveal_strlit("all");
        }
        assert(strs_view(all@) =~= seq!["all"@]);
        assert(strs_view(none@) =~= Seq::<Seq<char>>::empty());
        PanelConfig {
            outputs: raw.list_or("outputs", &all),
            position,
            layer,
            items_start: raw.list_or("items_start", &none),
            items_center: raw.list_or("items_center", &none),
            items_end: raw.list_or("items_end", &none),
        }
    }

    /// Whether this bar goes on the output named `output` (`all` puts it
    /// on every output, even one without a name).
    pub fn wants_output(&self, output: Option<&str>) -> (r: bool)
        ensures
            r == (strings_view(self.outputs@).contains("all"@) || match output {
                Some(name) => strings_view(self.outputs@).contains(name@),
                None => false,
            }),
    {
        let ghost ov = strings_view(self.outputs@);
        let mut all = false;
        let mut named = false;
        let mut i: usize = 0;
        while i < self.outputs.len()
            invariant
                i <= self.outputs.len(),
                ov == strings_view(self.outputs@),
                all == ov.take(i as int).contains("all"@),
                named == match output {
                    Some(name) => ov.take(i as int).contains(name@),
                    None => false,
                },
            decreases self.outputs.len() - i,
        {
            let ghost t = ov.take(i + 1);
            assert(t =~= ov.take(i as int).push(ov[i as int]));
            assert(ov[i as int] == self.outputs@[i as int]@);
            proof {
                reveal_strlit("all");
            }
            if crate::config::str_eq(self.outputs[i].as_str(), "all") {
                all = true;
                assert(t[i as int] == "all"@);
            }
            match output {
                Some(name) => {
                    if crate::config::str_eq(self.outputs[i].as_str(), name) {
                        named = true;
                        assert(t[i as int] == name@);
                    }
                },
                None => {},
            }
            proof {
                assert forall|x: Seq<char>| t.contains(x) implies ov.take(i as int).contains(x) || x == ov[i as int] by {
                    let k = choose|k: int| 0 <= k < t.len() && t[k] == x;
                    if k < i {
                        assert(ov.take(i as int)[k] == x);
                    }
                }
                assert forall|x: Seq<char>| ov.take(i as int).contains(x) implies t.contains(x) by {
                    let k = choose|k: int| 0 <= k < i && ov.take(i as int)[k] == x;
                    assert(t[k] == x);
                }
            }
            i = i + 1;
        }
        assert(ov.take(self.outputs.len() as int) =~= ov);
        all || named
    }
}

impl Section for PanelConfig {
    open spec fn read_from(raw: &RawSection, r: PanelConfig) -> bool {
        &&& (built_from(r, raw@))
        &&& (strings_view(r.items_center@) == words_or(raw@, "items_center"@, seq![]))
    }

    fn section_name() -> &'static str {
        "panel"
    }

    fn from_raw(raw: &RawSection) -> (r: PanelConfig) {
        PanelConfig::from_section(raw)
    }
}

/// The `[panel*]` sections to build bars from, in file order; with none
/// configured, a single default bar with just a clock in the middle.
pub fn all_panels(config: &Config) -> (r: Vec<(String, PanelConfig)>)
    ensures
        ({
            let names = config@.map_values(|s: IniSection| s.0).filter(|n: Seq<char>| is_instance(n, "panel"@));
            if names.len() == 0 {
                &&& r@.len() == 1
                &&& r@[0].0@ == "panel"@
                &&& built_from(r@[0].1, section_pairs(config@, "panel"@))
                &&& strings_view(r@[0].1.items_center@) == seq!["Clock"@]
            } else {
                &&& r@.len() == names.len()
                &&& forall|i: int|
                    0 <= i < names.len() ==> {
                        &&& (#[trigger] r@[i]).0@ == names[i]
                        &&& built_from(r@[i].1, section_pairs(config@, names[i]))
                        &&& strings_view(r@[i].1.items_center@) == words_or(
                            section_pairs(config@, names[i]),
                            "items_center"@,
                            seq![],
                        )
                    }
            }
        }),
{
    let names = config.instances("panel");
    if names.len() == 0 {
        let mut default = PanelConfig::from_section(&config.raw_section("panel"));
        default.items_center = vec!["Clock".to_string()];
        proof {
            reveal_strlit("Clock");
        }
        assert(strings_view(default.items_center@) =~= seq!["Clock"@]);
        let mut r: Vec<(String, PanelConfig)> = Vec::new();
        r.push(("panel".to_string(), default));
        return r;
    }
    let mut r: Vec<(String, PanelConfig)> = Vec::new();
    let mut i: usize = 0;
    while i < names.len()
        invariant
            i <= names.len(),
            r@.len() == i,
            forall|k: int|
                0 <= k < i ==> {
                    &&& (#[trigger] r@[k]).0@ == names@[k]@
                    &&& built_from(r@[k].1, section_pairs(config@, names@[k]@))
                    &&& strings_view(r@[k].1.items_center@) == words_or(
                        section_pairs(config@, names@[k]@),
                        "items_center"@,
                        seq![],
                    )
                },
        decreases names.len() - i,
    {
        let cfg = PanelConfig::from_section(&config.raw_section(names[i].as_str()));
        r.push((names[i].clone(), cfg));
        i = i + 1;
    }
    proof {
        assert forall|k: int| 0 <= k < r@.len() implies (#[trigger] r@[k]).0@ == strings_view(names@)[k] by {}
    }
    r
}

/// A slot of a bar.
#[derive(Debug, Clone, Copy, PartialEq, Eq, Structural)]
pub enum Slot {
    Start,
    Center,
    End,
}

impl Slot {
    /// The class selectors see: `slot.start`, ...
    pub fn name(self) -> (r: &'static str)
        ensures
            r@ == (match self {
                Slot::Start => "start"@,
                Slot::Center => "center"@,
                Slot::End => "end"@,
            }),
    {
        match self {
            Slot::Start => "start",
            Slot::Center => "center",
            Slot::End => "end",
        }
    }
}

/// The instance of a section name: `2` of `panel:2`; none for a bare
/// name or an empty one.
pub open spec fn instance_of(section: Seq<char>) -> Option<Seq<char>> {
    match split_once(section, ':') {
        Some((_, id)) => if id.len() > 0 {
            Some(id)
        } else {
            None
        },
        None => None,
    }
}

pub fn instance_id(section: &str) -> (r: Option<String>)
    ensures
        crate::config::opt_view(r) == instance_of(section@),
{
    let chars = chars_of(section);
    match split_once_char(chars.as_slice(), ':') {
        Some((_, id)) => if id.len() > 0 {
            Some(string_of(id.as_slice()))
        } else {
            None
        },
        None => None,
    }
}

/// The gadgets a bar can hold.
#[derive(Debug, Clone, Copy, PartialEq, Eq, Structural)]
pub enum GadgetKind {
    Clock,
    Workspaces,
    Tray,
    Themes,
}

/// The gadget a name makes: its section name before any `:`.
pub open spec fn gadget_named(name: Seq<char>) -> Option<GadgetKind> {
    let kind = crate::text::split_on(name, ':')[0];
    if kind == "Clock"@ {
        Some(GadgetKind::Clock)
    } else if kind == "WorkSpaces"@ {
        Some(GadgetKind::Workspaces)
    } else if kind == "Tray"@ {
        Some(GadgetKind::Tray)
    } else if kind == "Themes"@ {
        Some(GadgetKind::Themes)
    } else {
        None
    }
}

impl GadgetKind {
    /// The gadget an item of a slot names: `Clock`, or `Clock:2` for a
    /// second instance with its own section; none for an unknown one.
    pub fn of(name: &str) -> (r: Option<GadgetKind>)
        ensures
            r == gadget_named(name@),
    {
        let chars = chars_of(name);
        let parts = crate::text::split_char(chars.as_slice(), ':');
        assert(crate::text::split_on(name@, ':').len() >= 1);
        assert(parts@[0]@ == crate::text::split_on(name@, ':')[0]);
        let kind = parts[0].as_slice();
        if crate::text::eq_str(kind, "Clock") {
            Some(GadgetKind::Clock)
        } else if crate::text::eq_str(kind, "WorkSpaces") {
            Some(GadgetKind::Workspaces)
        } else if crate::text::eq_str(kind, "Tray") {
            Some(GadgetKind::Tray)
        } else if crate::text::eq_str(kind, "Themes") {
            Some(GadgetKind::Themes)
        } else {
            None
        }
    }

    /// The class selectors see: `gadget.clock`, `gadget.workspaces`.
    pub fn kind(self) -> (r: &'static str)
        ensures
            r@ == (match self {
                GadgetKind::Clock => "clock"@,
                GadgetKind::Workspaces => "workspaces"@,
                GadgetKind::Tray => "tray"@,
                GadgetKind::Themes => "themes"@,
            }),
    {
        match self {
            GadgetKind::Clock => "clock",
            GadgetKind::Workspaces => "workspaces",
            GadgetKind::Tray => "tray",
            GadgetKind::Themes => "themes",
        }
    }
}

} // verus!
