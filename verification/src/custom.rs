//! Custom gadget: a user-defined button. An icon and/or a label, a
//! program per mouse button and wheel direction, and optionally a
//! program (`exec`) whose output is the label. Drawing the button,
//! running the programs and telling the wheel's direction are the
//! caller's.
use vstd::prelude::*;

use crate::config::{str_eq, strings_view, RawSection, Section};
use crate::locale::{replace_all, replaced};
use crate::process::{shell_words, split_words};
use crate::scripts::{Output, ReturnType, Spec, SpecView};

verus! {

/// `[Custom]` section.
#[derive(Debug, Clone)]
pub struct CustomConfig {
    /// Fixed text, and an icon name from the icon theme.
    pub label: String,
    pub icon: String,
    /// Command lines run on the left, right and middle button, and on
    /// the wheel.
    pub command: String,
    pub command_right: String,
    pub command_middle: String,
    pub command_wheel_up: String,
    pub command_wheel_down: String,
    /// Command line whose standard output feeds the label; empty for a
    /// static gadget.
    pub exec_line: String,
    /// Seconds between runs of `exec`; 0 runs it once (and after clicks).
    pub interval: u64,
    /// The label: `{}` is `exec`'s output (or `label` without `exec`),
    /// `{label}` the `label` key.
    pub format: String,
    /// How `exec`'s output is read.
    pub return_type: ReturnType,
    /// With `exec`: show nothing while the output is empty (or the
    /// program failed).
    pub hide_empty: bool,
}

pub open spec fn text_key(raw: RawSection, key: Seq<char>, default: Seq<char>) -> Seq<char> {
    match raw.value(key) {
        Some(v) => v,
        None => default,
    }
}

impl CustomConfig {
    /// The section's keys; `return_type` is `text` unless it says
    /// `json`, `format` is `{}`, `hide_empty` yes.
    pub fn from_section(raw: &RawSection) -> (r: CustomConfig)
        ensures
            r.label@ == text_key(*raw, "label"@, ""@),
            r.icon@ == text_key(*raw, "icon"@, ""@),
            r.command@ == text_key(*raw, "command"@, ""@),
            r.command_right@ == text_key(*raw, "command_right"@, ""@),
            r.command_middle@ == text_key(*raw, "command_middle"@, ""@),
            r.command_wheel_up@ == text_key(*raw, "command_wheel_up"@, ""@),
            r.command_wheel_down@ == text_key(*raw, "command_wheel_down"@, ""@),
            r.exec_line@ == text_key(*raw, "exec"@, ""@),
            r.interval == crate::sysmon::number_or(*raw, "interval"@, 0),
            r.format@ == text_key(*raw, "format"@, "{}"@),
            r.return_type == (if raw.value("return_type"@) == Some("json"@) { ReturnType::Json } else { ReturnType::Text }),
            r.hide_empty == crate::notifications::flag_or(raw, "hide_empty"@, true),
    {
        let return_type = match raw.get("return_type") {
            Some(t) => if str_eq(t, "json") { ReturnType::Json } else { ReturnType::Text },
            None => ReturnType::Text,
        };
        CustomConfig {
            label: raw.str_or("label", ""),
            icon: raw.str_or("icon", ""),
            command: raw.str_or("command", ""),
            command_right: raw.str_or("command_right", ""),
            command_middle: raw.str_or("command_middle", ""),
            command_wheel_up: raw.str_or("command_wheel_up", ""),
            command_wheel_down: raw.str_or("command_wheel_down", ""),
            exec_line: raw.str_or("exec", ""),
            interval: raw.u64_or("interval", 0),
            format: raw.str_or("format", "{}"),
            return_type,
            hide_empty: raw.bool_or("hide_empty", true),
        }
    }
}

impl Section for CustomConfig {
    open spec fn read_from(raw: &RawSection, r: CustomConfig) -> bool {
        &&& (r.label@ == text_key(*raw, "label"@, ""@))
        &&& (r.icon@ == text_key(*raw, "icon"@, ""@))
        &&& (r.command@ == text_key(*raw, "command"@, ""@))
        &&& (r.command_right@ == text_key(*raw, "command_right"@, ""@))
        &&& (r.command_middle@ == text_key(*raw, "command_middle"@, ""@))
        &&& (r.command_wheel_up@ == text_key(*raw, "command_wheel_up"@, ""@))
        &&& (r.command_wheel_down@ == text_key(*raw, "command_wheel_down"@, ""@))
        &&& (r.exec_line@ == text_key(*raw, "exec"@, ""@))
        &&& (r.interval == crate::sysmon::number_or(*raw, "interval"@, 0))
        &&& (r.format@ == text_key(*raw, "format"@, "{}"@))
        &&& (r.return_type == (if raw.value("return_type"@) == Some("json"@) { ReturnType::Json } else { ReturnType::Text }))
        &&& (r.hide_empty == crate::notifications::flag_or(raw, "hide_empty"@, true))
    }

    fn section_name() -> &'static str {
        "Custom"
    }

    fn from_raw(raw: &RawSection) -> (r: CustomConfig) {
        CustomConfig::from_section(raw)
    }
}

/// A press on the button.
#[derive(Debug, Clone, Copy, PartialEq, Eq, Structural)]
pub enum Click {
    Left,
    Right,
    Middle,
    WheelUp,
    WheelDown,
}

pub struct Custom {
    config: CustomConfig,
    /// `exec`, for the daemon; `None` for a static gadget.
    script: Option<Spec>,
}

pub open spec fn opt_spec(o: Option<Spec>) -> Option<SpecView> {
    match o {
        Some(s) => Some(s@),
        None => None,
    }
}

impl Custom {
    pub closed spec fn spec_config(&self) -> CustomConfig {
        self.config
    }

    pub closed spec fn spec_script(&self) -> Option<SpecView> {
        opt_spec(self.script)
    }

    /// The gadget of a section: `exec` split into words is its script,
    /// run every `interval` seconds, when it has any.
    pub fn with_config(config: CustomConfig) -> (r: Custom)
        ensures
            r.spec_config() == config,
            r.spec_script() == (if shell_words(config.exec_line@).len() == 0 {
                None
            } else {
                Some(SpecView { argv: shell_words(config.exec_line@), interval: config.interval, return_type: config.return_type })
            }),
    {
        let argv = split_words(config.exec_line.as_str());
        let script = if argv.len() == 0 {
            None
        } else {
            Some(Spec { argv, interval: config.interval, return_type: config.return_type })
        };
        Custom { config, script }
    }

    /// `exec`, for the caller to run.
    pub fn script(&self) -> (r: Option<&Spec>)
        ensures
            match r {
                Some(s) => self.spec_script() == Some(s@),
                None => self.spec_script() is None,
            },
    {
        match &self.script {
            Some(s) => Some(s),
            None => None,
        }
    }

    /// The icon name the button may draw.
    pub fn icon_names(&self) -> (r: Vec<String>)
        ensures
            strings_view(r@) == (if self.spec_config().icon@.len() == 0 {
                Seq::<Seq<char>>::empty()
            } else {
                seq![self.spec_config().icon@]
            }),
    {
        let mut r: Vec<String> = Vec::new();
        if !self.config.icon.as_str().is_empty() {
            r.push(self.config.icon.clone());
            assert(strings_view(r@) =~= seq![self.config.icon@]);
        } else {
            assert(strings_view(r@) =~= Seq::<Seq<char>>::empty());
        }
        r
    }

    /// The label for `output` (the last one, or none yet): `{label}` is
    /// the `label` key, then `{}` the output's text (or the label).
    pub fn text(&self, output: Option<&Output>) -> (r: String)
        ensures
            r@ == replaced(
                replaced(self.spec_config().format@, "{label}"@, self.spec_config().label@),
                "{}"@,
                match output {
                    Some(o) => o.text@,
                    None => self.spec_config().label@,
                },
            ),
    {
        let value: &str = match output {
            Some(o) => o.text.as_str(),
            None => self.config.label.as_str(),
        };
        let first = replace_all(self.config.format.as_str(), "{label}", self.config.label.as_str());
        replace_all(first.as_str(), "{}", value)
    }

    /// Whether the button shows at all: with `exec` and `hide_empty`,
    /// not while the output is empty or missing.
    pub fn shown(&self, output: Option<&Output>) -> (r: bool)
        ensures
            r == !(self.spec_script() is Some && self.spec_config().hide_empty && match output {
                Some(o) => o.text@.len() == 0,
                None => true,
            }),
    {
        let empty = match output {
            Some(o) => o.text.as_str().is_empty(),
            None => true,
        };
        !(self.script.is_some() && self.config.hide_empty && empty)
    }

    /// A press: the command line to run, and the script to run again
    /// after it (what the command did may show in the output); nothing
    /// when that press has no command.
    pub fn on_click(&self, click: Click) -> (r: Option<(String, Option<Spec>)>)
        ensures
            ({
                let line = match click {
                    Click::Left => self.spec_config().command@,
                    Click::Right => self.spec_config().command_right@,
                    Click::Middle => self.spec_config().command_middle@,
                    Click::WheelUp => self.spec_config().command_wheel_up@,
                    Click::WheelDown => self.spec_config().command_wheel_down@,
                };
                &&& line.len() == 0 ==> r is None
                &&& line.len() > 0 ==> (r matches Some((l, s)) && l@ == line && opt_spec(s) == self.spec_script())
            }),
    {
        let line = match click {
            Click::Left => &self.config.command,
            Click::Right => &self.config.command_right,
            Click::Middle => &self.config.command_middle,
            Click::WheelUp => &self.config.command_wheel_up,
            Click::WheelDown => &self.config.command_wheel_down,
        };
        if line.as_str().is_empty() {
            return None;
        }
        let spec = match &self.script {
            Some(s) => Some(crate::scripts::copy_spec(s)),
            None => None,
        };
        Some((line.clone(), spec))
    }
}

} // verus!
