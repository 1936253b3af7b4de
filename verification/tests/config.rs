use std::path::PathBuf;

use aria_shell::config::{config_dirs, resolve_path, state_dir, xdg_data_dirs, Config, RawSection, Section};

#[test]
fn paths_in_values() {
    let dir = Some("/etc/aria");
    let home = Some("/home/me");
    let r = |v: &str| PathBuf::from(resolve_path(v, dir, home));
    assert_eq!(r("~"), PathBuf::from("/home/me"));
    assert_eq!(r("~/pics/a.png"), PathBuf::from("/home/me/pics/a.png"));
    assert_eq!(r("/abs/a.png"), PathBuf::from("/abs/a.png"));
    assert_eq!(r("walls/a.png"), PathBuf::from("/etc/aria/walls/a.png"));
    // `~user` isn't expanded.
    assert_eq!(r("~bob/a"), PathBuf::from("/etc/aria/~bob/a"));
    assert_eq!(PathBuf::from(resolve_path("a.png", None, None)), PathBuf::from("./a.png"));
}

struct Demo {
    name: String,
    items: Vec<String>,
    flag: bool,
}

impl Section for Demo {
    fn section_name() -> &'static str {
        "Demo"
    }

    fn from_raw(raw: &RawSection) -> Self {
        Self {
            name: raw.str_or("name", "default"),
            items: raw.list_or("items", &["a"]),
            flag: raw.bool_or("flag", true),
        }
    }
}

#[test]
fn defaults_for_missing_section_and_empty_values() {
    let cfg = Config::parse("[Demo]\nname =\nitems =\n");
    let d: Demo = cfg.section(None);
    assert_eq!(d.name, "default");
    assert_eq!(d.items, ["a"]);

    let d: Demo = cfg.section(Some("Nope"));
    assert_eq!(d.name, "default");
}

#[test]
fn typed_values() {
    let cfg = Config::parse("[Demo]\nname = hi\nitems = x  y\tz\n");
    let d: Demo = cfg.section(None);
    assert_eq!(d.name, "hi");
    assert_eq!(d.items, ["x", "y", "z"]);
}

#[test]
fn booleans() {
    let cfg = Config::parse("[Demo]\nflag = No\n");
    assert!(!cfg.section::<Demo>(None).flag);
    let cfg = Config::parse("[Demo]\nflag = 1\n");
    assert!(cfg.section::<Demo>(None).flag);
    let cfg = Config::parse("[Demo]\nflag = maybe\n");
    assert!(cfg.section::<Demo>(None).flag);
    let cfg = Config::parse("[Demo]\nflag =\n");
    assert!(cfg.section::<Demo>(None).flag);
}

#[test]
fn case_sensitive_and_instances() {
    let cfg = Config::parse("[Demo]\nname=a\n[Demo:2]\nname=b\n[demo]\nname=c\n[Demos]\n");
    assert_eq!(cfg.instances("Demo"), ["Demo", "Demo:2"]);
    let d: Demo = cfg.section(Some("Demo:2"));
    assert_eq!(d.name, "b");
    let d: Demo = cfg.section(Some("demo"));
    assert_eq!(d.name, "c");
}

#[test]
fn hash_inside_values_is_kept() {
    let cfg = Config::parse("# comment\n[Demo]\nname = #ff0000\n");
    let d: Demo = cfg.section(None);
    assert_eq!(d.name, "#ff0000");
}

#[test]
fn default_section_is_empty() {
    let raw = RawSection::default();
    assert_eq!(raw.get("anything"), None);
    assert_eq!(raw.u64_or("n", 7), 7);
    assert!(raw.iter().is_empty());
}

#[test]
fn where_the_configuration_is_looked_for() {
    assert_eq!(
        config_dirs(Some("/c"), Some("/h"), None),
        vec!["/c/aria-shell".to_string(), "/etc/xdg/aria-shell".to_string()]
    );
    assert_eq!(
        config_dirs(None, Some("/h"), Some("/a:/b")),
        vec!["/h/.config/aria-shell".to_string(), "/a/aria-shell".to_string(), "/b/aria-shell".to_string()]
    );
    assert_eq!(config_dirs(None, None, Some("/a")), vec!["/a/aria-shell".to_string()]);
    assert_eq!(
        xdg_data_dirs(None, Some("/h"), None),
        vec!["/h/.local/share".to_string(), "/usr/local/share".to_string(), "/usr/share".to_string()]
    );
}

#[test]
fn where_the_state_is_kept() {
    assert_eq!(state_dir(Some("/s"), Some("/h")).as_deref(), Some("/s/aria-shell"));
    assert_eq!(state_dir(None, Some("/h")).as_deref(), Some("/h/.local/state/aria-shell"));
    assert_eq!(state_dir(None, None), None);
}
