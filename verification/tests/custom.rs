use aria_shell::config::Config;
use aria_shell::custom::{Click, Custom, CustomConfig};
use aria_shell::scripts::{Output, ReturnType};

fn gadget(keys: &[(&str, &str)]) -> Custom {
    let mut text = String::from("[Custom]\n");
    for (k, v) in keys {
        text.push_str(&format!("{k} = {v}\n"));
    }
    let config: CustomConfig = Config::parse(&text).section(None);
    Custom::with_config(config)
}

#[test]
fn label_from_format() {
    let g = gadget(&[("label", "Aria")]);
    assert_eq!(g.text(None), "Aria", "no exec: {{}} is the label");
    let g = gadget(&[("label", "up"), ("exec", "true"), ("format", "{label}: {}")]);
    assert_eq!(g.text(None), "up: up", "before the first run, the label");
    let out = Output {
        text: "3".into(),
        ..Output::default()
    };
    assert_eq!(g.text(Some(&out)), "up: 3");
}

#[test]
fn clicks_run_commands_and_refresh_the_script() {
    let g = gadget(&[("exec", "true"), ("command", "")]);
    assert!(g.on_click(Click::Left).is_none(), "no command");
    let g = gadget(&[("exec", "true"), ("command", "true")]);
    let (line, spec) = g.on_click(Click::Left).unwrap();
    assert_eq!(line, "true");
    let spec = spec.unwrap();
    assert_eq!(spec.argv, ["true"]);
    assert!(g.on_click(Click::WheelUp).is_none(), "no command_wheel_up");
    let g = gadget(&[("command", "true")]);
    let (line, spec) = g.on_click(Click::Left).unwrap();
    assert_eq!(line, "true");
    assert!(spec.is_none(), "static: nothing to refresh");
}

#[test]
fn custom_config_keys() {
    let cfg: CustomConfig = Config::parse("").section(None);
    assert_eq!(cfg.format, "{}");
    assert_eq!(cfg.interval, 0);
    assert!(cfg.hide_empty);
    assert_eq!(cfg.return_type, ReturnType::Text);
    let cfg: CustomConfig = Config::parse(
        "[Custom]\nexec = date +%s\ninterval = 5\nreturn_type = json\nhide_empty = false\n\
         command_wheel_down = pamixer -d 5\nicon = clock\n",
    )
    .section(None);
    assert_eq!(cfg.exec_line, "date +%s");
    assert_eq!(cfg.interval, 5);
    assert_eq!(cfg.return_type, ReturnType::Json);
    assert!(!cfg.hide_empty);
    assert_eq!(cfg.command_wheel_down, "pamixer -d 5");
    let g = Custom::with_config(cfg);
    let spec = g.script().unwrap();
    assert_eq!(spec.argv, ["date", "+%s"]);
    assert_eq!(spec.interval, 5);
    assert_eq!(g.icon_names(), ["clock"]);
    let (line, _) = g.on_click(Click::WheelDown).unwrap();
    assert_eq!(line, "pamixer -d 5");
}

#[test]
fn hidden_while_empty() {
    let g = gadget(&[("exec", "true")]);
    assert!(!g.shown(None));
    let empty = Output::default();
    assert!(!g.shown(Some(&empty)));
    let out = Output {
        text: "x".into(),
        ..Output::default()
    };
    assert!(g.shown(Some(&out)));
    let g = gadget(&[("label", "static")]);
    assert!(g.shown(None), "no exec: always shown");
    assert!(g.icon_names().is_empty());
}
