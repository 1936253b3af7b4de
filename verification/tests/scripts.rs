use aria_shell::scripts::{parse, parse_json, Command, Event, Output, ReturnType, Scripts, Spec};

fn spec(return_type: ReturnType) -> Spec {
    Spec {
        argv: vec!["x".into()],
        interval: 0,
        return_type,
    }
}

#[test]
fn json_output() {
    assert_eq!(
        parse_json(r#"{"text": "3", "class": "warning urgent", "icon": "x", "tooltip": "t"}"#).unwrap(),
        Output {
            text: "3".into(),
            icon: Some("x".into()),
            classes: vec!["warning".into(), "urgent".into()],
        }
    );
    assert_eq!(parse_json(r#"{"class": ["a", "b"]}"#).unwrap().classes, ["a", "b"]);
    assert_eq!(parse_json("").unwrap(), Output::default());
    assert!(parse_json("[1]").is_err());
    assert!(parse_json(r#"{"class": 3}"#).is_err());
}

#[test]
fn text_and_bad_json_are_trimmed_text() {
    assert_eq!(parse(&spec(ReturnType::Text), " 3 \n").text, "3");
    assert_eq!(parse(&spec(ReturnType::Json), "nope\n").text, "nope");
}

#[test]
fn refresh_bumps_the_generation() {
    let mut s = Scripts::default();
    s.run(Command::Refresh(spec(ReturnType::Text)));
    s.run(Command::Refresh(spec(ReturnType::Text)));
    assert_eq!(s.generation(&spec(ReturnType::Text)), 2);
    assert!(s.output(&spec(ReturnType::Text)).is_none());
    s.apply(Event::Ran(spec(ReturnType::Text), Output::default()));
    assert_eq!(s.output(&spec(ReturnType::Text)), Some(&Output::default()));
}

#[test]
fn json_details() {
    assert_eq!(parse_json(r#"{"class": 3}"#).unwrap_err(), "class is 3, not a string or an array");
    assert_eq!(parse_json(r#"{"icon": "", "class": null}"#).unwrap(), Output::default());
    assert_eq!(parse_json(r#"{"class": ["a", 1, "b"]}"#).unwrap().classes, ["a", "b"]);
    let o = parse(&spec(ReturnType::Json), "  {\"text\": \"up\"}  ");
    assert_eq!(o.text, "up");
}

#[test]
fn one_runner_per_distinct_spec() {
    let mut s = Scripts::default();
    s.run(Command::Refresh(spec(ReturnType::Json)));
    let runners = s.runners(&vec![spec(ReturnType::Text), spec(ReturnType::Json), spec(ReturnType::Text)]);
    assert_eq!(runners.len(), 2);
    assert_eq!(runners[0], (spec(ReturnType::Text), 0));
    assert_eq!(runners[1], (spec(ReturnType::Json), 1));
    s.apply(Event::Ran(spec(ReturnType::Text), Output { text: "a".into(), icon: Some("i".into()), classes: Vec::new() }));
    assert_eq!(s.icon_names(), ["i"]);
}
