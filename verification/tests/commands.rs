use aria_shell::commands::{parse, read_reply, reply, Command, LauncherCommand, Parsed};

#[test]
fn parses_launcher_commands() {
    let toggle = Parsed::Command(Command::Launcher(LauncherCommand::Toggle));
    assert_eq!(parse("launcher"), Ok(toggle));
    assert_eq!(
        parse("  aria launcher toggle \n"),
        Ok(Parsed::Command(Command::Launcher(LauncherCommand::Toggle)))
    );
    assert_eq!(parse("launcher show"), Ok(Parsed::Command(Command::Launcher(LauncherCommand::Show))));
    assert_eq!(parse("launcher hide"), Ok(Parsed::Command(Command::Launcher(LauncherCommand::Hide))));
    assert!(parse("launcher what").is_err());
}

#[test]
fn ping_and_errors() {
    assert_eq!(parse("ping"), Ok(Parsed::Reply("pong".into())));
    assert_eq!(parse("ping a b"), Ok(Parsed::Reply("pong a b".into())));
    assert!(parse("").is_err());
    assert!(parse("nope").is_err());
}

#[test]
fn replies_both_ways() {
    assert_eq!(reply(&parse("launcher")), "OK");
    assert_eq!(reply(&parse("ping x")), "OK pong x");
    assert_eq!(reply(&parse("nope")), "ERR unknown command <nope>");
    assert_eq!(reply(&parse("launcher a b")), "ERR invalid arguments for <launcher>: a b");
    assert_eq!(read_reply("OK pong x\n"), Ok("pong x".into()));
    assert_eq!(read_reply("OK"), Ok(String::new()));
    assert_eq!(read_reply("ERR empty command"), Err("empty command".into()));
    assert_eq!(read_reply("huh \"x\""), Err("bad reply \"huh \\\"x\\\"\"".into()));
}
