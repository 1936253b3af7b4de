//! The command socket's protocol: how a keybind or a terminal talks to
//! the running shell (`aria-shell launcher toggle`). One command per
//! line, one reply line per command starting with `OK` or `ERR`. The
//! socket itself is the caller's.
use vstd::prelude::*;

use crate::text::{
    chars_of, eq_str, has_prefix, join_with, joined, push_chars, push_str, split_once_char, split_ws,
    starts_with, string_of, trim, trim_chars, views, words,
};

verus! {

#[derive(Debug, Clone, PartialEq, Eq, Structural)]
pub enum Command {
    Launcher(LauncherCommand),
}

#[derive(Debug, Clone, Copy, PartialEq, Eq, Structural)]
pub enum LauncherCommand {
    Toggle,
    Show,
    Hide,
}

/// What a received line turns into.
#[derive(Debug, PartialEq, Eq)]
pub enum Parsed {
    /// Deliver to the daemon (and reply `OK`).
    Command(Command),
    /// Answered by the listener itself.
    Reply(String),
}

pub enum ParsedView {
    Command(Command),
    Reply(Seq<char>),
}

impl View for Parsed {
    type V = ParsedView;

    open spec fn view(&self) -> ParsedView {
        match self {
            Parsed::Command(c) => ParsedView::Command(*c),
            Parsed::Reply(t) => ParsedView::Reply(t@),
        }
    }
}

/// The line without the `aria ` prefix the old configs wrote.
pub open spec fn command_text(line: Seq<char>) -> Seq<char> {
    let t = trim(line);
    if starts_with(t, "aria "@) {
        t.skip(5)
    } else {
        t
    }
}

/// What a line asks for: `ping [args]` is answered `pong [args]`,
/// `launcher [toggle|show|hide]` is delivered, anything else is an
/// error with its message.
pub open spec fn parsed_line(line: Seq<char>) -> Result<ParsedView, Seq<char>> {
    let ws = words(command_text(line));
    if ws.len() == 0 {
        Err("empty command"@)
    } else {
        let name = ws[0];
        let args = ws.skip(1);
        if name == "ping"@ {
            Ok(ParsedView::Reply(trim("pong "@ + joined(args, seq![' ']))))
        } else if name == "launcher"@ {
            if args.len() == 0 || args == seq!["toggle"@] {
                Ok(ParsedView::Command(Command::Launcher(LauncherCommand::Toggle)))
            } else if args == seq!["show"@] {
                Ok(ParsedView::Command(Command::Launcher(LauncherCommand::Show)))
            } else if args == seq!["hide"@] {
                Ok(ParsedView::Command(Command::Launcher(LauncherCommand::Hide)))
            } else {
                Err("invalid arguments for <launcher>: "@ + joined(args, seq![' ']))
            }
        } else {
            Err("unknown command <"@ + name + ">"@)
        }
    }
}

fn one_word(args: &Vec<Vec<char>>, from: usize, w: &str) -> (r: bool)
    requires
        from <= args.len(),
    ensures
        r == (views(args@).skip(from as int) == seq![w@]),
{
    if args.len() - from != 1 {
        assert(views(args@).skip(from as int).len() != 1);
        return false;
    }
    let r = eq_str(args[from].as_slice(), w);
    assert(views(args@).skip(from as int)[0] == args@[from as int]@);
    assert(r ==> views(args@).skip(from as int) =~= seq![w@]);
    assert(views(args@).skip(from as int) == seq![w@] ==> views(args@).skip(from as int)[0] == w@);
    r
}

/// `aria <cmd> [args]` is accepted too, it's how the old configs spelled
/// commands.
pub fn parse(line: &str) -> (r: Result<Parsed, String>)
    ensures
        match r {
            Ok(p) => parsed_line(line@) == Ok::<ParsedView, Seq<char>>(p@),
            Err(e) => parsed_line(line@) == Err::<ParsedView, Seq<char>>(e@),
        },
{
    let l = chars_of(line);
    let t = trim_chars(l.as_slice());
    let text = if has_prefix(t.as_slice(), "aria ") {
        proof {
            reveal_strlit("aria ");
        }
        let s = crate::text::slice_vec(t.as_slice(), 5, t.len());
        assert(s@ =~= t@.skip(5));
        s
    } else {
        t
    };
    let ws = split_ws(text.as_slice());
    if ws.len() == 0 {
        return Err(crate::text::owned("empty command"));
    }
    let mut args: Vec<Vec<char>> = Vec::new();
    let mut i: usize = 1;
    assert(views(ws@).skip(1).take(0) =~= Seq::<Seq<char>>::empty());
    while i < ws.len()
        invariant
            1 <= i <= ws.len(),
            views(args@) == views(ws@).skip(1).take(i - 1),
        decreases ws.len() - i,
    {
        let ghost a0 = views(args@);
        args.push(ws[i].clone());
        assert(views(args@) =~= a0.push(ws@[i as int]@));
        assert(views(ws@).skip(1).take(i as int) =~= views(ws@).skip(1).take(i - 1).push(ws@[i as int]@));
        i = i + 1;
    }
    assert(views(ws@).skip(1).take(ws.len() - 1) =~= views(ws@).skip(1));
    assert(views(ws@)[0] == ws@[0]@);
    assert(views(args@).skip(0) =~= views(args@));
    let name = &ws[0];
    if eq_str(name.as_slice(), "ping") {
        let mut out: Vec<char> = Vec::new();
        push_str(&mut out, "pong ");
        let j = join_with(&args, " ");
        push_chars(&mut out, j.as_slice());
        let o = trim_chars(out.as_slice());
        proof {
            reveal_strlit(" ");
        }
        assert(seq![' '] =~= " "@);
        return Ok(Parsed::Reply(string_of(o.as_slice())));
    }
    if eq_str(name.as_slice(), "launcher") {
        if args.len() == 0 || one_word(&args, 0, "toggle") {
            return Ok(Parsed::Command(Command::Launcher(LauncherCommand::Toggle)));
        }
        if one_word(&args, 0, "show") {
            return Ok(Parsed::Command(Command::Launcher(LauncherCommand::Show)));
        }
        if one_word(&args, 0, "hide") {
            return Ok(Parsed::Command(Command::Launcher(LauncherCommand::Hide)));
        }
        let mut out: Vec<char> = Vec::new();
        push_str(&mut out, "invalid arguments for <launcher>: ");
        let j = join_with(&args, " ");
        push_chars(&mut out, j.as_slice());
        proof {
            reveal_strlit(" ");
        }
        assert(seq![' '] =~= " "@);
        return Err(string_of(out.as_slice()));
    }
    let mut out: Vec<char> = Vec::new();
    push_str(&mut out, "unknown command <");
    push_chars(&mut out, name.as_slice());
    push_str(&mut out, ">");
    Err(string_of(out.as_slice()))
}

/// The reply line for a received line (without its newline): `OK` for
/// a command delivered, `OK <text>` for an answer, `ERR <message>`.
pub open spec fn reply_text(p: Result<ParsedView, Seq<char>>) -> Seq<char> {
    match p {
        Ok(ParsedView::Command(_)) => "OK"@,
        Ok(ParsedView::Reply(t)) => "OK "@ + t,
        Err(e) => "ERR "@ + e,
    }
}

pub fn reply(parsed: &Result<Parsed, String>) -> (r: String)
    ensures
        r@ == reply_text(match parsed {
            Ok(p) => Ok::<ParsedView, Seq<char>>(p@),
            Err(e) => Err::<ParsedView, Seq<char>>(e@),
        }),
{
    let mut out: Vec<char> = Vec::new();
    match parsed {
        Ok(Parsed::Command(_)) => push_str(&mut out, "OK"),
        Ok(Parsed::Reply(t)) => {
            push_str(&mut out, "OK ");
            push_str(&mut out, t.as_str());
        },
        Err(e) => {
            push_str(&mut out, "ERR ");
            push_str(&mut out, e.as_str());
        },
    }
    string_of(out.as_slice())
}

/// What the client makes of the shell's reply: `Ok` with the rest of an
/// `OK ...` line, `Err` with the rest of an `ERR ...` line, else an
/// error quoting it.
pub open spec fn reply_result(line: Seq<char>) -> Result<Seq<char>, Seq<char>> {
    let r = trim(line);
    let (head, rest) = match crate::text::split_once(r, ' ') {
        Some((h, t)) => (h, t),
        None => (r, seq![]),
    };
    if head == "OK"@ {
        Ok(rest)
    } else if head == "ERR"@ {
        Err(rest)
    } else {
        Err("bad reply "@ + debug_text(r))
    }
}

/// What `{:?}` writes for a text: quoted, with its escapes.
pub uninterp spec fn debug_text(s: Seq<char>) -> Seq<char>;

/// `format!("{:?}", s)` for a `str`: the text quoted and escaped as
/// Rust source would write it. Stated here: the result is a function
/// of the text.
#[verifier::external_body]
fn debug_quoted(s: &str) -> (r: String)
    ensures
        r@ == debug_text(s@),
{
    format!("{s:?}")
}

/// The reply read by the client.
pub fn read_reply(line: &str) -> (r: Result<String, String>)
    ensures
        match r {
            Ok(t) => reply_result(line@) == Ok::<Seq<char>, Seq<char>>(t@),
            Err(e) => reply_result(line@) == Err::<Seq<char>, Seq<char>>(e@),
        },
{
    let l = chars_of(line);
    let r = trim_chars(l.as_slice());
    let (head, rest) = match split_once_char(r.as_slice(), ' ') {
        Some((h, t)) => (h, t),
        None => (r.clone(), Vec::new()),
    };
    if eq_str(head.as_slice(), "OK") {
        return Ok(string_of(rest.as_slice()));
    }
    if eq_str(head.as_slice(), "ERR") {
        return Err(string_of(rest.as_slice()));
    }
    let mut out: Vec<char> = Vec::new();
    push_str(&mut out, "bad reply ");
    let rs = string_of(r.as_slice());
    let q = debug_quoted(rs.as_str());
    push_str(&mut out, q.as_str());
    Err(string_of(out.as_slice()))
}

} // verus!
