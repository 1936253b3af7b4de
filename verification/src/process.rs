//! Command lines: a program and its arguments, split with shell-like
//! quoting (see [`split_words`]) and run directly, with no shell in
//! between. Spawning is the caller's; this module decides the argument
//! vectors.
use vstd::prelude::*;

use crate::config::{strings_of, strings_view};
use crate::text::{chars_of, is_whitespace, is_ws, string_of, views, words, split_ws};

verus! {

/// Where the splitter stands: outside quotes, inside single or double
/// quotes, right after a backslash inside double quotes, or right after
/// a backslash outside quotes.
#[derive(Clone, Copy, PartialEq, Eq, Structural, Debug)]
pub enum Quote {
    Plain,
    Single,
    Double,
    DoubleEscape,
    Escape,
}

/// The splitter's state after a prefix of the line.
pub struct WordsState {
    pub words: Seq<Seq<char>>,
    pub word: Seq<char>,
    pub in_word: bool,
    pub mode: Quote,
}

pub open spec fn words_start() -> WordsState {
    WordsState { words: seq![], word: seq![], in_word: false, mode: Quote::Plain }
}

/// One character through the splitter.
pub open spec fn words_step(st: WordsState, c: char) -> WordsState {
    match st.mode {
        Quote::Plain => if c == '\'' {
            WordsState { in_word: true, mode: Quote::Single, ..st }
        } else if c == '"' {
            WordsState { in_word: true, mode: Quote::Double, ..st }
        } else if c == '\\' {
            WordsState { in_word: true, mode: Quote::Escape, ..st }
        } else if is_ws(c) {
            if st.in_word {
                WordsState { words: st.words.push(st.word), word: seq![], in_word: false, ..st }
            } else {
                st
            }
        } else {
            WordsState { word: st.word.push(c), in_word: true, ..st }
        },
        Quote::Single => if c == '\'' {
            WordsState { mode: Quote::Plain, ..st }
        } else {
            WordsState { word: st.word.push(c), ..st }
        },
        Quote::Double => if c == '"' {
            WordsState { mode: Quote::Plain, ..st }
        } else if c == '\\' {
            WordsState { mode: Quote::DoubleEscape, ..st }
        } else {
            WordsState { word: st.word.push(c), ..st }
        },
        Quote::DoubleEscape => if c == '"' || c == '\\' {
            WordsState { word: st.word.push(c), mode: Quote::Double, ..st }
        } else {
            WordsState { word: st.word.push('\\').push(c), mode: Quote::Double, ..st }
        },
        Quote::Escape => WordsState { word: st.word.push(c), mode: Quote::Plain, ..st },
    }
}

/// The splitter's state after all of `s`.
pub open spec fn words_state(s: Seq<char>) -> WordsState
    decreases s.len(),
{
    if s.len() == 0 {
        words_start()
    } else {
        words_step(words_state(s.drop_last()), s.last())
    }
}

/// The words of a command line: a backslash left open inside double
/// quotes stays, and the last word ends with the line.
pub open spec fn shell_words(s: Seq<char>) -> Seq<Seq<char>> {
    let st = words_state(s);
    let word = if st.mode == Quote::DoubleEscape {
        st.word.push('\\')
    } else {
        st.word
    };
    if st.in_word {
        st.words.push(word)
    } else {
        st.words
    }
}

/// Split a command line into words: on unquoted whitespace, with
/// single quotes taken literally, double quotes honouring `\"` and
/// `\\`, and a backslash outside quotes escaping the next character.
/// An unclosed quote runs to the end of the line.
pub fn split_words(line: &str) -> (r: Vec<String>)
    ensures
        strings_view(r@) == shell_words(line@),
{
    let s = chars_of(line);
    let mut words: Vec<Vec<char>> = Vec::new();
    let mut word: Vec<char> = Vec::new();
    let mut in_word = false;
    let mut mode = Quote::Plain;
    let mut i: usize = 0;
    assert(views(words@) =~= Seq::<Seq<char>>::empty());
    assert(s@.take(0) =~= Seq::<char>::empty());
    while i < s.len()
        invariant
            i <= s.len(),
            (WordsState { words: views(words@), word: word@, in_word, mode }) == words_state(s@.take(i as int)),
        decreases s.len() - i,
    {
        let c = s[i];
        let ghost before = WordsState { words: views(words@), word: word@, in_word, mode };
        assert(s@.take(i + 1).drop_last() =~= s@.take(i as int));
        assert(s@.take(i + 1).last() == c);
        match mode {
            Quote::Plain => {
                if c == '\'' {
                    in_word = true;
                    mode = Quote::Single;
                } else if c == '"' {
                    in_word = true;
                    mode = Quote::Double;
                } else if c == '\\' {
                    in_word = true;
                    mode = Quote::Escape;
                } else if is_whitespace(c) {
                    if in_word {
                        let w = word;
                        words.push(w);
                        word = Vec::new();
                        in_word = false;
                        assert(views(words@) =~= before.words.push(before.word));
                    }
                } else {
                    word.push(c);
                    in_word = true;
                }
            },
            Quote::Single => {
                if c == '\'' {
                    mode = Quote::Plain;
                } else {
                    word.push(c);
                }
            },
            Quote::Double => {
                if c == '"' {
                    mode = Quote::Plain;
                } else if c == '\\' {
                    mode = Quote::DoubleEscape;
                } else {
                    word.push(c);
                }
            },
            Quote::DoubleEscape => {
                if c == '"' || c == '\\' {
                    word.push(c);
                } else {
                    word.push('\\');
                    word.push(c);
                }
                mode = Quote::Double;
            },
            Quote::Escape => {
                word.push(c);
                mode = Quote::Plain;
            },
        }
        assert((WordsState { words: views(words@), word: word@, in_word, mode }) == words_step(before, c));
        i = i + 1;
    }
    assert(s@.take(s.len() as int) =~= s@);
    if mode == Quote::DoubleEscape {
        word.push('\\');
    }
    if in_word {
        let ghost old_words = views(words@);
        words.push(word);
        assert(views(words@) =~= old_words.push(views(words@).last()));
    }
    strings_of(&words)
}

/// `argv` run inside a terminal emulator: `terminal` is a command line,
/// split on whitespace, given `-e` and the program, as the desktop entry
/// spec has terminals take.
pub fn in_terminal(terminal: &str, argv: Vec<String>) -> (r: Vec<String>)
    ensures
        strings_view(r@) == words(terminal@) + seq![seq!['-', 'e']] + strings_view(argv@),
{
    let t = chars_of(terminal);
    let parts = split_ws(t.as_slice());
    let mut r = strings_of(&parts);
    let ghost head = strings_view(r@);
    let e = string_of(&['-', 'e']);
    r.push(e);
    assert(strings_view(r@) =~= head + seq![seq!['-', 'e']]);
    let mut i: usize = 0;
    while i < argv.len()
        invariant
            i <= argv.len(),
            strings_view(r@) == head + seq![seq!['-', 'e']] + strings_view(argv@).take(i as int),
        decreases argv.len() - i,
    {
        let ghost prev = strings_view(r@);
        r.push(argv[i].clone());
        assert(strings_view(argv@).take(i + 1) =~= strings_view(argv@).take(i as int).push(argv@[i as int]@));
        assert(strings_view(r@) =~= prev.push(argv@[i as int]@));
        i = i + 1;
    }
    assert(strings_view(argv@).take(argv.len() as int) =~= strings_view(argv@));
    r
}

/// The argument vector for a config command line, or `None` when it
/// has no words. A program named `aria-shell` is this very binary: it
/// becomes `current_exe` when the caller knows where that is.
pub fn command(line: &str, current_exe: Option<String>) -> (r: Option<Vec<String>>)
    ensures
        shell_words(line@).len() == 0 <==> r is None,
        r matches Some(argv) ==> {
            let w = shell_words(line@);
            &&& argv@.len() == w.len()
            &&& strings_view(argv@).skip(1) == w.skip(1)
            &&& argv@[0]@ == (if w[0] == "aria-shell"@ && current_exe is Some {
                current_exe->0@
            } else {
                w[0]
            })
        },
{
    let mut words = split_words(line);
    if words.len() == 0 {
        return None;
    }
    let ghost w = strings_view(words@);
    assert(words@[0]@ == w[0]);
    let is_self = crate::config::str_eq(words[0].as_str(), "aria-shell");
    match current_exe {
        Some(me) => {
            if is_self {
                words.set(0, me);
                assert(strings_view(words@).skip(1) =~= w.skip(1));
            }
        },
        None => {},
    }
    Some(words)
}

} // verus!
