//! The `.desktop` entries installed on the system, indexed for the
//! lookups the shell does: by id, by `StartupWMClass`, by executable.
//! Only the keys we use are parsed. Reading the directories and
//! spawning the program are the caller's.
use vstd::prelude::*;

use crate::config::{opt_view, strings_of, strings_view};
use crate::process::in_terminal;
use crate::text::{
    ascii_lowercase, chars_of, contains_char, eq_chars, eq_str, is_whitespace, is_ws, lower,
    split_char, split_lines, split_on, split_once, split_once_char, split_ws, string_of, trim,
    trim_chars, views, words, lines,
};

verus! {

// ---------------------------------------------------------------------
// Exec lines
// ---------------------------------------------------------------------

/// The last component of a `/`-separated path that names something:
/// empty and `.` components are skipped.
pub open spec fn last_component(parts: Seq<Seq<char>>) -> Option<Seq<char>>
    decreases parts.len(),
{
    if parts.len() == 0 {
        None
    } else if parts.last().len() == 0 || parts.last() == seq!['.'] {
        last_component(parts.drop_last())
    } else {
        Some(parts.last())
    }
}

/// The final component of a path, as `Path::file_name`: `None` for a
/// path that ends in `..`, or is only `/` and `.`s.
pub open spec fn file_name(p: Seq<char>) -> Option<Seq<char>> {
    match last_component(split_on(p, '/')) {
        Some(c) => if c == seq!['.', '.'] {
            None
        } else {
            Some(c)
        },
        None => None,
    }
}

/// The first word without a `=`.
pub open spec fn first_without_eq(ws: Seq<Seq<char>>) -> Option<Seq<char>>
    decreases ws.len(),
{
    if ws.len() == 0 {
        None
    } else if !ws[0].contains('=') {
        Some(ws[0])
    } else {
        first_without_eq(ws.drop_first())
    }
}

/// The word of an `Exec` value that names the program: the first, or
/// after `env`, the first that is no `VAR=x` assignment.
pub open spec fn exec_program(ws: Seq<Seq<char>>) -> Option<Seq<char>> {
    if ws.len() == 0 {
        None
    } else if ws[0] == "env"@ {
        first_without_eq(ws.drop_first())
    } else {
        Some(ws[0])
    }
}

/// The lowercased basename of the program an `Exec` value runs.
pub open spec fn exec_basename_of(exec: Seq<char>) -> Option<Seq<char>> {
    match exec_program(words(exec)) {
        Some(w) => match file_name(w) {
            Some(b) => Some(lower(b)),
            None => None,
        },
        None => None,
    }
}

pub fn path_file_name(p: &[char]) -> (r: Option<Vec<char>>)
    ensures
        match r {
            Some(v) => file_name(p@) == Some(v@),
            None => file_name(p@) is None,
        },
{
    let parts = split_char(p, '/');
    let mut n = parts.len();
    assert(views(parts@).take(n as int) =~= views(parts@));
    while n > 0 && (parts[n - 1].len() == 0 || (parts[n - 1].len() == 1 && parts[n - 1][0] == '.'))
        invariant
            n <= parts.len(),
            last_component(views(parts@)) == last_component(views(parts@).take(n as int)),
        decreases n,
    {
        proof {
            let t = views(parts@).take(n as int);
            assert(t.last() == parts@[n - 1]@);
            if parts@[n - 1]@.len() == 1 {
                assert(parts@[n - 1]@ =~= seq!['.']);
            }
            assert(t.drop_last() =~= views(parts@).take(n - 1));
        }
        n = n - 1;
    }
    proof {
        let t = views(parts@).take(n as int);
        if n > 0 {
            assert(t.last() == parts@[n - 1]@);
            if parts@[n - 1]@.len() == 1 {
                assert(parts@[n - 1]@ != seq!['.']);
            }
        } else {
            assert(t.len() == 0);
        }
    }
    if n == 0 {
        return None;
    }
    let last = &parts[n - 1];
    if last.len() == 2 && last[0] == '.' && last[1] == '.' {
        assert(last@ =~= seq!['.', '.']);
        return None;
    }
    assert(last@ != seq!['.', '.']);
    Some(last.clone())
}

/// The program `Exec` runs, skipping `env VAR=x` prefixes: `firefox`
/// for `/usr/lib/firefox/firefox %u`, `code` for `env FOO=1 code`.
pub fn exec_basename(exec: &str) -> (r: Option<String>)
    ensures
        opt_view(r) == exec_basename_of(exec@),
{
    let e = chars_of(exec);
    let ws = split_ws(e.as_slice());
    if ws.len() == 0 {
        return None;
    }
    let ghost wv = views(ws@);
    assert(wv[0] == ws@[0]@);
    let mut k: usize = 0;
    if eq_str(ws[0].as_slice(), "env") {
        k = 1;
        assert(wv.drop_first().skip(0) =~= wv.drop_first());
        while k < ws.len() && contains_char(ws[k].as_slice(), '=')
            invariant
                1 <= k <= ws.len(),
                wv == views(ws@),
                first_without_eq(wv.drop_first()) == first_without_eq(wv.skip(k as int)),
            decreases ws.len() - k,
        {
            assert(wv.skip(k as int)[0] == ws@[k as int]@);
            assert(wv.skip(k as int).drop_first() =~= wv.skip(k + 1));
            k = k + 1;
        }
        if k >= ws.len() {
            assert(wv.skip(k as int).len() == 0);
            return None;
        }
        assert(wv.skip(k as int)[0] == ws@[k as int]@);
    }
    assert(exec_program(wv) == Some(ws@[k as int]@));
    match path_file_name(ws[k].as_slice()) {
        Some(b) => {
            let l = ascii_lowercase(b.as_slice());
            Some(string_of(l.as_slice()))
        },
        None => None,
    }
}

/// The splitter's state for an `Exec` line: words so far, the word
/// being read, whether one is open, whether inside double quotes, and
/// whether a backslash inside quotes waits for its character.
pub struct ExecSplit {
    pub words: Seq<Seq<char>>,
    pub word: Seq<char>,
    pub in_word: bool,
    pub quoted: bool,
    pub escaped: bool,
}

pub open spec fn exec_split_step(st: ExecSplit, c: char) -> ExecSplit {
    if st.escaped {
        ExecSplit { word: st.word.push(c), escaped: false, ..st }
    } else if c == '"' {
        ExecSplit { quoted: !st.quoted, in_word: true, ..st }
    } else if c == '\\' && st.quoted {
        ExecSplit { escaped: true, ..st }
    } else if is_ws(c) && !st.quoted {
        if st.in_word {
            ExecSplit { words: st.words.push(st.word), word: seq![], in_word: false, ..st }
        } else {
            st
        }
    } else {
        ExecSplit { word: st.word.push(c), in_word: true, ..st }
    }
}

pub open spec fn exec_split_state(s: Seq<char>) -> ExecSplit
    decreases s.len(),
{
    if s.len() == 0 {
        ExecSplit { words: seq![], word: seq![], in_word: false, quoted: false, escaped: false }
    } else {
        exec_split_step(exec_split_state(s.drop_last()), s.last())
    }
}

/// The words of an `Exec` line: split on unquoted whitespace, double
/// quotes grouping and, inside them, a backslash taking the next
/// character as it is.
pub open spec fn exec_words(s: Seq<char>) -> Seq<Seq<char>> {
    let st = exec_split_state(s);
    if st.in_word {
        st.words.push(st.word)
    } else {
        st.words
    }
}

fn split_exec_chars(s: &[char]) -> (r: Vec<Vec<char>>)
    ensures
        views(r@) == exec_words(s@),
{
    let mut words: Vec<Vec<char>> = Vec::new();
    let mut word: Vec<char> = Vec::new();
    let mut in_word = false;
    let mut quoted = false;
    let mut escaped = false;
    let mut i: usize = 0;
    assert(views(words@) =~= Seq::<Seq<char>>::empty());
    assert(s@.take(0) =~= Seq::<char>::empty());
    while i < s.len()
        invariant
            i <= s.len(),
            (ExecSplit { words: views(words@), word: word@, in_word, quoted, escaped })
                == exec_split_state(s@.take(i as int)),
        decreases s.len() - i,
    {
        let c = s[i];
        let ghost before = ExecSplit { words: views(words@), word: word@, in_word, quoted, escaped };
        assert(s@.take(i + 1).drop_last() =~= s@.take(i as int));
        assert(s@.take(i + 1).last() == c);
        if escaped {
            word.push(c);
            escaped = false;
        } else if c == '"' {
            quoted = !quoted;
            in_word = true;
        } else if c == '\\' && quoted {
            escaped = true;
        } else if is_whitespace(c) && !quoted {
            if in_word {
                let w = word;
                words.push(w);
                word = Vec::new();
                in_word = false;
                assert(views(words@) =~= before.words.push(before.word));
            }
        } else {
            word.push(c);
            in_word = true;
        }
        assert((ExecSplit { words: views(words@), word: word@, in_word, quoted, escaped })
            == exec_split_step(before, c));
        i = i + 1;
    }
    assert(s@.take(s.len() as int) =~= s@);
    if in_word {
        let ghost old_words = views(words@);
        let ghost w = word@;
        words.push(word);
        assert(views(words@) =~= old_words.push(w));
    }
    words
}

/// Split an `Exec` line on unquoted whitespace, honouring double quotes
/// and the backslash escapes the spec allows inside them.
pub fn split_exec(line: &str) -> (r: Vec<String>)
    ensures
        strings_view(r@) == exec_words(line@),
{
    let s = chars_of(line);
    let w = split_exec_chars(s.as_slice());
    strings_of(&w)
}

// ---------------------------------------------------------------------
// Entries
// ---------------------------------------------------------------------

#[derive(Debug)]
pub struct DesktopEntry {
    /// File name without `.desktop`, lowercased: `firefox`,
    /// `org.kde.dolphin`.
    pub id: String,
    pub name: String,
    pub comment: Option<String>,
    /// An icon name, or an absolute path.
    pub icon: Option<String>,
    /// Basename of the program in `Exec`, lowercased.
    pub exec_name: Option<String>,
    /// The full `Exec` line, field codes included.
    pub exec_line: Option<String>,
    /// `Terminal=true`: run it inside a terminal emulator.
    pub terminal: bool,
    /// `Path=`: working directory to run it in.
    pub working_dir: Option<String>,
    /// `StartupWMClass`, lowercased.
    pub wm_class: Option<String>,
    pub no_display: bool,
    /// The file it was read from.
    pub path: String,
}

pub struct DesktopEntryView {
    pub id: Seq<char>,
    pub name: Seq<char>,
    pub comment: Option<Seq<char>>,
    pub icon: Option<Seq<char>>,
    pub exec_name: Option<Seq<char>>,
    pub exec_line: Option<Seq<char>>,
    pub terminal: bool,
    pub working_dir: Option<Seq<char>>,
    pub wm_class: Option<Seq<char>>,
    pub no_display: bool,
    pub path: Seq<char>,
}

impl View for DesktopEntry {
    type V = DesktopEntryView;

    open spec fn view(&self) -> DesktopEntryView {
        DesktopEntryView {
            id: self.id@,
            name: self.name@,
            comment: opt_view(self.comment),
            icon: opt_view(self.icon),
            exec_name: opt_view(self.exec_name),
            exec_line: opt_view(self.exec_line),
            terminal: self.terminal,
            working_dir: opt_view(self.working_dir),
            wm_class: opt_view(self.wm_class),
            no_display: self.no_display,
            path: self.path@,
        }
    }
}

/// What the `[Desktop Entry]` group said so far.
pub struct EntryFields {
    pub in_entry: bool,
    pub name: Option<Seq<char>>,
    pub comment: Option<Seq<char>>,
    pub icon: Option<Seq<char>>,
    pub exec_name: Option<Seq<char>>,
    pub exec_line: Option<Seq<char>>,
    pub terminal: bool,
    pub working_dir: Option<Seq<char>>,
    pub wm_class: Option<Seq<char>>,
    pub no_display: bool,
    pub is_app: bool,
    pub hidden: bool,
}

pub open spec fn fields_start() -> EntryFields {
    EntryFields {
        in_entry: false,
        name: None,
        comment: None,
        icon: None,
        exec_name: None,
        exec_line: None,
        terminal: false,
        working_dir: None,
        wm_class: None,
        no_display: false,
        is_app: false,
        hidden: false,
    }
}

/// One `key=value` line of the group.
pub open spec fn apply_key(st: EntryFields, key: Seq<char>, value: Seq<char>) -> EntryFields {
    if key == "Type"@ {
        EntryFields { is_app: value == "Application"@, ..st }
    } else if key == "Name"@ {
        EntryFields { name: Some(value), ..st }
    } else if key == "Comment"@ && value.len() > 0 {
        EntryFields { comment: Some(value), ..st }
    } else if key == "Icon"@ && value.len() > 0 {
        EntryFields { icon: Some(value), ..st }
    } else if key == "Exec"@ {
        EntryFields {
            exec_name: exec_basename_of(value),
            exec_line: if value.len() == 0 { None } else { Some(value) },
            ..st
        }
    } else if key == "Terminal"@ {
        EntryFields { terminal: value == "true"@, ..st }
    } else if key == "Path"@ && value.len() > 0 {
        EntryFields { working_dir: Some(value), ..st }
    } else if key == "StartupWMClass"@ && value.len() > 0 {
        EntryFields { wm_class: Some(lower(value)), ..st }
    } else if key == "NoDisplay"@ {
        EntryFields { no_display: value == "true"@, ..st }
    } else if key == "Hidden"@ && value == "true"@ {
        EntryFields { hidden: true, ..st }
    } else {
        st
    }
}

/// One line of the file: blank lines and comments skipped, a group
/// header opens or closes `[Desktop Entry]`, keys count only inside it.
pub open spec fn entry_step(st: EntryFields, raw: Seq<char>) -> EntryFields {
    let line = trim(raw);
    if line.len() == 0 || line[0] == '#' {
        st
    } else if line[0] == '[' {
        let group = line.drop_first();
        EntryFields {
            in_entry: group.len() > 0 && group.last() == ']' && group.drop_last() == "Desktop Entry"@,
            ..st
        }
    } else if !st.in_entry {
        st
    } else {
        match split_once(line, '=') {
            Some((k, v)) => apply_key(st, trim(k), trim(v)),
            None => st,
        }
    }
}

pub open spec fn entry_fields(ls: Seq<Seq<char>>) -> EntryFields
    decreases ls.len(),
{
    if ls.len() == 0 {
        fields_start()
    } else {
        entry_step(entry_fields(ls.drop_last()), ls.last())
    }
}

/// The entry a file describes: `None` unless it is an application, or
/// when it is hidden. The name falls back to the id.
pub open spec fn parsed_entry(text: Seq<char>, id: Seq<char>, path: Seq<char>) -> Option<DesktopEntryView> {
    let f = entry_fields(lines(text));
    if f.hidden || !f.is_app {
        None
    } else {
        Some(DesktopEntryView {
            id,
            name: match f.name {
                Some(n) => n,
                None => id,
            },
            comment: f.comment,
            icon: f.icon,
            exec_name: f.exec_name,
            exec_line: f.exec_line,
            terminal: f.terminal,
            working_dir: f.working_dir,
            wm_class: f.wm_class,
            no_display: f.no_display,
            path,
        })
    }
}

pub open spec fn opt_chars(o: Option<Vec<char>>) -> Option<Seq<char>> {
    match o {
        Some(v) => Some(v@),
        None => None,
    }
}

struct Fields {
    in_entry: bool,
    name: Option<Vec<char>>,
    comment: Option<Vec<char>>,
    icon: Option<Vec<char>>,
    exec_name: Option<String>,
    exec_line: Option<Vec<char>>,
    terminal: bool,
    working_dir: Option<Vec<char>>,
    wm_class: Option<Vec<char>>,
    no_display: bool,
    is_app: bool,
    hidden: bool,
}

impl Fields {
    spec fn view(&self) -> EntryFields {
        EntryFields {
            in_entry: self.in_entry,
            name: opt_chars(self.name),
            comment: opt_chars(self.comment),
            icon: opt_chars(self.icon),
            exec_name: opt_view(self.exec_name),
            exec_line: opt_chars(self.exec_line),
            terminal: self.terminal,
            working_dir: opt_chars(self.working_dir),
            wm_class: opt_chars(self.wm_class),
            no_display: self.no_display,
            is_app: self.is_app,
            hidden: self.hidden,
        }
    }

    fn apply_key(&mut self, key: &[char], value: Vec<char>)
        ensures
            final(self).view() == apply_key(old(self).view(), key@, value@),
    {
        let nonempty = value.len() > 0;
        if eq_str(key, "Type") {
            self.is_app = eq_str(value.as_slice(), "Application");
        } else if eq_str(key, "Name") {
            self.name = Some(value);
        } else if eq_str(key, "Comment") && nonempty {
            self.comment = Some(value);
        } else if eq_str(key, "Icon") && nonempty {
            self.icon = Some(value);
        } else if eq_str(key, "Exec") {
            let v = string_of(value.as_slice());
            self.exec_name = exec_basename(v.as_str());
            self.exec_line = if nonempty { Some(value) } else { None };
        } else if eq_str(key, "Terminal") {
            self.terminal = eq_str(value.as_slice(), "true");
        } else if eq_str(key, "Path") && nonempty {
            self.working_dir = Some(value);
        } else if eq_str(key, "StartupWMClass") && nonempty {
            self.wm_class = Some(ascii_lowercase(value.as_slice()));
        } else if eq_str(key, "NoDisplay") {
            self.no_display = eq_str(value.as_slice(), "true");
        } else if eq_str(key, "Hidden") && eq_str(value.as_slice(), "true") {
            self.hidden = true;
        }
    }

    fn step(&mut self, raw: &[char])
        ensures
            final(self).view() == entry_step(old(self).view(), raw@),
    {
        let line = trim_chars(raw);
        if line.len() == 0 || line[0] == '#' {
            return;
        }
        if line[0] == '[' {
            let n = line.len();
            let closed = n >= 2 && line[n - 1] == ']';
            let mut in_entry = false;
            if closed {
                let group = crate::text::slice_vec(line.as_slice(), 1, n - 1);
                assert(group@ =~= line@.drop_first().drop_last());
                in_entry = eq_str(group.as_slice(), "Desktop Entry");
            }
            assert(line@.drop_first().len() > 0 ==> line@.drop_first().last() == line@[n - 1]);
            self.in_entry = in_entry;
            return;
        }
        if !self.in_entry {
            return;
        }
        match split_once_char(line.as_slice(), '=') {
            Some((k, v)) => {
                let key = trim_chars(k.as_slice());
                let value = trim_chars(v.as_slice());
                self.apply_key(key.as_slice(), value);
            },
            None => {},
        }
    }
}

fn opt_string(o: Option<Vec<char>>) -> (r: Option<String>)
    ensures
        opt_view(r) == opt_chars(o),
{
    match o {
        Some(v) => Some(string_of(v.as_slice())),
        None => None,
    }
}

/// `[Desktop Entry]` group only; localized keys (`Name[it]`) are
/// ignored, we want the untranslated `Name`.
pub fn parse(text: &str, id: String, path: String) -> (r: Option<DesktopEntry>)
    ensures
        match r {
            Some(e) => parsed_entry(text@, id@, path@) == Some(e@),
            None => parsed_entry(text@, id@, path@) is None,
        },
{
    let t = chars_of(text);
    let ls = split_lines(t.as_slice());
    let mut f = Fields {
        in_entry: false,
        name: None,
        comment: None,
        icon: None,
        exec_name: None,
        exec_line: None,
        terminal: false,
        working_dir: None,
        wm_class: None,
        no_display: false,
        is_app: false,
        hidden: false,
    };
    let mut i: usize = 0;
    assert(views(ls@).take(0) =~= Seq::<Seq<char>>::empty());
    while i < ls.len()
        invariant
            i <= ls.len(),
            views(ls@) == lines(t@),
            f.view() == entry_fields(views(ls@).take(i as int)),
        decreases ls.len() - i,
    {
        assert(views(ls@).take(i + 1).drop_last() =~= views(ls@).take(i as int));
        assert(views(ls@).take(i + 1).last() == ls@[i as int]@);
        f.step(ls[i].as_slice());
        i = i + 1;
    }
    assert(views(ls@).take(ls.len() as int) =~= views(ls@));
    if f.hidden || !f.is_app {
        return None;
    }
    let name = match f.name {
        Some(n) => string_of(n.as_slice()),
        None => id.clone(),
    };
    Some(DesktopEntry {
        id,
        name,
        comment: opt_string(f.comment),
        icon: opt_string(f.icon),
        exec_name: f.exec_name,
        exec_line: opt_string(f.exec_line),
        terminal: f.terminal,
        working_dir: opt_string(f.working_dir),
        wm_class: opt_string(f.wm_class),
        no_display: f.no_display,
        path,
    })
}


// ---------------------------------------------------------------------
// Field codes
// ---------------------------------------------------------------------

/// Expanding the field codes of one word: the text so far, the last
/// file/URL/icon code met, and whether a `%` waits for its letter.
pub struct CodeState {
    pub out: Seq<char>,
    pub code: Option<char>,
    pub pct: bool,
}

pub open spec fn code_step(st: CodeState, c: char, e: DesktopEntryView) -> CodeState {
    if st.pct {
        let st = CodeState { pct: false, ..st };
        if c == '%' {
            CodeState { out: st.out.push('%'), ..st }
        } else if c == 'c' {
            CodeState { out: st.out + e.name, ..st }
        } else if c == 'k' {
            CodeState { out: st.out + e.path, ..st }
        } else if c == 'i' || c == 'f' || c == 'F' || c == 'u' || c == 'U' {
            CodeState { code: Some(c), ..st }
        } else {
            st
        }
    } else if c == '%' {
        CodeState { pct: true, ..st }
    } else {
        CodeState { out: st.out.push(c), ..st }
    }
}

pub open spec fn code_state(w: Seq<char>, e: DesktopEntryView) -> CodeState
    decreases w.len(),
{
    if w.len() == 0 {
        CodeState { out: seq![], code: None, pct: false }
    } else {
        code_step(code_state(w.drop_last(), e), w.last(), e)
    }
}

/// The arguments one word of `Exec` becomes: `%i` is `--icon` and the
/// icon (nothing without one), the file and URL codes vanish with their
/// word, and so does a word that held nothing but removed codes.
pub open spec fn word_args(w: Seq<char>, e: DesktopEntryView) -> Seq<Seq<char>> {
    let st = code_state(w, e);
    match st.code {
        Some(c) => if c == 'i' {
            match e.icon {
                Some(i) => seq!["--icon"@, i],
                None => seq![],
            }
        } else {
            seq![]
        },
        None => if st.out.len() == 0 && w.len() > 0 {
            seq![]
        } else {
            seq![st.out]
        },
    }
}

pub open spec fn argv_of(ws: Seq<Seq<char>>, e: DesktopEntryView) -> Seq<Seq<char>>
    decreases ws.len(),
{
    if ws.len() == 0 {
        seq![]
    } else {
        argv_of(ws.drop_last(), e) + word_args(ws.last(), e)
    }
}

fn append_str(out: &mut Vec<char>, s: &String)
    ensures
        final(out)@ == old(out)@ + s@,
{
    let v = chars_of(s.as_str());
    let mut i: usize = 0;
    while i < v.len()
        invariant
            i <= v.len(),
            v@ == s@,
            out@ == old(out)@ + v@.take(i as int),
        decreases v.len() - i,
    {
        out.push(v[i]);
        assert(v@.take(i + 1) =~= v@.take(i as int).push(v@[i as int]));
        i = i + 1;
    }
    assert(v@.take(v.len() as int) =~= v@);
}

fn expand_word(w: &String, entry: &DesktopEntry) -> (r: Vec<String>)
    ensures
        strings_view(r@) == word_args(w@, entry@),
{
    let cs = chars_of(w.as_str());
    let mut out: Vec<char> = Vec::new();
    let mut code: Option<char> = None;
    let mut pct = false;
    let mut i: usize = 0;
    assert(cs@.take(0) =~= Seq::<char>::empty());
    while i < cs.len()
        invariant
            i <= cs.len(),
            cs@ == w@,
            (CodeState { out: out@, code, pct }) == code_state(cs@.take(i as int), entry@),
        decreases cs.len() - i,
    {
        let c = cs[i];
        assert(cs@.take(i + 1).drop_last() =~= cs@.take(i as int));
        assert(cs@.take(i + 1).last() == c);
        if pct {
            pct = false;
            if c == '%' {
                out.push('%');
            } else if c == 'c' {
                append_str(&mut out, &entry.name);
            } else if c == 'k' {
                append_str(&mut out, &entry.path);
            } else if c == 'i' || c == 'f' || c == 'F' || c == 'u' || c == 'U' {
                code = Some(c);
            }
        } else if c == '%' {
            pct = true;
        } else {
            out.push(c);
        }
        i = i + 1;
    }
    assert(cs@.take(cs.len() as int) =~= cs@);
    let mut r: Vec<String> = Vec::new();
    match code {
        Some(c) => {
            if c == 'i' {
                match &entry.icon {
                    Some(icon) => {
                        r.push(crate::text::owned("--icon"));
                        r.push(icon.clone());
                        assert(strings_view(r@) =~= seq!["--icon"@, icon@]);
                    },
                    None => {
                        assert(strings_view(r@) =~= Seq::<Seq<char>>::empty());
                    },
                }
            } else {
                assert(strings_view(r@) =~= Seq::<Seq<char>>::empty());
            }
        },
        None => {
            if out.len() == 0 && cs.len() > 0 {
                assert(strings_view(r@) =~= Seq::<Seq<char>>::empty());
            } else {
                r.push(string_of(out.as_slice()));
                assert(strings_view(r@) =~= seq![out@]);
            }
        },
    }
    r
}

/// The argument vector for an `Exec` line: unquote and unescape as the
/// spec says, then expand or drop the field codes (`%c` the name, `%k`
/// the file, `%%` a percent sign; deprecated codes are removed).
pub fn exec_argv(line: &str, entry: &DesktopEntry) -> (r: Vec<String>)
    ensures
        strings_view(r@) == argv_of(exec_words(line@), entry@),
{
    let ws = split_exec(line);
    let mut argv: Vec<String> = Vec::new();
    let mut i: usize = 0;
    assert(strings_view(ws@).take(0) =~= Seq::<Seq<char>>::empty());
    assert(strings_view(argv@) =~= Seq::<Seq<char>>::empty());
    while i < ws.len()
        invariant
            i <= ws.len(),
            strings_view(ws@) == exec_words(line@),
            strings_view(argv@) == argv_of(strings_view(ws@).take(i as int), entry@),
        decreases ws.len() - i,
    {
        assert(strings_view(ws@).take(i + 1).drop_last() =~= strings_view(ws@).take(i as int));
        assert(strings_view(ws@).take(i + 1).last() == ws@[i as int]@);
        let more = expand_word(&ws[i], entry);
        let ghost before = strings_view(argv@);
        let mut j: usize = 0;
        while j < more.len()
            invariant
                j <= more.len(),
                strings_view(argv@) == before + strings_view(more@).take(j as int),
            decreases more.len() - j,
        {
            let ghost prev = strings_view(argv@);
            argv.push(more[j].clone());
            assert(strings_view(argv@) =~= prev.push(more@[j as int]@));
            assert(strings_view(more@).take(j + 1) =~= strings_view(more@).take(j as int).push(more@[j as int]@));
            assert(strings_view(argv@) =~= before + strings_view(more@).take(j + 1));
            j = j + 1;
        }
        assert(strings_view(more@).take(more.len() as int) =~= strings_view(more@));
        i = i + 1;
    }
    assert(strings_view(ws@).take(ws.len() as int) =~= strings_view(ws@));
    argv
}

/// Why an entry cannot be started.
#[derive(Debug, Clone, Copy, PartialEq, Eq, Structural)]
pub enum LaunchError {
    /// The entry has no `Exec` line.
    NoExec,
    /// The `Exec` line expands to nothing.
    EmptyExec,
}

/// The argument vector that runs `entry`: its `Exec` line expanded,
/// inside `terminal` (a command line, given `-e`) when `Terminal=true`.
/// The program is the first element; spawning it is the caller's.
pub fn launch_argv(entry: &DesktopEntry, terminal: &str) -> (r: Result<Vec<String>, LaunchError>)
    ensures
        match entry.exec_line {
            None => r == Err::<Vec<String>, LaunchError>(LaunchError::NoExec),
            Some(line) => {
                let argv = argv_of(exec_words(line@), entry@);
                let full = if entry.terminal {
                    words(terminal@) + seq![seq!['-', 'e']] + argv
                } else {
                    argv
                };
                &&& full.len() == 0 ==> r == Err::<Vec<String>, LaunchError>(LaunchError::EmptyExec)
                &&& full.len() > 0 ==> (r matches Ok(v) && strings_view(v@) == full)
            },
        },
{
    let line = match &entry.exec_line {
        Some(l) => l,
        None => return Err(LaunchError::NoExec),
    };
    let mut argv = exec_argv(line.as_str(), entry);
    if entry.terminal {
        argv = in_terminal(terminal, argv);
    }
    if argv.len() == 0 {
        return Err(LaunchError::EmptyExec);
    }
    Ok(argv)
}

// ---------------------------------------------------------------------
// The database
// ---------------------------------------------------------------------

pub open spec fn entries_view(es: Seq<DesktopEntry>) -> Seq<DesktopEntryView> {
    es.map_values(|e: DesktopEntry| e@)
}

/// The last dot-segment of a reverse-DNS id: `dolphin` for
/// `org.kde.dolphin`; none for an id without a dot.
pub open spec fn id_suffix(id: Seq<char>) -> Option<Seq<char>> {
    match crate::text::last_index(id, '.') {
        Some(p) => Some(id.skip(p + 1)),
        None => None,
    }
}

/// Index of the first entry that `p` accepts.
pub open spec fn first_where(es: Seq<DesktopEntryView>, p: spec_fn(DesktopEntryView) -> bool) -> Option<int>
    decreases es.len(),
{
    if es.len() == 0 {
        None
    } else if p(es[0]) {
        Some(0)
    } else {
        match first_where(es.drop_first(), p) {
            Some(i) => Some(i + 1),
            None => None,
        }
    }
}

proof fn lemma_first_where(es: Seq<DesktopEntryView>, p: spec_fn(DesktopEntryView) -> bool, i: int)
    requires
        0 <= i <= es.len(),
        i < es.len() ==> p(es[i]),
        forall|j: int| 0 <= j < i ==> !p(#[trigger] es[j]),
    ensures
        first_where(es, p) == (if i < es.len() { Some(i) } else { None::<int> }),
    decreases es.len(),
{
    if es.len() > 0 && i > 0 {
        assert(!p(es[0]));
        assert forall|j: int| 0 <= j < i - 1 implies !p(#[trigger] es.drop_first()[j]) by {
            assert(es.drop_first()[j] == es[j + 1]);
        }
        lemma_first_where(es.drop_first(), p, i - 1);
    }
}

/// Index of the last entry with id `key`: a later insert with the same
/// id takes the id over.
pub open spec fn last_with_id(es: Seq<DesktopEntryView>, key: Seq<char>) -> Option<int>
    decreases es.len(),
{
    if es.len() == 0 {
        None
    } else if es.last().id == key {
        Some(es.len() - 1)
    } else {
        last_with_id(es.drop_last(), key)
    }
}

/// Entries whose `StartupWMClass` is `key`.
pub open spec fn has_class(key: Seq<char>) -> spec_fn(DesktopEntryView) -> bool {
    |e: DesktopEntryView| e.wm_class == Some(key)
}

/// Entries whose program is `key`.
pub open spec fn has_program(key: Seq<char>) -> spec_fn(DesktopEntryView) -> bool {
    |e: DesktopEntryView| e.exec_name == Some(key)
}

/// Entries whose id ends in the dot-segment `key`.
pub open spec fn has_suffix(key: Seq<char>) -> spec_fn(DesktopEntryView) -> bool {
    |e: DesktopEntryView| id_suffix(e.id) == Some(key)
}

/// The entry a window class names, already lowercased: exact id, then
/// `StartupWMClass`, then the executable name, then the last segment of
/// a reverse-DNS id; the first entry wins each of the last three.
pub open spec fn class_index(es: Seq<DesktopEntryView>, key: Seq<char>) -> Option<int> {
    match last_with_id(es, key) {
        Some(i) => Some(i),
        None => match first_where(es, has_class(key)) {
            Some(i) => Some(i),
            None => match first_where(es, has_program(key)) {
                Some(i) => Some(i),
                None => first_where(es, has_suffix(key)),
            },
        },
    }
}

fn opt_eq(o: &Option<String>, key: &[char]) -> (r: bool)
    ensures
        r == (opt_view(*o) == Some(key@)),
{
    match o {
        Some(s) => {
            let v = chars_of(s.as_str());
            eq_chars(v.as_slice(), key)
        },
        None => false,
    }
}

fn suffix_is(id: &String, key: &[char]) -> (r: bool)
    ensures
        r == (id_suffix(id@) == Some(key@)),
{
    let v = chars_of(id.as_str());
    match crate::text::rfind(v.as_slice(), '.') {
        Some(p) => {
            proof { crate::text::lemma_last_index_bound(v@, '.'); }
            let tail = crate::text::slice_vec(v.as_slice(), p + 1, v.len());
            assert(tail@ =~= v@.skip(p + 1));
            eq_chars(tail.as_slice(), key)
        },
        None => false,
    }
}

#[derive(Debug)]
pub struct DesktopDb {
    entries: Vec<DesktopEntry>,
}

impl View for DesktopDb {
    type V = Seq<DesktopEntryView>;

    closed spec fn view(&self) -> Seq<DesktopEntryView> {
        entries_view(self.entries@)
    }
}

impl Default for DesktopDb {
    fn default() -> (r: DesktopDb)
        ensures
            r@ == Seq::<DesktopEntryView>::empty(),
    {
        DesktopDb::new()
    }
}

impl DesktopDb {
    pub fn new() -> (r: DesktopDb)
        ensures
            r@ == Seq::<DesktopEntryView>::empty(),
    {
        let r = DesktopDb { entries: Vec::new() };
        assert(entries_view(r.entries@) =~= Seq::<DesktopEntryView>::empty());
        r
    }

    /// Add an entry at the end of the scan order.
    pub fn insert(&mut self, entry: DesktopEntry)
        ensures
            final(self)@ == old(self)@.push(entry@),
    {
        let ghost e = entry@;
        self.entries.push(entry);
        assert(entries_view(self.entries@) =~= entries_view(old(self).entries@).push(e));
    }

    pub fn len(&self) -> (r: usize)
        ensures
            r == self@.len(),
    {
        self.entries.len()
    }

    /// Every entry, in scan order.
    pub fn entries(&self) -> (r: &[DesktopEntry])
        ensures
            entries_view(r@) == self@,
    {
        self.entries.as_slice()
    }

    /// Whether an entry with this id is known.
    pub fn has_id(&self, id: &str) -> (r: bool)
        ensures
            r == (exists|j: int| 0 <= j < self@.len() && #[trigger] self@[j].id == id@),
    {
        let key = chars_of(id);
        let mut i: usize = 0;
        while i < self.entries.len()
            invariant
                i <= self.entries.len(),
                key@ == id@,
                forall|j: int| 0 <= j < i ==> #[trigger] entries_view(self.entries@)[j].id != id@,
            decreases self.entries.len() - i,
        {
            assert(entries_view(self.entries@)[i as int] == self.entries@[i as int]@);
            let v = chars_of(self.entries[i].id.as_str());
            if eq_chars(v.as_slice(), key.as_slice()) {
                assert(self@[i as int].id == id@);
                return true;
            }
            i = i + 1;
        }
        false
    }

    /// One file of a directory scan: the first file with a given id
    /// wins, so a known id is skipped; entries that are no application,
    /// or hidden, are dropped. Whether the entry was added comes back.
    pub fn add_file(&mut self, id: String, text: &str, path: String) -> (r: bool)
        ensures
            (exists|j: int| 0 <= j < old(self)@.len() && #[trigger] old(self)@[j].id == id@) ==> !r && final(self)@ == old(self)@,
            !(exists|j: int| 0 <= j < old(self)@.len() && #[trigger] old(self)@[j].id == id@) ==> match parsed_entry(text@, id@, path@) {
                Some(e) => r && final(self)@ == old(self)@.push(e),
                None => !r && final(self)@ == old(self)@,
            },
    {
        if self.has_id(id.as_str()) {
            return false;
        }
        match parse(text, id, path) {
            Some(e) => {
                self.insert(e);
                true
            },
            None => false,
        }
    }

    /// The entry for a window class / app id, looked up lowercased:
    /// exact id, then `StartupWMClass`, then the executable name, then
    /// the last segment of a reverse-DNS id.
    pub fn for_class(&self, class: &str) -> (r: Option<&DesktopEntry>)
        ensures
            match class_index(self@, lower(class@)) {
                Some(i) => r matches Some(e) && 0 <= i < self@.len() && e@ == self@[i],
                None => r is None,
            },
    {
        let c = chars_of(class);
        let key = ascii_lowercase(c.as_slice());
        let ghost es = entries_view(self.entries@);
        let n = self.entries.len();
        // exact id, the last one inserted
        let mut k = n;
        assert(es.take(k as int) =~= es);
        while k > 0
            invariant
                k <= n,
                n == self.entries.len(),
                es == entries_view(self.entries@),
                key@ == lower(class@),
                last_with_id(es, key@) == last_with_id(es.take(k as int), key@),
            decreases k,
        {
            assert(es.take(k as int).last() == self.entries@[k - 1]@);
            let v = chars_of(self.entries[k - 1].id.as_str());
            if eq_chars(v.as_slice(), key.as_slice()) {
                assert(last_with_id(es.take(k as int), key@) == Some(k - 1));
                return Some(&self.entries[k - 1]);
            }
            assert(es.take(k as int).drop_last() =~= es.take(k - 1));
            k = k - 1;
        }
        assert(last_with_id(es, key@) is None);
        let ghost p1 = has_class(key@);
        let mut i: usize = 0;
        while i < n
            invariant
                i <= n,
                n == self.entries.len(),
                es == entries_view(self.entries@),
                p1 == has_class(key@),
                key@ == lower(class@),
                last_with_id(es, key@) is None,
                forall|j: int| 0 <= j < i ==> !p1(#[trigger] es[j]),
            decreases n - i,
        {
            assert(es[i as int] == self.entries@[i as int]@);
            if opt_eq(&self.entries[i].wm_class, key.as_slice()) {
                proof { lemma_first_where(es, p1, i as int); }
                return Some(&self.entries[i]);
            }
            i = i + 1;
        }
        proof { lemma_first_where(es, p1, n as int); }
        let ghost p2 = has_program(key@);
        let mut i: usize = 0;
        while i < n
            invariant
                i <= n,
                n == self.entries.len(),
                es == entries_view(self.entries@),
                p2 == has_program(key@),
                key@ == lower(class@),
                last_with_id(es, key@) is None,
                first_where(es, has_class(key@)) is None,
                forall|j: int| 0 <= j < i ==> !p2(#[trigger] es[j]),
            decreases n - i,
        {
            assert(es[i as int] == self.entries@[i as int]@);
            if opt_eq(&self.entries[i].exec_name, key.as_slice()) {
                proof { lemma_first_where(es, p2, i as int); }
                return Some(&self.entries[i]);
            }
            i = i + 1;
        }
        proof { lemma_first_where(es, p2, n as int); }
        let ghost p3 = has_suffix(key@);
        let mut i: usize = 0;
        while i < n
            invariant
                i <= n,
                n == self.entries.len(),
                es == entries_view(self.entries@),
                p3 == has_suffix(key@),
                key@ == lower(class@),
                last_with_id(es, key@) is None,
                first_where(es, has_class(key@)) is None,
                first_where(es, has_program(key@)) is None,
                forall|j: int| 0 <= j < i ==> !p3(#[trigger] es[j]),
            decreases n - i,
        {
            assert(es[i as int] == self.entries@[i as int]@);
            if suffix_is(&self.entries[i].id, key.as_slice()) {
                proof { lemma_first_where(es, p3, i as int); }
                return Some(&self.entries[i]);
            }
            i = i + 1;
        }
        proof { lemma_first_where(es, p3, n as int); }
        None
    }
}

} // verus!
