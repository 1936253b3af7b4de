//! The application launcher's logic: its `[launcher]` section, how many
//! times each entry was launched, and the search that ranks the desktop
//! entries for a query. Drawing the list and spawning are the caller's.
use vstd::prelude::*;

use crate::config::{opt_view, str_eq, strings_view, strs_view, RawSection};
use crate::desktop::{entries_view, DesktopEntry, DesktopEntryView};
use crate::locale::{to_lowercase, unicode_lower};
use crate::text::{
    chars_lt, chars_of, contains_chars, contains_seq, decimal, decimal_of, eq_chars, has_prefix, lines,
    parse_u32, parse_u32_chars, seq_lt, split_lines, split_once, split_once_char, starts_with, string_of,
    trim, trim_chars, views, words,
};

verus! {

/// The exit menu's buttons shown above the search field.
#[derive(Debug, Clone, PartialEq, Eq)]
pub enum Actions {
    All,
    /// No buttons.
    Nothing,
    /// The buttons named.
    Only(Vec<String>),
}

impl Actions {
    pub open spec fn spec_shows(&self, name: Seq<char>) -> bool {
        match self {
            Actions::All => true,
            Actions::Nothing => false,
            Actions::Only(names) => strings_view(names@).contains(name),
        }
    }

    /// Whether the button `name` is shown.
    pub fn shows(&self, name: &str) -> (r: bool)
        ensures
            r == self.spec_shows(name@),
    {
        match self {
            Actions::All => true,
            Actions::Nothing => false,
            Actions::Only(names) => {
                let mut i: usize = 0;
                while i < names.len()
                    invariant
                        i <= names.len(),
                        (match *self {
                            Actions::Only(n) => n == *names,
                            _ => false,
                        }),
                        forall|j: int| 0 <= j < i ==> #[trigger] strings_view(names@)[j] != name@,
                    decreases names.len() - i,
                {
                    assert(strings_view(names@)[i as int] == names@[i as int]@);
                    if str_eq(names[i].as_str(), name) {
                        assert(strings_view(names@)[i as int] == name@);
                        assert(strings_view(names@).contains(name@));
                        return true;
                    }
                    i = i + 1;
                }
                false
            },
        }
    }
}

/// Terminals tried when neither the config nor `$TERMINAL` says.
pub const TERMINALS: [&'static str; 9] = [
    "kitty",
    "alacritty",
    "foot",
    "wezterm",
    "ghostty",
    "gnome-terminal",
    "konsole",
    "xfce4-terminal",
    "xterm",
];

/// `[launcher]` section.
#[derive(Debug, Clone)]
pub struct LauncherConfig {
    /// Terminal emulator for `Terminal=true` entries, run as
    /// `<terminal> -e <command>`.
    pub terminal: String,
    /// The exit menu's buttons shown as a row of icons above the search
    /// field: `all`, `none`, or their names.
    pub actions: Actions,
}

pub open spec fn actions_of(words: Seq<Seq<char>>) -> Option<Seq<Seq<char>>> {
    if words == seq!["all"@] {
        None
    } else if words == seq!["none"@] {
        Some(seq![])
    } else {
        Some(words)
    }
}

impl LauncherConfig {
    /// The section's keys: `terminal`, else `$TERMINAL` when set and not
    /// empty (`env_terminal`), else the first of [`TERMINALS`] on the
    /// path (`on_path`, which the caller looks for), else `xterm`;
    /// `actions` is `all` unless it says `none` or lists names.
    pub fn from_section(raw: &RawSection, env_terminal: Option<&str>, on_path: Option<&str>) -> (r: LauncherConfig)
        ensures
            r.terminal@ == (match raw.value("terminal"@) {
                Some(t) => t,
                None => match env_terminal {
                    Some(t) => if t@.len() > 0 {
                        t@
                    } else {
                        match on_path {
                            Some(p) => p@,
                            None => "xterm"@,
                        }
                    },
                    None => match on_path {
                        Some(p) => p@,
                        None => "xterm"@,
                    },
                },
            }),
            ({
                let ws = match raw.value("actions"@) {
                    Some(v) => words(v),
                    None => seq!["all"@],
                };
                &&& ws == seq!["all"@] ==> r.actions is All
                &&& ws == seq!["none"@] ==> r.actions is Nothing
                &&& ws != seq!["all"@] && ws != seq!["none"@] ==> (r.actions matches Actions::Only(names) && strings_view(names@) == ws)
            }),
    {
        let fallback = match on_path {
            Some(p) => p,
            None => "xterm",
        };
        let terminal = match raw.get("terminal") {
            Some(t) => crate::text::owned(t),
            None => match env_terminal {
                Some(t) => if t.is_empty() {
                    crate::text::owned(fallback)
                } else {
                    crate::text::owned(t)
                },
                None => crate::text::owned(fallback),
            },
        };
        let all = ["all"];
        assert(strs_view(all@) =~= seq!["all"@]);
        proof {
            reveal_strlit("all");
            reveal_strlit("none");
            assert("all"@[0] == 'a' && "none"@[0] == 'n');
            assert(seq!["all"@] != seq!["none"@]) by {
                assert(seq!["all"@][0] != seq!["none"@][0]);
            }
        }
        let list = raw.list_or("actions", &all);
        let actions = if list.len() == 1 && str_eq(list[0].as_str(), "all") {
            assert(strings_view(list@) =~= seq!["all"@]);
            Actions::All
        } else if list.len() == 1 && str_eq(list[0].as_str(), "none") {
            assert(strings_view(list@) =~= seq!["none"@]);
            Actions::Nothing
        } else {
            proof {
                if list.len() == 1 {
                    assert(strings_view(list@)[0] == list@[0]@);
                    assert(strings_view(list@) != seq!["all"@]) by {
                        if strings_view(list@) == seq!["all"@] {
                            assert(strings_view(list@)[0] == "all"@);
                        }
                    }
                    assert(strings_view(list@) != seq!["none"@]) by {
                        if strings_view(list@) == seq!["none"@] {
                            assert(strings_view(list@)[0] == "none"@);
                        }
                    }
                }
            }
            Actions::Only(list)
        };
        let ghost ws = match raw.value("actions"@) {
            Some(v) => words(v),
            None => seq!["all"@],
        };
        assert(ws == strings_view(list@));
        assert(ws == seq!["all"@] ==> actions is All);
        assert(ws == seq!["none"@] ==> actions is Nothing);
        LauncherConfig { terminal, actions }
    }
}

// ---------------------------------------------------------------------
// Usage
// ---------------------------------------------------------------------

pub open spec fn counts_view(v: Seq<(String, u32)>) -> Seq<(Seq<char>, u32)> {
    v.map_values(|e: (String, u32)| (e.0@, e.1))
}

/// Index of the entry for `id`; the length when there is none.
pub open spec fn id_index(cs: Seq<(Seq<char>, u32)>, id: Seq<char>) -> int
    decreases cs.len(),
{
    if cs.len() == 0 {
        0
    } else if cs[0].0 == id {
        0
    } else {
        id_index(cs.drop_first(), id) + 1
    }
}

proof fn lemma_id_index(cs: Seq<(Seq<char>, u32)>, id: Seq<char>, i: int)
    requires
        0 <= i <= cs.len(),
        i < cs.len() ==> cs[i].0 == id,
        forall|j: int| 0 <= j < i ==> #[trigger] cs[j].0 != id,
    ensures
        id_index(cs, id) == i,
    decreases cs.len(),
{
    if cs.len() > 0 && i > 0 {
        assert(cs[0].0 != id);
        assert forall|j: int| 0 <= j < i - 1 implies #[trigger] cs.drop_first()[j].0 != id by {
            assert(cs.drop_first()[j] == cs[j + 1]);
        }
        lemma_id_index(cs.drop_first(), id, i - 1);
    }
}

proof fn lemma_id_index_found(cs: Seq<(Seq<char>, u32)>, id: Seq<char>)
    ensures
        0 <= id_index(cs, id) <= cs.len(),
        id_index(cs, id) < cs.len() ==> cs[id_index(cs, id)].0 == id,
        forall|j: int| 0 <= j < id_index(cs, id) ==> #[trigger] cs[j].0 != id,
    decreases cs.len(),
{
    if cs.len() > 0 && cs[0].0 != id {
        lemma_id_index_found(cs.drop_first(), id);
        assert forall|j: int| 0 <= j < id_index(cs, id) implies #[trigger] cs[j].0 != id by {
            if j > 0 {
                assert(cs[j] == cs.drop_first()[j - 1]);
            }
        }
    }
}

/// How many times `id` was launched.
pub open spec fn count_of(cs: Seq<(Seq<char>, u32)>, id: Seq<char>) -> u32 {
    let i = id_index(cs, id);
    if i < cs.len() {
        cs[i].1
    } else {
        0
    }
}

/// `cs` with `id` counted as `n`: updated in place, or added at the end.
pub open spec fn with_count(cs: Seq<(Seq<char>, u32)>, id: Seq<char>, n: u32) -> Seq<(Seq<char>, u32)> {
    let i = id_index(cs, id);
    if i < cs.len() {
        cs.update(i, (id, n))
    } else {
        cs.push((id, n))
    }
}

/// One `<id> <count>` line, the line trimmed and the count too.
pub open spec fn usage_line(l: Seq<char>) -> Option<(Seq<char>, u32)> {
    match split_once(trim(l), ' ') {
        Some((id, count)) => match parse_u32(trim(count)) {
            Some(n) => Some((id, n)),
            None => None,
        },
        None => None,
    }
}

/// The counts a usage file holds: a later line for an id wins.
pub open spec fn usage_of(ls: Seq<Seq<char>>) -> Seq<(Seq<char>, u32)>
    decreases ls.len(),
{
    if ls.len() == 0 {
        seq![]
    } else {
        match usage_line(ls.last()) {
            Some((id, n)) => with_count(usage_of(ls.drop_last()), id, n),
            None => usage_of(ls.drop_last()),
        }
    }
}

fn find_id(cs: &Vec<(String, u32)>, id: &str) -> (r: usize)
    ensures
        r == id_index(counts_view(cs@), id@),
        r <= cs.len(),
{
    let ghost cv = counts_view(cs@);
    let mut i: usize = 0;
    while i < cs.len() && !str_eq(cs[i].0.as_str(), id)
        invariant
            i <= cs.len(),
            cv == counts_view(cs@),
            forall|j: int| 0 <= j < i ==> #[trigger] cv[j].0 != id@,
        decreases cs.len() - i,
    {
        assert(cv[i as int].0 == cs@[i as int].0@);
        i = i + 1;
    }
    proof {
        if i < cs.len() {
            assert(cv[i as int].0 == cs@[i as int].0@);
        }
        lemma_id_index(cv, id@, i as int);
    }
    i
}

fn set_count(cs: &mut Vec<(String, u32)>, id: &str, n: u32)
    ensures
        counts_view(final(cs)@) == with_count(counts_view(old(cs)@), id@, n),
{
    let i = find_id(cs, id);
    let ghost cv = counts_view(cs@);
    if i < cs.len() {
        cs.set(i, (crate::text::owned(id), n));
        assert(counts_view(cs@) =~= cv.update(i as int, (id@, n)));
    } else {
        cs.push((crate::text::owned(id), n));
        assert(counts_view(cs@) =~= cv.push((id@, n)));
    }
}

/// `<id> <count>` per line; anything else is skipped.
pub fn parse_usage(text: &str) -> (r: Vec<(String, u32)>)
    ensures
        counts_view(r@) == usage_of(lines(text@)),
{
    let t = chars_of(text);
    let ls = split_lines(t.as_slice());
    let ghost lv = views(ls@);
    let mut r: Vec<(String, u32)> = Vec::new();
    let mut i: usize = 0;
    assert(lv.take(0) =~= Seq::<Seq<char>>::empty());
    assert(counts_view(r@) =~= Seq::<(Seq<char>, u32)>::empty());
    while i < ls.len()
        invariant
            i <= ls.len(),
            lv == views(ls@),
            counts_view(r@) == usage_of(lv.take(i as int)),
        decreases ls.len() - i,
    {
        assert(lv.take(i + 1).drop_last() =~= lv.take(i as int));
        assert(lv.take(i + 1).last() == ls@[i as int]@);
        let line = trim_chars(ls[i].as_slice());
        match split_once_char(line.as_slice(), ' ') {
            Some((id, count)) => {
                let ct = trim_chars(count.as_slice());
                match parse_u32_chars(ct.as_slice()) {
                    Some(n) => {
                        let ids = string_of(id.as_slice());
                        set_count(&mut r, ids.as_str(), n);
                    },
                    None => {},
                }
            },
            None => {},
        }
        i = i + 1;
    }
    assert(lv.take(ls.len() as int) =~= lv);
    r
}

/// How many times each desktop entry was launched, by id, and the file
/// they are kept in (`$XDG_STATE_HOME/aria-shell/launcher-usage`).
#[derive(Debug)]
pub struct Usage {
    counts: Vec<(String, u32)>,
    path: Option<String>,
}

impl Default for Usage {
    fn default() -> (r: Usage)
        ensures
            r.spec_counts().len() == 0,
            r.spec_path() is None,
    {
        let r = Usage { counts: Vec::new(), path: None };
        assert(counts_view(r.counts@) =~= Seq::<(Seq<char>, u32)>::empty());
        r
    }
}

impl Usage {
    pub closed spec fn spec_counts(&self) -> Seq<(Seq<char>, u32)> {
        counts_view(self.counts@)
    }

    pub closed spec fn spec_path(&self) -> Option<Seq<char>> {
        opt_view(self.path)
    }

    /// The usage kept in `path`, whose text the caller read (`None`: no
    /// file yet, or none to read: empty).
    pub fn load_from(path: Option<String>, text: Option<&str>) -> (r: Usage)
        ensures
            r.spec_path() == opt_view(path),
            r.spec_counts() == (match text {
                Some(t) => usage_of(lines(t@)),
                None => seq![],
            }),
    {
        let counts = match text {
            Some(t) => parse_usage(t),
            None => Vec::new(),
        };
        assert(text is None ==> counts_view(counts@) =~= Seq::<(Seq<char>, u32)>::empty());
        Usage { counts, path }
    }

    /// Where the counts are saved.
    pub fn path(&self) -> (r: Option<&String>)
        ensures
            match r {
                Some(p) => self.spec_path() == Some(p@),
                None => self.spec_path() is None,
            },
    {
        match &self.path {
            Some(p) => Some(p),
            None => None,
        }
    }

    /// How many times `id` was launched.
    pub fn count(&self, id: &str) -> (r: u32)
        ensures
            r == count_of(self.spec_counts(), id@),
    {
        let i = find_id(&self.counts, id);
        if i < self.counts.len() {
            self.counts[i].1
        } else {
            0
        }
    }

    /// One more launch of `id`; the caller saves [`Usage::render`].
    pub fn bump(&mut self, id: &str)
        requires
            count_of(old(self).spec_counts(), id@) < u32::MAX,
        ensures
            final(self).spec_counts() == with_count(old(self).spec_counts(), id@, (count_of(old(self).spec_counts(), id@) + 1) as u32),
            final(self).spec_path() == old(self).spec_path(),
    {
        let n = self.count(id);
        set_count(&mut self.counts, id, n + 1);
    }

    /// The file's text: `<id> <count>` lines, most launched first, then
    /// by id.
    pub fn render(&self) -> (r: String)
        ensures
            r@ == usage_text(sorted_counts(self.spec_counts())),
    {
        let ghost cv = counts_view(self.counts@);
        let order = self.order();
        let mut out: Vec<char> = Vec::new();
        let mut i: usize = 0;
        let ghost sorted = sorted_counts(cv);
        assert(sorted.take(0) =~= Seq::<(Seq<char>, u32)>::empty());
        assert forall|k: int| 0 <= k < order@.len() implies #[trigger] sorted[k] == cv[order@[k] as int] by {
            assert(sorted_counts(self.spec_counts())[k] == self.spec_counts()[order@[k] as int]);
        }
        while i < order.len()
            invariant
                i <= order.len(),
                cv == counts_view(self.counts@),
                sorted == sorted_counts(cv),
                order@.len() == sorted.len(),
                forall|k: int| 0 <= k < order@.len() ==> #[trigger] order@[k] < self.counts.len(),
                forall|k: int| 0 <= k < order@.len() ==> #[trigger] sorted[k] == cv[order@[k] as int],
                out@ == usage_text(sorted.take(i as int)),
            decreases order.len() - i,
        {
            assert(order@[i as int] < self.counts.len());
            assert(sorted[i as int] == cv[order@[i as int] as int]);
            let e = &self.counts[order[i]];
            assert(sorted[i as int] == (e.0@, e.1));
            let idc = chars_of(e.0.as_str());
            let n = decimal_of(e.1 as u64);
            let nc = chars_of(n.as_str());
            let ghost o0 = out@;
            let mut k: usize = 0;
            while k < idc.len()
                invariant
                    k <= idc.len(),
                    out@ == o0 + idc@.take(k as int),
                decreases idc.len() - k,
            {
                out.push(idc[k]);
                assert(idc@.take(k + 1) =~= idc@.take(k as int).push(idc@[k as int]));
                k = k + 1;
            }
            out.push(' ');
            let ghost o1 = out@;
            let mut k: usize = 0;
            while k < nc.len()
                invariant
                    k <= nc.len(),
                    out@ == o1 + nc@.take(k as int),
                decreases nc.len() - k,
            {
                out.push(nc[k]);
                assert(nc@.take(k + 1) =~= nc@.take(k as int).push(nc@[k as int]));
                k = k + 1;
            }
            out.push('\n');
            assert(idc@.take(idc.len() as int) =~= idc@);
            assert(nc@.take(nc.len() as int) =~= nc@);
            assert(sorted.take(i + 1).drop_last() =~= sorted.take(i as int));
            assert(out@ =~= o0 + usage_line_text(sorted[i as int]));
            i = i + 1;
        }
        assert(sorted.take(order.len() as int) =~= sorted);
        string_of(out.as_slice())
    }
}

/// One line of the usage file.
pub open spec fn usage_line_text(e: (Seq<char>, u32)) -> Seq<char> {
    e.0 + seq![' '] + decimal(e.1 as nat) + seq!['\n']
}

pub open spec fn usage_text(es: Seq<(Seq<char>, u32)>) -> Seq<char>
    decreases es.len(),
{
    if es.len() == 0 {
        seq![]
    } else {
        usage_text(es.drop_last()) + usage_line_text(es.last())
    }
}

/// `a` goes before `b` in the file: more launches first, then by id.
pub open spec fn count_before(a: (Seq<char>, u32), b: (Seq<char>, u32)) -> bool {
    a.1 > b.1 || (a.1 == b.1 && seq_lt(a.0, b.0))
}

/// The counts in file order.
pub open spec fn sorted_counts(cs: Seq<(Seq<char>, u32)>) -> Seq<(Seq<char>, u32)>
    decreases cs.len(),
{
    if cs.len() == 0 {
        seq![]
    } else {
        insert_count(sorted_counts(cs.drop_last()), cs.last())
    }
}

/// `e` inserted before the first entry it goes before.
pub open spec fn insert_count(s: Seq<(Seq<char>, u32)>, e: (Seq<char>, u32)) -> Seq<(Seq<char>, u32)>
    decreases s.len(),
{
    if s.len() == 0 {
        seq![e]
    } else if count_before(e, s[0]) {
        seq![e] + s
    } else {
        seq![s[0]] + insert_count(s.drop_first(), e)
    }
}

fn count_goes_before(e: &(String, u32), f: &(String, u32)) -> (r: bool)
    ensures
        r == count_before((e.0@, e.1), (f.0@, f.1)),
{
    let ec = chars_of(e.0.as_str());
    let fc = chars_of(f.0.as_str());
    e.1 > f.1 || (e.1 == f.1 && chars_lt(ec.as_slice(), fc.as_slice()))
}

impl Usage {
    /// Indices of the counts in file order.
    fn order(&self) -> (r: Vec<usize>)
        ensures
            r@.len() == sorted_counts(self.spec_counts()).len(),
            forall|k: int| 0 <= k < r@.len() ==> #[trigger] r@[k] < self.counts.len(),
            forall|k: int| 0 <= k < r@.len() ==> #[trigger] sorted_counts(self.spec_counts())[k] == self.spec_counts()[r@[k] as int],
    {
        let ghost cv = counts_view(self.counts@);
        let mut r: Vec<usize> = Vec::new();
        let mut i: usize = 0;
        assert(cv.take(0) =~= Seq::<(Seq<char>, u32)>::empty());
        while i < self.counts.len()
            invariant
                i <= self.counts.len(),
                cv == counts_view(self.counts@),
                r@.len() == sorted_counts(cv.take(i as int)).len(),
                forall|k: int| 0 <= k < r@.len() ==> #[trigger] r@[k] < i,
                forall|k: int| 0 <= k < r@.len() ==> #[trigger] sorted_counts(cv.take(i as int))[k] == cv[r@[k] as int],
            decreases self.counts.len() - i,
        {
            assert(cv.take(i + 1).drop_last() =~= cv.take(i as int));
            assert(cv.take(i + 1).last() == cv[i as int]);
            let ghost s0 = sorted_counts(cv.take(i as int));
            assert(s0.take(0) =~= Seq::<(Seq<char>, u32)>::empty());
            assert(s0.skip(0) =~= s0);
            let e = &self.counts[i];
            assert(cv[i as int] == (e.0@, e.1));
            let mut p: usize = 0;
            while p < r.len() && !count_goes_before(e, &self.counts[r[p]])
                invariant
                    p <= r.len(),
                    i < self.counts.len(),
                    e == &self.counts@[i as int],
                    cv == counts_view(self.counts@),
                    s0 == sorted_counts(cv.take(i as int)),
                    r@.len() == s0.len(),
                    forall|k: int| 0 <= k < r@.len() ==> #[trigger] r@[k] < i,
                    forall|k: int| 0 <= k < r@.len() ==> #[trigger] sorted_counts(cv.take(i as int))[k] == cv[r@[k] as int],
                    insert_count(s0, cv[i as int]) == s0.take(p as int) + insert_count(s0.skip(p as int), cv[i as int]),
                decreases r.len() - p,
            {
                assert(s0.skip(p as int)[0] == s0[p as int]);
                assert(s0[p as int] == cv[r@[p as int] as int]);
                assert(s0.skip(p as int).drop_first() =~= s0.skip(p + 1));
                assert(s0.take(p as int) + seq![s0[p as int]] =~= s0.take(p + 1));
                assert(s0.take(p + 1) =~= s0.take(p as int).push(s0[p as int]));
                p = p + 1;
            }
            proof {
                if p < r.len() {
                    assert(s0.skip(p as int)[0] == s0[p as int]);
                    assert(s0[p as int] == cv[r@[p as int] as int]);
                    assert(insert_count(s0.skip(p as int), cv[i as int]) == seq![cv[i as int]] + s0.skip(p as int));
                } else {
                    assert(s0.skip(p as int) =~= Seq::<(Seq<char>, u32)>::empty());
                }
            }
            let ghost r0 = r@;
            r.insert(p, i);
            proof {
                let s1 = sorted_counts(cv.take(i + 1));
                assert(s1 == insert_count(s0, cv[i as int]));
                assert(s1 =~= s0.take(p as int) + seq![cv[i as int]] + s0.skip(p as int));
                assert forall|k: int| 0 <= k < r@.len() implies #[trigger] r@[k] < i + 1 by {
                    if k < p {
                        assert(r@[k] == r0[k]);
                    } else if k > p {
                        assert(r@[k] == r0[k - 1]);
                    }
                }
                assert forall|k: int| 0 <= k < r@.len() implies #[trigger] sorted_counts(cv.take(i + 1))[k] == cv[r@[k] as int] by {
                    if k < p {
                        assert(r@[k] == r0[k]);
                        assert(s1[k] == s0[k]);
                    } else if k > p {
                        assert(r@[k] == r0[k - 1]);
                        assert(s1[k] == s0[k - 1]);
                    } else {
                        assert(s1[k] == cv[i as int]);
                    }
                }
            }
            i = i + 1;
        }
        assert(cv.take(self.counts.len() as int) =~= cv);
        assert forall|k: int| 0 <= k < r@.len() implies #[trigger] r@[k] < self.counts.len() by {
            assert(r@[k] < self.counts.len());
        }
        assert forall|k: int| 0 <= k < r@.len() implies #[trigger] sorted_counts(self.spec_counts())[k] == self.spec_counts()[r@[k] as int] by {
            assert(sorted_counts(cv.take(self.counts.len() as int))[k] == cv[r@[k] as int]);
        }
        r
    }
}


// ---------------------------------------------------------------------
// Search
// ---------------------------------------------------------------------

/// How well one field matches the lowercased query: exactly (10), as a
/// prefix (8), as a substring (6), case-insensitive; 0 otherwise.
pub open spec fn field_score(field: Seq<char>, q: Seq<char>) -> int {
    let f = unicode_lower(field);
    if f == q {
        10
    } else if starts_with(f, q) {
        8
    } else if contains_seq(f, q) {
        6
    } else {
        0
    }
}

pub open spec fn max2(a: int, b: int) -> int {
    if a >= b { a } else { b }
}

/// An entry's score: 1 for every entry under an empty query, else the
/// best of its id, name and comment.
pub open spec fn entry_score(e: DesktopEntryView, q: Seq<char>) -> int {
    if q.len() == 0 {
        1
    } else {
        max2(
            max2(field_score(e.id, q), field_score(e.name, q)),
            match e.comment {
                Some(c) => field_score(c, q),
                None => 0,
            },
        )
    }
}

/// Whether an entry is a result: shown, runnable, and matching.
pub open spec fn listed(e: DesktopEntryView, q: Seq<char>) -> bool {
    !e.no_display && e.exec_line is Some && entry_score(e, q) > 0
}

/// Result `a` ranks before result `b`: higher score, then launched
/// more often, then name order (lowercased), then the order of the
/// entries.
pub open spec fn ranks_before(
    es: Seq<DesktopEntryView>,
    q: Seq<char>,
    counts: Seq<(Seq<char>, u32)>,
    a: int,
    b: int,
) -> bool {
    let sa = entry_score(es[a], q);
    let sb = entry_score(es[b], q);
    let ca = count_of(counts, es[a].id);
    let cb = count_of(counts, es[b].id);
    let na = unicode_lower(es[a].name);
    let nb = unicode_lower(es[b].name);
    sa > sb || (sa == sb && (ca > cb || (ca == cb && (seq_lt(na, nb) || (na == nb && a < b)))))
}

proof fn lemma_ranks_total(es: Seq<DesktopEntryView>, q: Seq<char>, counts: Seq<(Seq<char>, u32)>, a: int, b: int)
    requires
        a != b,
    ensures
        ranks_before(es, q, counts, a, b) || ranks_before(es, q, counts, b, a),
        !(ranks_before(es, q, counts, a, b) && ranks_before(es, q, counts, b, a)),
{
    crate::text::lemma_seq_lt_total(unicode_lower(es[a].name), unicode_lower(es[b].name));
}

proof fn lemma_ranks_transitive(
    es: Seq<DesktopEntryView>,
    q: Seq<char>,
    counts: Seq<(Seq<char>, u32)>,
    a: int,
    b: int,
    c: int,
)
    requires
        ranks_before(es, q, counts, a, b),
        ranks_before(es, q, counts, b, c),
    ensures
        ranks_before(es, q, counts, a, c),
{
    let na = unicode_lower(es[a].name);
    let nb = unicode_lower(es[b].name);
    let nc = unicode_lower(es[c].name);
    if seq_lt(na, nb) && seq_lt(nb, nc) {
        crate::text::lemma_seq_lt_transitive(na, nb, nc);
    }
}

/// Counting `id` as `n` changes its count and no other.
proof fn lemma_count_with(cs: Seq<(Seq<char>, u32)>, id: Seq<char>, n: u32, other: Seq<char>)
    ensures
        count_of(with_count(cs, id, n), id) == n,
        other != id ==> count_of(with_count(cs, id, n), other) == count_of(cs, other),
{
    lemma_id_index_found(cs, id);
    lemma_id_index_found(cs, other);
    let i = id_index(cs, id);
    let w = with_count(cs, id, n);
    assert forall|j: int| 0 <= j < i implies #[trigger] w[j].0 != id by {
        assert(w[j] == cs[j]);
    }
    lemma_id_index(w, id, i);
    if other != id {
        let k = id_index(cs, other);
        if k < cs.len() {
            assert(k != i);
            assert forall|j: int| 0 <= j < k implies #[trigger] w[j].0 != other by {
                if j != i {
                    assert(w[j] == cs[j]);
                }
            }
            assert(w[k] == cs[k]);
            lemma_id_index(w, other, k);
        } else {
            assert forall|j: int| 0 <= j < w.len() implies #[trigger] w[j].0 != other by {
                if j != i {
                    assert(w[j] == cs[j]);
                }
            }
            lemma_id_index(w, other, w.len() as int);
        }
    }
}

/// One more launch of an application never moves it below one it
/// ranked before: what is launched most comes first among equal matches.
pub proof fn launching_never_demotes(
    es: Seq<DesktopEntryView>,
    q: Seq<char>,
    counts: Seq<(Seq<char>, u32)>,
    a: int,
    b: int,
)
    requires
        0 <= a < es.len(),
        0 <= b < es.len(),
        ranks_before(es, q, counts, a, b),
        count_of(counts, es[a].id) < u32::MAX,
    ensures
        ranks_before(es, q, with_count(counts, es[a].id, (count_of(counts, es[a].id) + 1) as u32), a, b),
{
    let n = (count_of(counts, es[a].id) + 1) as u32;
    lemma_count_with(counts, es[a].id, n, es[b].id);
}

/// `r` lists exactly the results, best first.
pub open spec fn ranked(
    r: Seq<usize>,
    es: Seq<DesktopEntryView>,
    q: Seq<char>,
    counts: Seq<(Seq<char>, u32)>,
) -> bool {
    &&& forall|k: int| 0 <= k < r.len() ==> (#[trigger] r[k]) < es.len() && listed(es[r[k] as int], q)
    &&& forall|i: int| 0 <= i < es.len() && listed(es[i], q) ==> #[trigger] r.contains(i as usize)
    &&& forall|k: int, l: int| 0 <= k < l < r.len() ==> ranks_before(es, q, counts, #[trigger] r[k] as int, #[trigger] r[l] as int)
}

proof fn lemma_ranks_irreflexive(es: Seq<DesktopEntryView>, q: Seq<char>, counts: Seq<(Seq<char>, u32)>, a: int)
    ensures
        !ranks_before(es, q, counts, a, a),
{
    crate::text::lemma_seq_lt_irreflexive(unicode_lower(es[a].name));
}

/// A ranked list holds each result once, and its scores never rise.
proof fn lemma_ranked_shape(r: Seq<usize>, es: Seq<DesktopEntryView>, q: Seq<char>, counts: Seq<(Seq<char>, u32)>)
    requires
        ranked(r, es, q, counts),
    ensures
        r.no_duplicates(),
        forall|k: int, l: int|
            0 <= k <= l < r.len() ==> entry_score(es[#[trigger] r[k] as int], q) >= entry_score(es[#[trigger] r[l] as int], q),
        forall|x: usize| #[trigger] r.to_set().contains(x) <==> (x < es.len() && listed(es[x as int], q)),
{
    assert forall|k: int, l: int| 0 <= k < l < r.len() implies r[k] != r[l] by {
        assert(ranks_before(es, q, counts, r[k] as int, r[l] as int));
        if r[k] == r[l] {
            lemma_ranks_irreflexive(es, q, counts, r[k] as int);
        }
    }
    assert forall|k: int, l: int|
        0 <= k <= l < r.len() implies entry_score(es[#[trigger] r[k] as int], q) >= entry_score(es[#[trigger] r[l] as int], q) by {
        if k < l {
            assert(ranks_before(es, q, counts, r[k] as int, r[l] as int));
        }
    }
    assert forall|x: usize| #[trigger] r.to_set().contains(x) <==> (x < es.len() && listed(es[x as int], q)) by {
        if r.to_set().contains(x) {
            assert(r.contains(x));
            let k = choose|k: int| 0 <= k < r.len() && r[k] == x;
            assert(r[k] < es.len());
        }
        if x < es.len() && listed(es[x as int], q) {
            assert(r.contains((x as int) as usize));
        }
    }
}

/// Usage only breaks ties: whatever the launch counts, the results are
/// the same entries, each once, and the `k`th result scores the same.
pub proof fn usage_only_reorders_equal_scores(
    r1: Seq<usize>,
    r2: Seq<usize>,
    es: Seq<DesktopEntryView>,
    q: Seq<char>,
    c1: Seq<(Seq<char>, u32)>,
    c2: Seq<(Seq<char>, u32)>,
)
    requires
        ranked(r1, es, q, c1),
        ranked(r2, es, q, c2),
    ensures
        r1.no_duplicates(),
        r2.no_duplicates(),
        r1.to_set() == r2.to_set(),
        r1.len() == r2.len(),
        forall|k: int| 0 <= k < r1.len() ==> entry_score(es[#[trigger] r1[k] as int], q) == entry_score(es[r2[k] as int], q),
{
    lemma_ranked_shape(r1, es, q, c1);
    lemma_ranked_shape(r2, es, q, c2);
    assert(r1.to_set() =~= r2.to_set());
    r1.unique_seq_to_set();
    r2.unique_seq_to_set();
    assert forall|k: int| 0 <= k < r1.len() implies entry_score(es[#[trigger] r1[k] as int], q) == entry_score(
        es[r2[k] as int],
        q,
    ) by {
        lemma_same_score_at(r1, r2, es, q, c1, c2, k);
        lemma_same_score_at(r2, r1, es, q, c2, c1, k);
    }
}

/// The `k`th of `r1` scores no more than the `k`th of `r2`.
proof fn lemma_same_score_at(
    r1: Seq<usize>,
    r2: Seq<usize>,
    es: Seq<DesktopEntryView>,
    q: Seq<char>,
    c1: Seq<(Seq<char>, u32)>,
    c2: Seq<(Seq<char>, u32)>,
    k: int,
)
    requires
        ranked(r1, es, q, c1),
        ranked(r2, es, q, c2),
        0 <= k < r1.len(),
        r1.len() == r2.len(),
    ensures
        entry_score(es[r1[k] as int], q) <= entry_score(es[r2[k] as int], q),
{
    lemma_ranked_shape(r1, es, q, c1);
    lemma_ranked_shape(r2, es, q, c2);
    let a = entry_score(es[r1[k] as int], q);
    if a > entry_score(es[r2[k] as int], q) {
        let p1 = r1.take(k + 1);
        let p2 = r2.take(k);
        let big = r1.to_set().filter(|x: usize| entry_score(es[x as int], q) >= a);
        assert(p1.no_duplicates()) by {
            assert forall|i: int, j: int| 0 <= i < j < p1.len() implies p1[i] != p1[j] by {
                assert(p1[i] == r1[i] && p1[j] == r1[j]);
            }
        }
        p1.unique_seq_to_set();
        assert(p1.to_set().subset_of(big)) by {
            assert forall|x: usize| p1.to_set().contains(x) implies big.contains(x) by {
                assert(p1.contains(x));
                let i = choose|i: int| 0 <= i < p1.len() && p1[i] == x;
                assert(p1[i] == r1[i]);
                assert(r1.contains(x));
                assert(entry_score(es[r1[i] as int], q) >= entry_score(es[r1[k] as int], q));
            }
        }
        vstd::set_lib::lemma_len_subset(p1.to_set(), big);
        assert(big.subset_of(p2.to_set())) by {
            assert forall|x: usize| big.contains(x) implies p2.to_set().contains(x) by {
                assert(r1.to_set().contains(x));
                assert(r2.to_set().contains(x));
                assert(r2.contains(x));
                let w = choose|w: int| 0 <= w < r2.len() && r2[w] == x;
                if w >= k {
                    assert(entry_score(es[r2[k] as int], q) >= entry_score(es[r2[w] as int], q));
                }
                assert(p2[w] == x);
                assert(p2.contains(x));
            }
        }
        assert(p2.no_duplicates()) by {
            assert forall|i: int, j: int| 0 <= i < j < p2.len() implies p2[i] != p2[j] by {
                assert(p2[i] == r2[i] && p2[j] == r2[j]);
            }
        }
        p2.unique_seq_to_set();
        vstd::set_lib::lemma_len_subset(big, p2.to_set());
        assert(false);
    }
}

fn field_score_of(field: &String, q: &[char]) -> (r: u8)
    ensures
        r as int == field_score(field@, q@),
{
    let l = to_lowercase(field.as_str());
    let lc = chars_of(l.as_str());
    if eq_chars(lc.as_slice(), q) {
        10
    } else if crate::text::has_prefix_chars(lc.as_slice(), q) {
        8
    } else if contains_chars(lc.as_slice(), q) {
        6
    } else {
        0
    }
}

fn score_of(e: &DesktopEntry, q: &[char]) -> (r: u8)
    ensures
        r as int == entry_score(e@, q@),
{
    if q.len() == 0 {
        return 1;
    }
    let a = field_score_of(&e.id, q);
    let b = field_score_of(&e.name, q);
    let c = match &e.comment {
        Some(c) => field_score_of(c, q),
        None => 0,
    };
    let ab = if a >= b { a } else { b };
    if ab >= c { ab } else { c }
}

/// Indices of the entries matching `query`, best first: an empty query
/// lists every entry; otherwise the id, name and comment are tried for
/// an exact match (10), a prefix (8), a substring (6),
/// case-insensitive. Ties go to the entry launched more often, then to
/// name order, then to the order of the entries. Hidden entries and
/// entries without `Exec` never show.
pub fn search(entries: &[DesktopEntry], query: &str, usage: &Usage) -> (r: Vec<usize>)
    ensures
        ({
            let q = unicode_lower(trim(query@));
            ranked(r@, entries_view(entries@), q, usage.spec_counts())
        }),
{
    let qc = chars_of(query);
    let qt = trim_chars(qc.as_slice());
    let qs = string_of(qt.as_slice());
    let ql = to_lowercase(qs.as_str());
    let q = chars_of(ql.as_str());
    let ghost es = entries_view(entries@);
    let ghost cs = usage.spec_counts();
    let mut scores: Vec<u8> = Vec::new();
    let mut counts: Vec<u32> = Vec::new();
    let mut names: Vec<Vec<char>> = Vec::new();
    let mut r: Vec<usize> = Vec::new();
    let mut i: usize = 0;
    while i < entries.len()
        invariant
            i <= entries.len(),
            es == entries_view(entries@),
            cs == usage.spec_counts(),
            q@ == unicode_lower(trim(query@)),
            scores@.len() == i,
            counts@.len() == i,
            names@.len() == i,
            forall|j: int| 0 <= j < i ==> #[trigger] scores@[j] as int == entry_score(es[j], q@),
            forall|j: int| 0 <= j < i ==> #[trigger] counts@[j] == count_of(cs, es[j].id),
            forall|j: int| 0 <= j < i ==> #[trigger] names@[j]@ == unicode_lower(es[j].name),
            forall|k: int| 0 <= k < r@.len() ==> (#[trigger] r@[k]) < i && listed(es[r@[k] as int], q@),
            forall|j: int| 0 <= j < i && listed(es[j], q@) ==> #[trigger] r@.contains(j as usize),
            forall|k: int, l: int| 0 <= k < l < r@.len() ==> ranks_before(es, q@, cs, #[trigger] r@[k] as int, #[trigger] r@[l] as int),
        decreases entries.len() - i,
    {
        let e = &entries[i];
        assert(es[i as int] == e@);
        let sc = score_of(e, q.as_slice());
        let ct = usage.count(e.id.as_str());
        let nl = to_lowercase(e.name.as_str());
        let nc = chars_of(nl.as_str());
        scores.push(sc);
        counts.push(ct);
        names.push(nc);
        assert(scores@[i as int] as int == entry_score(es[i as int], q@));
        assert(counts@[i as int] == count_of(cs, es[i as int].id));
        assert(names@[i as int]@ == unicode_lower(es[i as int].name));
        if !e.no_display && e.exec_line.is_some() && sc > 0 {
            // the first result `i` ranks before
            let mut p: usize = 0;
            let mut found = false;
            while p < r.len() && !found
                invariant
                    p <= r.len(),
                    found ==> p < r.len() && ranks_before(es, q@, cs, i as int, r@[p as int] as int),
                    i < scores@.len(),
                    scores@.len() == counts@.len(),
                    names@.len() == counts@.len(),
                    forall|k: int| 0 <= k < r@.len() ==> (#[trigger] r@[k]) < i,
                    forall|j: int| 0 <= j < scores@.len() ==> #[trigger] scores@[j] as int == entry_score(es[j], q@),
                    forall|j: int| 0 <= j < counts@.len() ==> #[trigger] counts@[j] == count_of(cs, es[j].id),
                    forall|j: int| 0 <= j < names@.len() ==> #[trigger] names@[j]@ == unicode_lower(es[j].name),
                    forall|k: int| 0 <= k < p ==> !ranks_before(es, q@, cs, i as int, #[trigger] r@[k] as int),
                decreases r.len() - p + (if found { 0int } else { 1int }),
            {
                let b = r[p];
                assert(b < i);
                assert(scores@[i as int] as int == entry_score(es[i as int], q@));
                assert(scores@[b as int] as int == entry_score(es[b as int], q@));
                assert(counts@[i as int] == count_of(cs, es[i as int].id));
                assert(counts@[b as int] == count_of(cs, es[b as int].id));
                assert(names@[i as int]@ == unicode_lower(es[i as int].name));
                assert(names@[b as int]@ == unicode_lower(es[b as int].name));
                if ranks_first(&scores, &counts, &names, i, b) {
                    found = true;
                } else {
                    p = p + 1;
                }
            }
            let ghost r0 = r@;
            proof {
                assert forall|k: int| 0 <= k < p implies ranks_before(es, q@, cs, #[trigger] r0[k] as int, i as int) by {
                    lemma_ranks_total(es, q@, cs, r0[k] as int, i as int);
                }
                assert forall|k: int| p <= k < r0.len() implies ranks_before(es, q@, cs, i as int, #[trigger] r0[k] as int) by {
                    if k > p {
                        lemma_ranks_transitive(es, q@, cs, i as int, r0[p as int] as int, r0[k] as int);
                    }
                }
            }
            r.insert(p, i);
            proof {
                assert forall|k: int, l: int| 0 <= k < l < r@.len() implies ranks_before(es, q@, cs, #[trigger] r@[k] as int, #[trigger] r@[l] as int) by {
                    if l < p {
                        assert(r@[k] == r0[k] && r@[l] == r0[l]);
                    } else if l == p {
                        assert(r@[k] == r0[k]);
                    } else if k < p {
                        assert(r@[k] == r0[k] && r@[l] == r0[l - 1]);
                        assert(ranks_before(es, q@, cs, r0[k] as int, i as int));
                        lemma_ranks_transitive(es, q@, cs, r0[k] as int, i as int, r0[l - 1] as int);
                    } else if k == p {
                        assert(r@[l] == r0[l - 1]);
                    } else {
                        assert(r@[k] == r0[k - 1] && r@[l] == r0[l - 1]);
                    }
                }
                assert forall|k: int| 0 <= k < r@.len() implies (#[trigger] r@[k]) < i + 1 && listed(es[r@[k] as int], q@) by {
                    if k < p {
                        assert(r@[k] == r0[k]);
                    } else if k > p {
                        assert(r@[k] == r0[k - 1]);
                    }
                }
                assert forall|j: int| 0 <= j < i + 1 && listed(es[j], q@) implies #[trigger] r@.contains(j as usize) by {
                    if j < i {
                        assert(r0.contains(j as usize));
                        let w = choose|w: int| 0 <= w < r0.len() && r0[w] == j as usize;
                        if w < p {
                            assert(r@[w] == r0[w]);
                        } else {
                            assert(r@[w + 1] == r0[w]);
                        }
                    } else {
                        assert(r@[p as int] == i);
                    }
                }
            }
        } else {
            proof {
                assert(!listed(es[i as int], q@));
                assert forall|j: int| 0 <= j < i + 1 && listed(es[j], q@) implies #[trigger] r@.contains(j as usize) by {
                    assert(j < i);
                }
            }
        }
        i = i + 1;
    }
    r
}

/// Result `a` ranks before result `b`, by the keys computed for them.
fn ranks_first(scores: &Vec<u8>, counts: &Vec<u32>, names: &Vec<Vec<char>>, a: usize, b: usize) -> (r: bool)
    requires
        a < scores.len(),
        b < scores.len(),
        scores.len() == counts.len(),
        names.len() == counts.len(),
    ensures
        r == (scores@[a as int] > scores@[b as int] || (scores@[a as int] == scores@[b as int] && (counts@[a as int]
            > counts@[b as int] || (counts@[a as int] == counts@[b as int] && (seq_lt(names@[a as int]@, names@[b as int]@)
            || (names@[a as int]@ == names@[b as int]@ && a < b)))))),
{
    if scores[a] != scores[b] {
        return scores[a] > scores[b];
    }
    if counts[a] != counts[b] {
        return counts[a] > counts[b];
    }
    if chars_lt(names[a].as_slice(), names[b].as_slice()) {
        return true;
    }
    eq_chars(names[a].as_slice(), names[b].as_slice()) && a < b
}


/// A row of the list: a result, or one of the expanded result's actions
/// (result index, action index).
#[derive(Debug, Clone, Copy, PartialEq, Eq, Structural)]
pub enum Row {
    App(usize),
    Action(usize, usize),
}

impl Row {
    /// The result the row belongs to.
    pub fn result(self) -> (r: usize)
        ensures
            r == (match self {
                Row::App(i) => i,
                Row::Action(i, _) => i,
            }),
    {
        match self {
            Row::App(i) | Row::Action(i, _) => i,
        }
    }
}

// ---------------------------------------------------------------------
// The launcher's list: results, the open result's actions, the selection

/// The list as laid out: every result, and the expanded one's `k`
/// actions right below it.
pub open spec fn rows_of(n: nat, expanded: Option<usize>, k: nat) -> Seq<Row> {
    match expanded {
        Some(e) if e < n => Seq::new((e + 1) as nat, |i: int| Row::App(i as usize)) + Seq::new(
            k,
            |a: int| Row::Action(e, a as usize),
        ) + Seq::new((n - e - 1) as nat, |i: int| Row::App((e + 1 + i) as usize)),
        _ => Seq::new(n, |i: int| Row::App(i as usize)),
    }
}

/// Where `row` first is in `rows`; `rows.len()` if nowhere.
pub open spec fn row_pos(rows: Seq<Row>, row: Row) -> int
    decreases rows.len(),
{
    if rows.len() == 0 {
        0
    } else if rows[0] == row {
        0
    } else {
        row_pos(rows.drop_first(), row) + 1
    }
}

/// The selection after selecting `row`: where it is, else the first row.
pub open spec fn select_pos(rows: Seq<Row>, row: Row) -> nat {
    let p = row_pos(rows, row);
    if p < rows.len() {
        p as nat
    } else {
        0
    }
}

proof fn lemma_row_pos(rows: Seq<Row>, row: Row, i: int)
    requires
        0 <= i <= rows.len(),
        i < rows.len() ==> rows[i] == row,
        forall|j: int| 0 <= j < i ==> rows[j] != row,
    ensures
        row_pos(rows, row) == i,
    decreases rows.len(),
{
    if rows.len() > 0 && i > 0 {
        assert forall|j: int| 0 <= j < i - 1 implies rows.drop_first()[j] != row by {
            assert(rows.drop_first()[j] == rows[j + 1]);
        }
        lemma_row_pos(rows.drop_first(), row, i - 1);
    }
}

/// The chevron of result `i` (offering `k` actions) on a list of `n`
/// results whose open result is `expanded`: the open result and the
/// selection after it. Its actions open, their first selected, unless
/// they were open or there are none: then they close and the result is
/// selected.
pub open spec fn toggled(n: nat, expanded: Option<usize>, k: nat, i: usize) -> (Option<usize>, nat) {
    if expanded == Some(i) || k == 0 {
        (None, select_pos(rows_of(n, None, 0), Row::App(i)))
    } else {
        (Some(i), select_pos(rows_of(n, Some(i), k), Row::Action(i, 0)))
    }
}

/// Toggling a result whose actions are not open, twice, leaves them
/// closed with the result selected, whichever result was open before.
pub proof fn toggling_twice_closes(n: nat, expanded: Option<usize>, k: nat, i: usize)
    requires
        expanded != Some(i),
    ensures
        toggled(n, toggled(n, expanded, k, i).0, k, i) == (
            None::<usize>,
            select_pos(rows_of(n, None, 0), Row::App(i)),
        ),
{
}

/// The icons of the buttons `actions` shows, in button order.
pub open spec fn shown_icons(buttons: Seq<crate::exiter::ButtonView>, actions: Actions) -> Seq<Seq<char>>
    decreases buttons.len(),
{
    if buttons.len() == 0 {
        seq![]
    } else {
        shown_icons(buttons.drop_last(), actions) + (if actions.spec_shows(buttons.last().name) {
            buttons.last().icons
        } else {
            seq![]
        })
    }
}

/// What the launcher is told. Scrolling the list is the caller's.
#[derive(Debug)]
pub enum Message {
    Query(String),
    /// Enter: run the selected row.
    Submit,
    Up,
    Down,
    /// Open the selected result's actions.
    Right,
    /// Close them, back to the result.
    Left,
    /// The chevron of that result: open or close its actions.
    Toggle(usize),
    /// A click on that row.
    Activate(Row),
    /// Esc, or a click outside.
    Close,
    /// One of the exit menu's buttons, by name.
    Exit(String),
    /// A press the dialog's content took.
    Nothing,
}

/// What to do next.
#[derive(Debug, PartialEq, Eq)]
pub enum Action {
    Nothing,
    /// Scroll the list back to its top.
    ScrollTop,
    /// Scroll the least that brings row `i` into view.
    Locate(usize),
    /// Run entry `entry` (an index into the entries), or its action
    /// `action`, then close; report a launch that worked to
    /// [`Launcher::launched`].
    Launch { entry: usize, action: Option<usize> },
    Close,
    /// Close, and do what the exit menu's button `name` does.
    Exit(String),
}

/// The application launcher's state: the query, the results, the
/// result whose actions are open, the selected row.
pub struct Launcher {
    config: LauncherConfig,
    /// The exit menu's buttons, for the row of actions.
    exiter: crate::exiter::ExiterConfig,
    /// The applications, once known.
    apps: Option<crate::desktop::DesktopDb>,
    /// How many actions each application offers.
    actions: Vec<usize>,
    usage: Usage,
    query: String,
    /// Indices into the entries, best match first.
    results: Vec<usize>,
    /// The one result whose actions are open as child rows.
    expanded: Option<usize>,
    /// Index into [`Launcher::rows`].
    selected: usize,
}

/// The entries searched: none until the applications are known.
pub open spec fn apps_view(apps: Option<crate::desktop::DesktopDb>) -> Seq<DesktopEntryView> {
    match apps {
        Some(db) => db@,
        None => Seq::empty(),
    }
}

/// `l` locates row `i`: nothing with no rows, else the row, at most the
/// last.
pub open spec fn locate_of(rows: Seq<Row>, i: int) -> Action {
    if rows.len() == 0 {
        Action::Nothing
    } else if i < rows.len() {
        Action::Locate(i as usize)
    } else {
        Action::Locate((rows.len() - 1) as usize)
    }
}

impl Launcher {
    pub closed spec fn spec_entries(&self) -> Seq<DesktopEntryView> {
        apps_view(self.apps)
    }

    pub closed spec fn spec_actions(&self) -> Seq<usize> {
        self.actions@
    }

    pub closed spec fn spec_config(&self) -> LauncherConfig {
        self.config
    }

    pub closed spec fn spec_exiter(&self) -> crate::exiter::ExiterConfig {
        self.exiter
    }

    pub closed spec fn spec_counts(&self) -> Seq<(Seq<char>, u32)> {
        self.usage.spec_counts()
    }

    pub closed spec fn spec_query(&self) -> Seq<char> {
        self.query@
    }

    pub closed spec fn spec_results(&self) -> Seq<usize> {
        self.results@
    }

    pub closed spec fn spec_expanded(&self) -> Option<usize> {
        self.expanded
    }

    pub closed spec fn spec_selected(&self) -> nat {
        self.selected as nat
    }

    /// The results are entries; each entry has its count of actions.
    pub closed spec fn wf(&self) -> bool {
        &&& self.actions@.len() == apps_view(self.apps).len()
        &&& forall|k: int| 0 <= k < self.results@.len() ==> (#[trigger] self.results@[k]) < apps_view(self.apps).len()
    }

    /// How many actions result `i` offers (none for no result).
    pub open spec fn spec_actions_of(&self, i: int) -> nat {
        if 0 <= i < self.spec_results().len() && self.spec_results()[i] < self.spec_actions().len() {
            self.spec_actions()[self.spec_results()[i] as int] as nat
        } else {
            0
        }
    }

    /// The rows of the list.
    pub open spec fn spec_rows(&self) -> Seq<Row> {
        let k = match self.spec_expanded() {
            Some(e) => self.spec_actions_of(e as int),
            None => 0,
        };
        rows_of(self.spec_results().len(), self.spec_expanded(), k)
    }

    /// The selected row, if the list has one there.
    pub open spec fn spec_selected_row(&self) -> Option<Row> {
        if self.spec_selected() < self.spec_rows().len() {
            Some(self.spec_rows()[self.spec_selected() as int])
        } else {
            None
        }
    }

    /// The results for the query, best first.
    pub open spec fn spec_searched(&self, results: Seq<usize>) -> bool {
        ranked(results, self.spec_entries(), unicode_lower(trim(self.spec_query())), self.spec_counts())
    }

    /// After `toggle(i)`: the expanded result and the selection.
    pub open spec fn spec_toggled(&self, i: usize) -> (Option<usize>, nat) {
        toggled(self.spec_results().len(), self.spec_expanded(), self.spec_actions_of(i as int), i)
    }

    /// What running `row` comes to: its entry, and the action's index
    /// for an action row; nothing for a row past the list or an action
    /// the entry lacks.
    pub open spec fn spec_target(&self, row: Row) -> Option<(usize, Option<usize>)> {
        let r = match row {
            Row::App(i) => i,
            Row::Action(i, _) => i,
        };
        if r < self.spec_results().len() {
            let e = self.spec_results()[r as int];
            match row {
                Row::App(_) => Some((e, None)),
                Row::Action(_, a) => if a < self.spec_actions_of(r as int) {
                    Some((e, Some(a)))
                } else {
                    None
                },
            }
        } else {
            None
        }
    }

    /// A launcher over `apps` (each offering the number of actions in
    /// `actions`), with `usage` counting the launches, searched with an
    /// empty query.
    pub fn new(
        config: LauncherConfig,
        exiter: crate::exiter::ExiterConfig,
        apps: Option<crate::desktop::DesktopDb>,
        actions: Vec<usize>,
        usage: Usage,
    ) -> (r: Launcher)
        requires
            actions@.len() == apps_view(apps).len(),
        ensures
            r.wf(),
            r.spec_entries() == apps_view(apps),
            r.spec_actions() == actions@,
            r.spec_counts() == usage.spec_counts(),
            r.spec_query().len() == 0,
            r.spec_searched(r.spec_results()),
            r.spec_expanded() is None,
            r.spec_selected() == 0,
    {
        let mut l = Launcher {
            config,
            exiter,
            apps,
            actions,
            usage,
            query: String::new(),
            results: Vec::new(),
            expanded: None,
            selected: 0,
        };
        l.search();
        l
    }

    /// The applications were found again.
    pub fn set_apps(&mut self, apps: crate::desktop::DesktopDb, actions: Vec<usize>)
        requires
            actions@.len() == apps@.len(),
        ensures
            final(self).wf(),
            final(self).spec_entries() == apps@,
            final(self).spec_actions() == actions@,
            final(self).spec_counts() == old(self).spec_counts(),
            final(self).spec_query() == old(self).spec_query(),
            final(self).spec_searched(final(self).spec_results()),
            final(self).spec_expanded() is None,
            final(self).spec_selected() == 0,
    {
        self.apps = Some(apps);
        self.actions = actions;
        self.search();
    }

    fn search(&mut self)
        requires
            old(self).actions@.len() == apps_view(old(self).apps).len(),
        ensures
            final(self).wf(),
            final(self).apps == old(self).apps,
            final(self).actions == old(self).actions,
            final(self).usage == old(self).usage,
            final(self).query == old(self).query,
            final(self).config == old(self).config,
            final(self).exiter == old(self).exiter,
            final(self).spec_searched(final(self).spec_results()),
            final(self).spec_expanded() is None,
            final(self).spec_selected() == 0,
    {
        let results = match &self.apps {
            Some(db) => search(db.entries(), self.query.as_str(), &self.usage),
            None => {
                let none: Vec<DesktopEntry> = Vec::new();
                let r = search(none.as_slice(), self.query.as_str(), &self.usage);
                assert(entries_view(none@) =~= Seq::<DesktopEntryView>::empty());
                r
            },
        };
        self.results = results;
        self.expanded = None;
        self.selected = 0;
    }

    /// The query, as typed.
    pub fn query(&self) -> (r: &str)
        ensures
            r@ == self.spec_query(),
    {
        self.query.as_str()
    }

    /// The results, as indices into the entries, best first.
    pub fn results(&self) -> (r: &[usize])
        ensures
            r@ == self.spec_results(),
    {
        self.results.as_slice()
    }

    pub fn expanded(&self) -> (r: Option<usize>)
        ensures
            r == self.spec_expanded(),
    {
        self.expanded
    }

    pub fn selected(&self) -> (r: usize)
        ensures
            r as nat == self.spec_selected(),
    {
        self.selected
    }

    pub fn usage(&self) -> (r: &Usage)
        ensures
            r.spec_counts() == self.spec_counts(),
    {
        &self.usage
    }

    /// How many actions result `i` offers.
    fn actions_of(&self, i: usize) -> (r: usize)
        requires
            self.wf(),
        ensures
            r as nat == self.spec_actions_of(i as int),
    {
        if i < self.results.len() && self.results[i] < self.actions.len() {
            self.actions[self.results[i]]
        } else {
            0
        }
    }

    /// The list as laid out: every result, and the expanded one's actions
    /// right below it.
    pub fn rows(&self) -> (r: Vec<Row>)
        requires
            self.wf(),
        ensures
            r@ == self.spec_rows(),
    {
        let n = self.results.len();
        let mut r: Vec<Row> = Vec::new();
        match self.expanded {
            Some(e) if e < n => {
                let k = self.actions_of(e);
                let mut i: usize = 0;
                while i <= e
                    invariant
                        e < n,
                        i <= e + 1,
                        r@ == Seq::new(i as nat, |j: int| Row::App(j as usize)),
                    decreases e + 1 - i,
                {
                    r.push(Row::App(i));
                    assert(r@ =~= Seq::new((i + 1) as nat, |j: int| Row::App(j as usize)));
                    i += 1;
                }
                let ghost head = r@;
                let mut a: usize = 0;
                while a < k
                    invariant
                        a <= k,
                        r@ == head + Seq::new(a as nat, |j: int| Row::Action(e, j as usize)),
                    decreases k - a,
                {
                    r.push(Row::Action(e, a));
                    assert(r@ =~= head + Seq::new((a + 1) as nat, |j: int| Row::Action(e, j as usize)));
                    a += 1;
                }
                let ghost mid = r@;
                let mut i: usize = e + 1;
                while i < n
                    invariant
                        e < n,
                        e + 1 <= i <= n,
                        r@ == mid + Seq::new((i - e - 1) as nat, |j: int| Row::App((e + 1 + j) as usize)),
                    decreases n - i,
                {
                    r.push(Row::App(i));
                    assert(r@ =~= mid + Seq::new((i + 1 - e - 1) as nat, |j: int| Row::App((e + 1 + j) as usize)));
                    i += 1;
                }
            },
            _ => {
                let mut i: usize = 0;
                while i < n
                    invariant
                        i <= n,
                        r@ == Seq::new(i as nat, |j: int| Row::App(j as usize)),
                    decreases n - i,
                {
                    r.push(Row::App(i));
                    assert(r@ =~= Seq::new((i + 1) as nat, |j: int| Row::App(j as usize)));
                    i += 1;
                }
            },
        }
        r
    }

    /// The selected row, if the list has one there.
    pub fn selected_row(&self) -> (r: Option<Row>)
        requires
            self.wf(),
        ensures
            r == self.spec_selected_row(),
    {
        let rows = self.rows();
        if self.selected < rows.len() {
            Some(rows[self.selected])
        } else {
            None
        }
    }
}

impl Launcher {
    /// Select `row` wherever it is in the rows, else the first row.
    fn select(&mut self, row: Row)
        requires
            old(self).wf(),
        ensures
            final(self).wf(),
            final(self).spec_selected() == select_pos(old(self).spec_rows(), row),
            final(self).apps == old(self).apps,
            final(self).actions == old(self).actions,
            final(self).usage == old(self).usage,
            final(self).query == old(self).query,
            final(self).results == old(self).results,
            final(self).expanded == old(self).expanded,
            final(self).config == old(self).config,
            final(self).exiter == old(self).exiter,
    {
        let rows = self.rows();
        self.selected = position_of(&rows, row);
    }

    /// Open the actions of result `i` (closing any other's) and select
    /// its first one, or close them and select the result.
    fn toggle(&mut self, i: usize)
        requires
            old(self).wf(),
        ensures
            final(self).wf(),
            (final(self).spec_expanded(), final(self).spec_selected()) == old(self).spec_toggled(i),
            final(self).apps == old(self).apps,
            final(self).actions == old(self).actions,
            final(self).usage == old(self).usage,
            final(self).query == old(self).query,
            final(self).results == old(self).results,
            final(self).config == old(self).config,
            final(self).exiter == old(self).exiter,
    {
        let has_actions = self.actions_of(i) > 0;
        if self.expanded == Some(i) || !has_actions {
            self.expanded = None;
            self.select(Row::App(i));
        } else {
            self.expanded = Some(i);
            self.select(Row::Action(i, 0));
        }
    }

    /// Bring row `i` into view: nothing with no rows, else the row (at
    /// most the last).
    fn locate(&self, i: usize) -> (r: Action)
        requires
            self.wf(),
        ensures
            r == locate_of(self.spec_rows(), i as int),
    {
        let n = self.rows().len();
        if n == 0 {
            Action::Nothing
        } else if i < n {
            Action::Locate(i)
        } else {
            Action::Locate(n - 1)
        }
    }

    /// Bring the row after `i` into view.
    fn locate_after(&self, i: usize) -> (r: Action)
        requires
            self.wf(),
        ensures
            r == locate_of(self.spec_rows(), i + 1),
    {
        let n = self.rows().len();
        if n == 0 {
            Action::Nothing
        } else if i < n - 1 {
            Action::Locate(i + 1)
        } else {
            Action::Locate(n - 1)
        }
    }

    /// What running `row` comes to.
    fn target(&self, row: Row) -> (r: Action)
        requires
            self.wf(),
        ensures
            r == (match self.spec_target(row) {
                Some((e, a)) => Action::Launch { entry: e, action: a },
                None => Action::Close,
            }),
    {
        let r = row.result();
        if r < self.results.len() {
            let e = self.results[r];
            match row {
                Row::App(_) => Action::Launch { entry: e, action: None },
                Row::Action(_, a) => if a < self.actions_of(r) {
                    Action::Launch { entry: e, action: Some(a) }
                } else {
                    Action::Close
                },
            }
        } else {
            Action::Close
        }
    }

    /// One message; what to do next.
    pub fn update(&mut self, message: Message) -> (r: Action)
        requires
            old(self).wf(),
        ensures
            final(self).wf(),
            final(self).spec_entries() == old(self).spec_entries(),
            final(self).spec_actions() == old(self).spec_actions(),
            final(self).spec_counts() == old(self).spec_counts(),
            match message {
                Message::Query(q) => {
                    &&& final(self).spec_query() == q@
                    &&& final(self).spec_searched(final(self).spec_results())
                    &&& final(self).spec_expanded() is None
                    &&& final(self).spec_selected() == 0
                    &&& r == Action::ScrollTop
                },
                _ => final(self).spec_query() == old(self).spec_query() && final(self).spec_results()
                    == old(self).spec_results(),
            },
            match message {
                Message::Query(_) => true,
                Message::Up => {
                    let s: nat = if old(self).spec_selected() > 0 { (old(self).spec_selected() - 1) as nat } else { 0 };
                    &&& final(self).spec_selected() == s
                    &&& final(self).spec_expanded() == old(self).spec_expanded()
                    &&& r == locate_of(old(self).spec_rows(), if s > 0 { s - 1 } else { 0 })
                },
                Message::Down => {
                    let s: nat = if old(self).spec_selected() + 1 < old(self).spec_rows().len() {
                        old(self).spec_selected() + 1
                    } else {
                        old(self).spec_selected()
                    };
                    &&& final(self).spec_selected() == s
                    &&& final(self).spec_expanded() == old(self).spec_expanded()
                    &&& r == locate_of(old(self).spec_rows(), (s + 1) as int)
                },
                Message::Right => match old(self).spec_selected_row() {
                    Some(Row::App(i)) => if old(self).spec_expanded() != Some(i) {
                        &&& (final(self).spec_expanded(), final(self).spec_selected()) == old(self).spec_toggled(i)
                        &&& r == locate_of(final(self).spec_rows(), (final(self).spec_selected() + 1) as int)
                    } else {
                        &&& final(self).spec_expanded() == old(self).spec_expanded()
                        &&& final(self).spec_selected() == old(self).spec_selected()
                        &&& r == Action::Nothing
                    },
                    _ => {
                        &&& final(self).spec_expanded() == old(self).spec_expanded()
                        &&& final(self).spec_selected() == old(self).spec_selected()
                        &&& r == Action::Nothing
                    },
                },
                Message::Left => match old(self).spec_selected_row() {
                    Some(Row::Action(i, _)) => {
                        &&& (final(self).spec_expanded(), final(self).spec_selected()) == old(self).spec_toggled(i)
                        &&& r == locate_of(final(self).spec_rows(), final(self).spec_selected() as int)
                    },
                    Some(Row::App(i)) => if old(self).spec_expanded() == Some(i) {
                        &&& (final(self).spec_expanded(), final(self).spec_selected()) == old(self).spec_toggled(i)
                        &&& r == Action::Nothing
                    } else {
                        &&& final(self).spec_expanded() == old(self).spec_expanded()
                        &&& final(self).spec_selected() == old(self).spec_selected()
                        &&& r == Action::Nothing
                    },
                    None => {
                        &&& final(self).spec_expanded() == old(self).spec_expanded()
                        &&& final(self).spec_selected() == old(self).spec_selected()
                        &&& r == Action::Nothing
                    },
                },
                Message::Toggle(i) => {
                    &&& (final(self).spec_expanded(), final(self).spec_selected()) == old(self).spec_toggled(i)
                    &&& r == locate_of(final(self).spec_rows(), (final(self).spec_selected() + 1) as int)
                },
                Message::Submit => {
                    &&& final(self).spec_expanded() == old(self).spec_expanded()
                    &&& final(self).spec_selected() == old(self).spec_selected()
                    &&& r == (match old(self).spec_selected_row() {
                        Some(row) => match old(self).spec_target(row) {
                            Some((e, a)) => Action::Launch { entry: e, action: a },
                            None => Action::Close,
                        },
                        None => Action::Close,
                    })
                },
                Message::Activate(row) => {
                    &&& final(self).spec_expanded() == old(self).spec_expanded()
                    &&& final(self).spec_selected() == old(self).spec_selected()
                    &&& r == (match old(self).spec_target(row) {
                        Some((e, a)) => Action::Launch { entry: e, action: a },
                        None => Action::Close,
                    })
                },
                Message::Close => {
                    &&& final(self).spec_expanded() == old(self).spec_expanded()
                    &&& final(self).spec_selected() == old(self).spec_selected()
                    &&& r == Action::Close
                },
                Message::Exit(name) => {
                    &&& final(self).spec_expanded() == old(self).spec_expanded()
                    &&& final(self).spec_selected() == old(self).spec_selected()
                    &&& r matches Action::Exit(n) && n@ == name@
                },
                Message::Nothing => {
                    &&& final(self).spec_expanded() == old(self).spec_expanded()
                    &&& final(self).spec_selected() == old(self).spec_selected()
                    &&& r == Action::Nothing
                },
            },
    {
        match message {
            Message::Query(q) => {
                self.query = q;
                self.search();
                Action::ScrollTop
            },
            Message::Up => {
                if self.selected > 0 {
                    self.selected = self.selected - 1;
                }
                let s = if self.selected > 0 { self.selected - 1 } else { 0 };
                self.locate(s)
            },
            Message::Down => {
                let n = self.rows().len();
                if self.selected < n && self.selected + 1 < n {
                    self.selected = self.selected + 1;
                }
                self.locate_after(self.selected)
            },
            Message::Right => {
                let row = self.selected_row();
                match row {
                    Some(Row::App(i)) => if self.expanded != Some(i) {
                        self.toggle(i);
                        self.locate_after(self.selected)
                    } else {
                        Action::Nothing
                    },
                    _ => Action::Nothing,
                }
            },
            Message::Left => {
                let row = self.selected_row();
                match row {
                    Some(Row::Action(i, _)) => {
                        self.toggle(i);
                        self.locate(self.selected)
                    },
                    Some(Row::App(i)) => if self.expanded == Some(i) {
                        self.toggle(i);
                        Action::Nothing
                    } else {
                        Action::Nothing
                    },
                    None => Action::Nothing,
                }
            },
            Message::Toggle(i) => {
                self.toggle(i);
                self.locate_after(self.selected)
            },
            Message::Submit => match self.selected_row() {
                Some(row) => self.target(row),
                None => Action::Close,
            },
            Message::Activate(row) => self.target(row),
            Message::Close => Action::Close,
            Message::Exit(name) => Action::Exit(name),
            Message::Nothing => Action::Nothing,
        }
    }

    /// Entry `entry` was run: one more launch of it.
    pub fn launched(&mut self, entry: usize)
        requires
            old(self).wf(),
            entry < old(self).spec_entries().len() ==> count_of(
                old(self).spec_counts(),
                old(self).spec_entries()[entry as int].id,
            ) < u32::MAX,
        ensures
            final(self).wf(),
            final(self).spec_counts() == (if entry < old(self).spec_entries().len() {
                with_count(
                    old(self).spec_counts(),
                    old(self).spec_entries()[entry as int].id,
                    (count_of(old(self).spec_counts(), old(self).spec_entries()[entry as int].id) + 1) as u32,
                )
            } else {
                old(self).spec_counts()
            }),
            final(self).spec_entries() == old(self).spec_entries(),
            final(self).spec_actions() == old(self).spec_actions(),
            final(self).spec_query() == old(self).spec_query(),
            final(self).spec_results() == old(self).spec_results(),
            final(self).spec_expanded() == old(self).spec_expanded(),
            final(self).spec_selected() == old(self).spec_selected(),
    {
        if let Some(db) = &self.apps {
            let es = db.entries();
            if entry < es.len() {
                assert(es@[entry as int]@ == self.spec_entries()[entry as int]);
                let id = es[entry].id.clone();
                self.usage.bump(id.as_str());
            }
        }
    }

    /// The desktop ids of the results, in order, for their icons.
    pub fn visible_ids(&self) -> (r: Vec<String>)
        requires
            self.wf(),
        ensures
            r@.len() == self.spec_results().len(),
            forall|k: int| 0 <= k < r@.len() ==> (#[trigger] r@[k])@ == self.spec_entries()[self.spec_results()[k] as int].id,
    {
        let mut r: Vec<String> = Vec::new();
        if self.apps.is_none() {
            assert(self.results@.len() == 0) by {
                if self.results@.len() > 0 {
                    assert(self.results@[0] < apps_view(self.apps).len());
                }
            }
        }
        if let Some(db) = &self.apps {
            let es = db.entries();
            let mut k: usize = 0;
            while k < self.results.len()
                invariant
                    k <= self.results@.len(),
                    self.wf(),
                    entries_view(es@) == self.spec_entries(),
                    r@.len() == k,
                    forall|j: int| 0 <= j < k ==> (#[trigger] r@[j])@ == self.spec_entries()[self.spec_results()[j] as int].id,
                decreases self.results@.len() - k,
            {
                let e = self.results[k];
                assert(es@[e as int]@ == self.spec_entries()[e as int]);
                r.push(es[e].id.clone());
                k += 1;
            }
        }
        r
    }

    /// The exit menu's buttons the row of actions shows, as indices into
    /// its buttons.
    pub fn actions(&self) -> (r: Vec<usize>)
        ensures
            forall|k: int| 0 <= k < r@.len() ==> (#[trigger] r@[k]) < self.spec_exiter().buttons@.len(),
            forall|k: int, l: int| 0 <= k < l < r@.len() ==> #[trigger] r@[k] < #[trigger] r@[l],
            forall|b: int|
                0 <= b < self.spec_exiter().buttons@.len() ==> (r@.contains(b as usize) <==> self.spec_config().actions.spec_shows(
                    self.spec_exiter().buttons@[b].name@,
                )),
    {
        let mut r: Vec<usize> = Vec::new();
        let mut b: usize = 0;
        while b < self.exiter.buttons.len()
            invariant
                b <= self.exiter.buttons@.len(),
                forall|k: int| 0 <= k < r@.len() ==> (#[trigger] r@[k]) < b,
                forall|k: int, l: int| 0 <= k < l < r@.len() ==> #[trigger] r@[k] < #[trigger] r@[l],
                forall|c: int|
                    0 <= c < b ==> (r@.contains(c as usize) <==> self.config.actions.spec_shows(
                        self.exiter.buttons@[c].name@,
                    )),
            decreases self.exiter.buttons@.len() - b,
        {
            let ghost r0 = r@;
            if self.config.actions.shows(self.exiter.buttons[b].name.as_str()) {
                r.push(b);
                assert forall|c: int| 0 <= c < b implies (#[trigger] r@.contains(c as usize) <==> r0.contains(c as usize)) by {
                    if r@.contains(c as usize) {
                        let w = choose|w: int| 0 <= w < r@.len() && r@[w] == c as usize;
                        if w < r0.len() {
                            assert(r0[w] == c as usize);
                        }
                    }
                    if r0.contains(c as usize) {
                        let w = choose|w: int| 0 <= w < r0.len() && r0[w] == c as usize;
                        assert(r@[w] == c as usize);
                    }
                }
                assert(r@[r0.len() as int] == b);
            } else {
                assert(!r@.contains(b));
            }
            b += 1;
        }
        r
    }

    /// Icon names the row of actions may draw: the icons of each button
    /// it shows, in button order.
    pub fn icon_names(&self) -> (r: Vec<String>)
        ensures
            strings_view(r@) == shown_icons(
                crate::exiter::buttons_view(self.spec_exiter().buttons@),
                self.spec_config().actions,
            ),
    {
        let ghost bv = crate::exiter::buttons_view(self.exiter.buttons@);
        let mut r: Vec<String> = Vec::new();
        let mut b: usize = 0;
        assert(bv.take(0) =~= Seq::<crate::exiter::ButtonView>::empty());
        assert(strings_view(r@) =~= Seq::<Seq<char>>::empty());
        while b < self.exiter.buttons.len()
            invariant
                b <= self.exiter.buttons@.len(),
                bv == crate::exiter::buttons_view(self.exiter.buttons@),
                strings_view(r@) == shown_icons(bv.take(b as int), self.config.actions),
            decreases self.exiter.buttons@.len() - b,
        {
            let button = &self.exiter.buttons[b];
            assert(bv[b as int] == button@);
            assert(bv.take(b + 1).drop_last() =~= bv.take(b as int));
            assert(bv.take(b + 1).last() == button@);
            if self.config.actions.shows(button.name.as_str()) {
                let ghost r0 = strings_view(r@);
                let mut j: usize = 0;
                assert(button@.icons.take(0) =~= Seq::<Seq<char>>::empty());
                while j < button.icons.len()
                    invariant
                        j <= button.icons@.len(),
                        strings_view(r@) == r0 + button@.icons.take(j as int),
                        button@.icons == strings_view(button.icons@),
                    decreases button.icons@.len() - j,
                {
                    let ghost rj = strings_view(r@);
                    r.push(button.icons[j].clone());
                    assert(strings_view(r@) =~= rj.push(button.icons@[j as int]@));
                    assert(button@.icons.take(j + 1) =~= button@.icons.take(j as int).push(button.icons@[j as int]@));
                    j += 1;
                }
                assert(button@.icons.take(j as int) =~= button@.icons);
            }
            b += 1;
        }
        assert(bv.take(b as int) =~= bv);
        r
    }

    pub fn config(&self) -> (r: &LauncherConfig)
        ensures
            *r == self.spec_config(),
    {
        &self.config
    }

    pub fn exiter(&self) -> (r: &crate::exiter::ExiterConfig)
        ensures
            *r == self.spec_exiter(),
    {
        &self.exiter
    }
}

/// Where `row` is in `rows`, else the first row.
fn position_of(rows: &Vec<Row>, row: Row) -> (r: usize)
    ensures
        r as nat == select_pos(rows@, row),
{
    let mut i: usize = 0;
    while i < rows.len()
        invariant
            i <= rows@.len(),
            forall|j: int| 0 <= j < i ==> rows@[j] != row,
        decreases rows@.len() - i,
    {
        if rows[i] == row {
            proof {
                lemma_row_pos(rows@, row, i as int);
            }
            return i;
        }
        i += 1;
    }
    proof {
        lemma_row_pos(rows@, row, i as int);
    }
    0
}

} // verus!
