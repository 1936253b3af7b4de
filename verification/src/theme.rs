//! Icon theme lookup (freedesktop Icon Theme spec), backed by an
//! in-memory index: every directory `index.theme` lists is read once,
//! then a lookup picks the best-sized directory among the places an
//! icon was seen. The theme chain is the theme, its `Inherits`, then
//! `hicolor`. Reading the directories is the caller's.
use vstd::prelude::*;

use crate::config::{join, join_path, strings_view};
use crate::text::{
    chars_of, eq_str, lines, parse_u32, parse_u32_chars, slice_vec, split_char, split_lines,
    split_on, split_once, split_once_char, string_of, trim, trim_chars, views,
};

verus! {

// ---------------------------------------------------------------------
// Directories
// ---------------------------------------------------------------------

/// How the icons of a directory fit sizes.
#[derive(Debug, Clone, Copy, PartialEq, Eq, Structural)]
pub enum DirKind {
    Fixed,
    Scalable { min: u32, max: u32 },
    Threshold(u32),
}

/// One `[subdir]` of an `index.theme`.
#[derive(Debug)]
pub struct IconDir {
    pub rel: String,
    pub size: u32,
    pub scale: u32,
    pub kind: DirKind,
}

pub struct IconDirView {
    pub rel: Seq<char>,
    pub size: u32,
    pub scale: u32,
    pub kind: DirKind,
}

impl View for IconDir {
    type V = IconDirView;

    open spec fn view(&self) -> IconDirView {
        IconDirView { rel: self.rel@, size: self.size, scale: self.scale, kind: self.kind }
    }
}

pub open spec fn abs_diff(a: int, b: int) -> int {
    if a >= b {
        a - b
    } else {
        b - a
    }
}

/// `a - b`, or 0 when `b` is larger.
pub open spec fn sat_sub(a: int, b: int) -> int {
    if a >= b {
        a - b
    } else {
        0
    }
}

/// Spec: does an icon of a directory match `size` exactly?
pub open spec fn dir_matches(d: IconDirView, size: int) -> bool {
    match d.kind {
        DirKind::Fixed => d.size == size,
        DirKind::Scalable { min, max } => min <= size <= max,
        DirKind::Threshold(t) => abs_diff(d.size as int, size) <= t,
    }
}

/// Spec: how far off is a directory for `size`?
pub open spec fn dir_distance(d: IconDirView, size: int) -> int {
    match d.kind {
        DirKind::Fixed => abs_diff(d.size as int, size),
        DirKind::Scalable { min, max } => sat_sub(min as int, size) + sat_sub(size, max as int),
        DirKind::Threshold(t) => {
            let lo = sat_sub(d.size as int, t as int);
            let hi = d.size + t;
            sat_sub(lo, size) + sat_sub(size, hi)
        },
    }
}

impl IconDir {
    /// Does an icon in this directory match `size` exactly?
    pub fn matches(&self, size: u32) -> (r: bool)
        ensures
            r == dir_matches(self@, size as int),
    {
        match self.kind {
            DirKind::Fixed => self.size == size,
            DirKind::Scalable { min, max } => min <= size && size <= max,
            DirKind::Threshold(t) => {
                let d = if self.size >= size { self.size - size } else { size - self.size };
                d <= t
            },
        }
    }

    /// How far off is this directory for `size`?
    pub fn distance(&self, size: u32) -> (r: u32)
        ensures
            r == dir_distance(self@, size as int),
    {
        match self.kind {
            DirKind::Fixed => if self.size >= size { self.size - size } else { size - self.size },
            DirKind::Scalable { min, max } => {
                let a = if min >= size { min - size } else { 0 };
                let b = if size >= max { size - max } else { 0 };
                a + b
            },
            DirKind::Threshold(t) => {
                let lo = if self.size >= t { self.size - t } else { 0 };
                let hi: u64 = self.size as u64 + t as u64;
                let a = if lo >= size { lo - size } else { 0 };
                let b: u64 = if size as u64 >= hi { size as u64 - hi } else { 0 };
                assert(a == 0 || b == 0);
                a + (b as u32)
            },
        }
    }
}

/// The image formats a theme lookup takes.
#[derive(Debug, Clone, Copy, PartialEq, Eq, Structural)]
pub enum Ext {
    Svg,
    Png,
}

/// A file name split into stem and a usable extension: `.svg` or
/// `.png` after the last dot; other formats give none.
pub open spec fn ext_of(name: Seq<char>) -> Option<(Seq<char>, Ext)> {
    match crate::text::last_index(name, '.') {
        Some(p) => {
            let e = name.skip(p + 1);
            if e == "svg"@ {
                Some((name.take(p), Ext::Svg))
            } else if e == "png"@ {
                Some((name.take(p), Ext::Png))
            } else {
                None
            }
        },
        None => None,
    }
}

impl Ext {
    /// Stem and extension of an icon file name.
    pub fn of(name: &str) -> (r: Option<(String, Ext)>)
        ensures
            match r {
                Some((stem, e)) => ext_of(name@) == Some((stem@, e)),
                None => ext_of(name@) is None,
            },
    {
        let v = chars_of(name);
        match crate::text::rfind(v.as_slice(), '.') {
            Some(p) => {
                proof { crate::text::lemma_last_index_bound(v@, '.'); }
                let e = slice_vec(v.as_slice(), p + 1, v.len());
                let stem = slice_vec(v.as_slice(), 0, p);
                assert(e@ =~= v@.skip(p + 1));
                assert(stem@ =~= v@.take(p as int));
                if eq_str(e.as_slice(), "svg") {
                    Some((string_of(stem.as_slice()), Ext::Svg))
                } else if eq_str(e.as_slice(), "png") {
                    Some((string_of(stem.as_slice()), Ext::Png))
                } else {
                    None
                }
            },
            None => None,
        }
    }

    /// The extension as written in a file name.
    pub fn suffix(self) -> (r: &'static str)
        ensures
            r@ == (match self {
                Ext::Svg => "svg"@,
                Ext::Png => "png"@,
            }),
    {
        match self {
            Ext::Svg => "svg",
            Ext::Png => "png",
        }
    }
}

// ---------------------------------------------------------------------
// index.theme
// ---------------------------------------------------------------------

/// The trimmed, non-empty items of a comma list, in order.
pub open spec fn csv_items(parts: Seq<Seq<char>>) -> Seq<Seq<char>>
    decreases parts.len(),
{
    if parts.len() == 0 {
        seq![]
    } else {
        let rest = csv_items(parts.drop_last());
        let t = trim(parts.last());
        if t.len() == 0 {
            rest
        } else {
            rest.push(t)
        }
    }
}

pub open spec fn csv_of(v: Seq<char>) -> Seq<Seq<char>> {
    csv_items(split_on(v, ','))
}

/// A comma-separated list: items trimmed, empty ones dropped.
pub fn csv(v: &str) -> (r: Vec<String>)
    ensures
        strings_view(r@) == csv_of(v@),
{
    let cs = chars_of(v);
    let parts = split_char(cs.as_slice(), ',');
    let mut r: Vec<String> = Vec::new();
    let mut i: usize = 0;
    assert(views(parts@).take(0) =~= Seq::<Seq<char>>::empty());
    assert(strings_view(r@) =~= Seq::<Seq<char>>::empty());
    while i < parts.len()
        invariant
            i <= parts.len(),
            views(parts@) == split_on(v@, ','),
            strings_view(r@) == csv_items(views(parts@).take(i as int)),
        decreases parts.len() - i,
    {
        assert(views(parts@).take(i + 1).drop_last() =~= views(parts@).take(i as int));
        assert(views(parts@).take(i + 1).last() == parts@[i as int]@);
        let t = trim_chars(parts[i].as_slice());
        if t.len() > 0 {
            let ghost prev = strings_view(r@);
            r.push(string_of(t.as_slice()));
            assert(strings_view(r@) =~= prev.push(t@));
        }
        i = i + 1;
    }
    assert(views(parts@).take(parts.len() as int) =~= views(parts@));
    r
}

/// `listed` with the items of `ds` it lacks appended, in order.
pub open spec fn add_new(listed: Seq<Seq<char>>, ds: Seq<Seq<char>>) -> Seq<Seq<char>>
    decreases ds.len(),
{
    if ds.len() == 0 {
        listed
    } else {
        let l = add_new(listed, ds.drop_last());
        if l.contains(ds.last()) {
            l
        } else {
            l.push(ds.last())
        }
    }
}

/// What an `index.theme` said so far: `Inherits`, the directories
/// listed (each once), the current group, and every `key=value` of the
/// other groups as `(group, key, value)`.
pub struct IndexState {
    pub inherits: Seq<Seq<char>>,
    pub listed: Seq<Seq<char>>,
    pub current: Seq<char>,
    pub entries: Seq<(Seq<char>, Seq<char>, Seq<char>)>,
}

pub open spec fn index_step(st: IndexState, raw: Seq<char>) -> IndexState {
    let line = trim(raw);
    if line.len() == 0 || line[0] == '#' {
        st
    } else if line.len() >= 2 && line[0] == '[' && line.last() == ']' {
        IndexState { current: line.subrange(1, line.len() - 1), ..st }
    } else {
        match split_once(line, '=') {
            None => st,
            Some((k0, v0)) => {
                let k = trim(k0);
                let v = trim(v0);
                if st.current == "Icon Theme"@ {
                    if k == "Inherits"@ {
                        IndexState { inherits: csv_of(v), ..st }
                    } else if k == "Directories"@ || k == "ScaledDirectories"@ {
                        IndexState { listed: add_new(st.listed, csv_of(v)), ..st }
                    } else {
                        st
                    }
                } else {
                    IndexState { entries: st.entries.push((st.current, k, v)), ..st }
                }
            },
        }
    }
}

pub open spec fn index_state(ls: Seq<Seq<char>>) -> IndexState
    decreases ls.len(),
{
    if ls.len() == 0 {
        IndexState { inherits: seq![], listed: seq![], current: seq![], entries: seq![] }
    } else {
        index_step(index_state(ls.drop_last()), ls.last())
    }
}

/// The value of `key` in `group`: the last one written.
pub open spec fn group_get(
    entries: Seq<(Seq<char>, Seq<char>, Seq<char>)>,
    group: Seq<char>,
    key: Seq<char>,
) -> Option<Seq<char>>
    decreases entries.len(),
{
    if entries.len() == 0 {
        None
    } else if entries.last().0 == group && entries.last().1 == key {
        Some(entries.last().2)
    } else {
        group_get(entries.drop_last(), group, key)
    }
}

/// A numeric key of a group, when present and a `u32`.
pub open spec fn group_num(
    entries: Seq<(Seq<char>, Seq<char>, Seq<char>)>,
    group: Seq<char>,
    key: Seq<char>,
) -> Option<u32> {
    match group_get(entries, group, key) {
        Some(v) => parse_u32(v),
        None => None,
    }
}

pub open spec fn num_or(o: Option<u32>, d: u32) -> u32 {
    match o {
        Some(v) => v,
        None => d,
    }
}

/// The directory a listed `rel` describes: none without a numeric
/// `Size`; the type is `Threshold` (threshold 2) unless it says
/// `Scalable` or `Fixed`; the scale defaults to 1.
pub open spec fn dir_of(entries: Seq<(Seq<char>, Seq<char>, Seq<char>)>, rel: Seq<char>) -> Option<IconDirView> {
    match group_num(entries, rel, "Size"@) {
        None => None,
        Some(size) => {
            let t = group_get(entries, rel, "Type"@);
            let kind = if t == Some("Scalable"@) {
                DirKind::Scalable {
                    min: num_or(group_num(entries, rel, "MinSize"@), size),
                    max: num_or(group_num(entries, rel, "MaxSize"@), size),
                }
            } else if t == Some("Fixed"@) {
                DirKind::Fixed
            } else {
                DirKind::Threshold(num_or(group_num(entries, rel, "Threshold"@), 2))
            };
            Some(IconDirView { rel, size, scale: num_or(group_num(entries, rel, "Scale"@), 1), kind })
        },
    }
}

pub open spec fn dirs_of(
    entries: Seq<(Seq<char>, Seq<char>, Seq<char>)>,
    listed: Seq<Seq<char>>,
) -> Seq<IconDirView>
    decreases listed.len(),
{
    if listed.len() == 0 {
        seq![]
    } else {
        let rest = dirs_of(entries, listed.drop_last());
        match dir_of(entries, listed.last()) {
            Some(d) => rest.push(d),
            None => rest,
        }
    }
}

pub open spec fn dirs_view(ds: Seq<IconDir>) -> Seq<IconDirView> {
    ds.map_values(|d: IconDir| d@)
}

/// `(inherits, dirs)` of an `index.theme` text.
pub open spec fn index_of(text: Seq<char>) -> (Seq<Seq<char>>, Seq<IconDirView>) {
    let st = index_state(lines(text));
    (st.inherits, dirs_of(st.entries, st.listed))
}

struct IndexParse {
    inherits: Vec<String>,
    listed: Vec<String>,
    current: Vec<char>,
    entries: Vec<(Vec<char>, Vec<char>, Vec<char>)>,
}

pub open spec fn triples_view(
    es: Seq<(Vec<char>, Vec<char>, Vec<char>)>,
) -> Seq<(Seq<char>, Seq<char>, Seq<char>)> {
    es.map_values(|e: (Vec<char>, Vec<char>, Vec<char>)| (e.0@, e.1@, e.2@))
}

fn contains_string(v: &Vec<String>, s: &String) -> (r: bool)
    ensures
        r == strings_view(v@).contains(s@),
{
    let mut i: usize = 0;
    while i < v.len()
        invariant
            i <= v.len(),
            forall|j: int| 0 <= j < i ==> #[trigger] strings_view(v@)[j] != s@,
        decreases v.len() - i,
    {
        assert(strings_view(v@)[i as int] == v@[i as int]@);
        if crate::notifications::str_eq_string(&v[i], s) {
            return true;
        }
        i = i + 1;
    }
    false
}

impl IndexParse {
    spec fn view(&self) -> IndexState {
        IndexState {
            inherits: strings_view(self.inherits@),
            listed: strings_view(self.listed@),
            current: self.current@,
            entries: triples_view(self.entries@),
        }
    }

    fn step(&mut self, raw: &[char])
        ensures
            final(self).view() == index_step(old(self).view(), raw@),
    {
        let line = trim_chars(raw);
        let n = line.len();
        if n == 0 || line[0] == '#' {
            return;
        }
        if n >= 2 && line[0] == '[' && line[n - 1] == ']' {
            self.current = slice_vec(line.as_slice(), 1, n - 1);
            return;
        }
        let (k0, v0) = match split_once_char(line.as_slice(), '=') {
            Some(kv) => kv,
            None => return,
        };
        let k = trim_chars(k0.as_slice());
        let v = trim_chars(v0.as_slice());
        if eq_str(self.current.as_slice(), "Icon Theme") {
            if eq_str(k.as_slice(), "Inherits") {
                let vs = string_of(v.as_slice());
                self.inherits = csv(vs.as_str());
            } else if eq_str(k.as_slice(), "Directories") || eq_str(k.as_slice(), "ScaledDirectories") {
                let vs = string_of(v.as_slice());
                let ds = csv(vs.as_str());
                let ghost l0 = strings_view(self.listed@);
                let ghost before = self.view();
                let mut i: usize = 0;
                assert(strings_view(ds@).take(0) =~= Seq::<Seq<char>>::empty());
                while i < ds.len()
                    invariant
                        i <= ds.len(),
                        strings_view(self.listed@) == add_new(l0, strings_view(ds@).take(i as int)),
                        self.view() == (IndexState { listed: strings_view(self.listed@), ..before }),
                        strings_view(ds@) == csv_of(v@),
                    decreases ds.len() - i,
                {
                    assert(strings_view(ds@).take(i + 1).drop_last() =~= strings_view(ds@).take(i as int));
                    assert(strings_view(ds@).take(i + 1).last() == ds@[i as int]@);
                    if !contains_string(&self.listed, &ds[i]) {
                        let ghost prev = strings_view(self.listed@);
                        self.listed.push(ds[i].clone());
                        assert(strings_view(self.listed@) =~= prev.push(ds@[i as int]@));
                    }
                    i = i + 1;
                }
                assert(strings_view(ds@).take(ds.len() as int) =~= strings_view(ds@));
            }
        } else {
            let ghost prev = triples_view(self.entries@);
            let cur = self.current.clone();
            self.entries.push((cur, k, v));
            assert(triples_view(self.entries@) =~= prev.push((self.current@, k@, v@)));
        }
    }
}

fn group_value<'a>(
    entries: &'a Vec<(Vec<char>, Vec<char>, Vec<char>)>,
    group: &[char],
    key: &str,
) -> (r: Option<&'a Vec<char>>)
    ensures
        match r {
            Some(v) => group_get(triples_view(entries@), group@, key@) == Some(v@),
            None => group_get(triples_view(entries@), group@, key@) is None,
        },
{
    let ghost es = triples_view(entries@);
    let mut k = entries.len();
    assert(es.take(k as int) =~= es);
    while k > 0
        invariant
            k <= entries.len(),
            es == triples_view(entries@),
            group_get(es, group@, key@) == group_get(es.take(k as int), group@, key@),
        decreases k,
    {
        assert(es.take(k as int).last() == (entries@[k - 1].0@, entries@[k - 1].1@, entries@[k - 1].2@));
        if crate::text::eq_chars(entries[k - 1].0.as_slice(), group) && eq_str(entries[k - 1].1.as_slice(), key) {
            return Some(&entries[k - 1].2);
        }
        assert(es.take(k as int).drop_last() =~= es.take(k - 1));
        k = k - 1;
    }
    None
}

fn group_number(
    entries: &Vec<(Vec<char>, Vec<char>, Vec<char>)>,
    group: &[char],
    key: &str,
) -> (r: Option<u32>)
    ensures
        r == group_num(triples_view(entries@), group@, key@),
{
    match group_value(entries, group, key) {
        Some(v) => parse_u32_chars(v.as_slice()),
        None => None,
    }
}

fn dir_from(entries: &Vec<(Vec<char>, Vec<char>, Vec<char>)>, rel: &String) -> (r: Option<IconDir>)
    ensures
        match r {
            Some(d) => dir_of(triples_view(entries@), rel@) == Some(d@),
            None => dir_of(triples_view(entries@), rel@) is None,
        },
{
    let rc = chars_of(rel.as_str());
    let size = match group_number(entries, rc.as_slice(), "Size") {
        Some(s) => s,
        None => return None,
    };
    let t = group_value(entries, rc.as_slice(), "Type");
    let is_scalable = match t {
        Some(v) => eq_str(v.as_slice(), "Scalable"),
        None => false,
    };
    let is_fixed = match t {
        Some(v) => eq_str(v.as_slice(), "Fixed"),
        None => false,
    };
    proof {
        reveal_strlit("Scalable");
        reveal_strlit("Fixed");
    }
    let kind = if is_scalable {
        let min = match group_number(entries, rc.as_slice(), "MinSize") {
            Some(m) => m,
            None => size,
        };
        let max = match group_number(entries, rc.as_slice(), "MaxSize") {
            Some(m) => m,
            None => size,
        };
        DirKind::Scalable { min, max }
    } else if is_fixed {
        DirKind::Fixed
    } else {
        let t = match group_number(entries, rc.as_slice(), "Threshold") {
            Some(m) => m,
            None => 2,
        };
        DirKind::Threshold(t)
    };
    let scale = match group_number(entries, rc.as_slice(), "Scale") {
        Some(m) => m,
        None => 1,
    };
    Some(IconDir { rel: rel.clone(), size, scale, kind })
}

/// `(inherits, dirs)` from an `index.theme`.
pub fn parse_index(text: &str) -> (r: (Vec<String>, Vec<IconDir>))
    ensures
        (strings_view(r.0@), dirs_view(r.1@)) == index_of(text@),
{
    let t = chars_of(text);
    let ls = split_lines(t.as_slice());
    let mut st = IndexParse { inherits: Vec::new(), listed: Vec::new(), current: Vec::new(), entries: Vec::new() };
    assert(strings_view(st.inherits@) =~= Seq::<Seq<char>>::empty());
    assert(strings_view(st.listed@) =~= Seq::<Seq<char>>::empty());
    assert(triples_view(st.entries@) =~= Seq::<(Seq<char>, Seq<char>, Seq<char>)>::empty());
    assert(views(ls@).take(0) =~= Seq::<Seq<char>>::empty());
    let mut i: usize = 0;
    while i < ls.len()
        invariant
            i <= ls.len(),
            views(ls@) == lines(t@),
            st.view() == index_state(views(ls@).take(i as int)),
        decreases ls.len() - i,
    {
        assert(views(ls@).take(i + 1).drop_last() =~= views(ls@).take(i as int));
        assert(views(ls@).take(i + 1).last() == ls@[i as int]@);
        st.step(ls[i].as_slice());
        i = i + 1;
    }
    assert(views(ls@).take(ls.len() as int) =~= views(ls@));
    let mut dirs: Vec<IconDir> = Vec::new();
    let ghost listed = strings_view(st.listed@);
    let ghost es = triples_view(st.entries@);
    let mut j: usize = 0;
    assert(listed.take(0) =~= Seq::<Seq<char>>::empty());
    assert(dirs_view(dirs@) =~= Seq::<IconDirView>::empty());
    while j < st.listed.len()
        invariant
            j <= st.listed.len(),
            listed == strings_view(st.listed@),
            es == triples_view(st.entries@),
            dirs_view(dirs@) == dirs_of(es, listed.take(j as int)),
        decreases st.listed.len() - j,
    {
        assert(listed.take(j + 1).drop_last() =~= listed.take(j as int));
        assert(listed.take(j + 1).last() == st.listed@[j as int]@);
        match dir_from(&st.entries, &st.listed[j]) {
            Some(d) => {
                let ghost prev = dirs_view(dirs@);
                let ghost dv = d@;
                dirs.push(d);
                assert(dirs_view(dirs@) =~= prev.push(dv));
            },
            None => {},
        }
        j = j + 1;
    }
    assert(listed.take(st.listed.len() as int) =~= listed);
    (st.inherits, dirs)
}


// ---------------------------------------------------------------------
// Themes
// ---------------------------------------------------------------------

/// Where an icon was seen: which root, which directory, which format.
#[derive(Debug, Clone, Copy, PartialEq, Eq, Structural)]
pub struct Place {
    pub root: usize,
    pub dir: usize,
    pub ext: Ext,
}

/// An icon name and the places it was seen, in scan order.
#[derive(Debug)]
pub struct IconNames {
    pub name: String,
    pub places: Vec<Place>,
}

/// One theme, possibly spread over several base dirs
/// (`/usr/share/icons/hicolor` and `~/.local/share/icons/hicolor`).
#[derive(Debug)]
pub struct IconTheme {
    pub name: String,
    pub inherits: Vec<String>,
    pub dirs: Vec<IconDir>,
    /// `<base>/<name>` for every base dir where the theme exists.
    pub roots: Vec<String>,
    /// Each icon name once, with where it is.
    icons: Vec<IconNames>,
}

pub struct IconThemeView {
    pub name: Seq<char>,
    pub inherits: Seq<Seq<char>>,
    pub dirs: Seq<IconDirView>,
    pub roots: Seq<Seq<char>>,
    pub icons: Seq<(Seq<char>, Seq<Place>)>,
}

pub open spec fn names_view(v: Seq<IconNames>) -> Seq<(Seq<char>, Seq<Place>)> {
    v.map_values(|n: IconNames| (n.name@, n.places@))
}

impl View for IconTheme {
    type V = IconThemeView;

    closed spec fn view(&self) -> IconThemeView {
        IconThemeView {
            name: self.name@,
            inherits: strings_view(self.inherits@),
            dirs: dirs_view(self.dirs@),
            roots: strings_view(self.roots@),
            icons: names_view(self.icons@),
        }
    }
}

/// Index of the entry for `name`; the length when there is none.
pub open spec fn name_index(icons: Seq<(Seq<char>, Seq<Place>)>, name: Seq<char>) -> int
    decreases icons.len(),
{
    if icons.len() == 0 {
        0
    } else if icons[0].0 == name {
        0
    } else {
        name_index(icons.drop_first(), name) + 1
    }
}

proof fn lemma_name_index(icons: Seq<(Seq<char>, Seq<Place>)>, name: Seq<char>, i: int)
    requires
        0 <= i <= icons.len(),
        i < icons.len() ==> icons[i].0 == name,
        forall|j: int| 0 <= j < i ==> #[trigger] icons[j].0 != name,
    ensures
        name_index(icons, name) == i,
    decreases icons.len(),
{
    if icons.len() > 0 && i > 0 {
        assert(icons[0].0 != name);
        assert forall|j: int| 0 <= j < i - 1 implies #[trigger] icons.drop_first()[j].0 != name by {
            assert(icons.drop_first()[j] == icons[j + 1]);
        }
        lemma_name_index(icons.drop_first(), name, i - 1);
    }
}

/// The icons after one more file was seen in directory `dir` of root
/// `root`: files that are no `.svg` or `.png` are ignored.
pub open spec fn with_file(
    icons: Seq<(Seq<char>, Seq<Place>)>,
    root: usize,
    dir: usize,
    file: Seq<char>,
) -> Seq<(Seq<char>, Seq<Place>)> {
    match ext_of(file) {
        None => icons,
        Some((stem, ext)) => {
            let place = Place { root, dir, ext };
            let i = name_index(icons, stem);
            if i < icons.len() {
                icons.update(i, (stem, icons[i].1.push(place)))
            } else {
                icons.push((stem, seq![place]))
            }
        },
    }
}

/// The better of two places for an exact match: scalable-friendly svg
/// before png, else the first seen.
pub open spec fn prefer_svg(a: Place, b: Place) -> bool {
    a.ext == Ext::Svg && b.ext != Ext::Svg
}

/// Closer to the size wins, then svg over png, else the first seen.
pub open spec fn nearer(dirs: Seq<IconDirView>, size: int, a: Place, b: Place) -> bool {
    let da = dir_distance(dirs[a.dir as int], size);
    let db = dir_distance(dirs[b.dir as int], size);
    da < db || (da == db && a.ext == Ext::Svg && b.ext != Ext::Svg)
}

/// A place whose root and directory exist, at scale 1.
pub open spec fn usable(t: IconThemeView, p: Place) -> bool {
    p.root < t.roots.len() && p.dir < t.dirs.len() && t.dirs[p.dir as int].scale == 1
}

/// The first place `ok` accepts that no later accepted place beats.
pub open spec fn pick(
    ps: Seq<Place>,
    ok: spec_fn(Place) -> bool,
    better: spec_fn(Place, Place) -> bool,
) -> Option<Place>
    decreases ps.len(),
{
    if ps.len() == 0 {
        None
    } else {
        let b = pick(ps.drop_last(), ok, better);
        let x = ps.last();
        if !ok(x) {
            b
        } else {
            match b {
                None => Some(x),
                Some(y) => if better(x, y) {
                    Some(x)
                } else {
                    Some(y)
                },
            }
        }
    }
}

pub open spec fn exact_ok(t: IconThemeView, size: int) -> spec_fn(Place) -> bool {
    |p: Place| usable(t, p) && dir_matches(t.dirs[p.dir as int], size)
}

pub open spec fn usable_ok(t: IconThemeView) -> spec_fn(Place) -> bool {
    |p: Place| usable(t, p)
}

pub open spec fn svg_first() -> spec_fn(Place, Place) -> bool {
    |a: Place, b: Place| prefer_svg(a, b)
}

pub open spec fn nearer_first(t: IconThemeView, size: int) -> spec_fn(Place, Place) -> bool {
    |a: Place, b: Place| nearer(t.dirs, size, a, b)
}

/// `<root>/<dir>/<name>.<ext>` for a place.
pub open spec fn place_path(t: IconThemeView, name: Seq<char>, p: Place) -> Seq<char> {
    join(
        join(t.roots[p.root as int], t.dirs[p.dir as int].rel),
        name + seq!['.'] + (match p.ext {
            Ext::Svg => "svg"@,
            Ext::Png => "png"@,
        }),
    )
}

/// A directory is at distance 0 from a size exactly when its icons
/// match that size; otherwise it is some way off.
pub proof fn distance_is_zero_exactly_on_a_match(d: IconDirView, size: int)
    requires
        size >= 0,
    ensures
        dir_distance(d, size) >= 0,
        (dir_distance(d, size) == 0) == dir_matches(d, size),
{
}

/// A fixed-size directory is as far from a size as the two sizes are
/// apart, whichever is larger: a 48 directory is 24 away from 24, as a
/// 24 directory is from 48.
pub proof fn a_fixed_directory_is_as_far_as_the_sizes_differ(d: IconDirView, size: int)
    requires
        d.kind == DirKind::Fixed,
    ensures
        dir_distance(d, size) >= d.size - size,
        dir_distance(d, size) >= size - d.size,
        dir_distance(d, size) == d.size - size || dir_distance(d, size) == size - d.size,
        size >= 0 && size <= u32::MAX ==> dir_distance(d, size) == dir_distance(
            IconDirView { size: size as u32, ..d },
            d.size as int,
        ),
{
}

/// The sizes a directory serves exactly, lowest and highest: one size
/// for a fixed directory, its range for a scalable one, the size give
/// or take the threshold (not below 0) for a threshold one.
pub open spec fn served_range(d: IconDirView) -> (int, int) {
    match d.kind {
        DirKind::Fixed => (d.size as int, d.size as int),
        DirKind::Scalable { min, max } => (min as int, max as int),
        DirKind::Threshold(t) => (if d.size >= t { d.size - t } else { 0 }, d.size + t),
    }
}

/// A directory is as far from a size as the nearest size it serves
/// exactly: no size it serves is nearer, and one is that near (when it
/// serves any).
pub proof fn distance_is_to_the_nearest_size_served(d: IconDirView, size: int, x: int)
    requires
        size >= 0,
        served_range(d).0 <= x <= served_range(d).1,
    ensures
        dir_distance(d, size) <= (if x >= size { x - size } else { size - x }),
        size < served_range(d).0 ==> dir_distance(d, size) == served_range(d).0 - size,
        size > served_range(d).1 ==> dir_distance(d, size) == size - served_range(d).1,
        served_range(d).0 <= size <= served_range(d).1 ==> dir_distance(d, size) == 0,
{
}

proof fn lemma_pick(ps: Seq<Place>, ok: spec_fn(Place) -> bool, better: spec_fn(Place, Place) -> bool)
    requires
        forall|a: Place, b: Place, c: Place| #[trigger] better(a, b) && #[trigger] better(b, c) ==> better(a, c),
        forall|a: Place| !#[trigger] better(a, a),
    ensures
        pick(ps, ok, better) is None <==> (forall|k: int| 0 <= k < ps.len() ==> !ok(#[trigger] ps[k])),
        pick(ps, ok, better) matches Some(p) ==> ok(p) && ps.contains(p) && (forall|k: int|
            0 <= k < ps.len() && ok(#[trigger] ps[k]) ==> !better(ps[k], p)),
    decreases ps.len(),
{
    if ps.len() > 0 {
        let rest = ps.drop_last();
        lemma_pick(rest, ok, better);
        let x = ps.last();
        assert forall|k: int| 0 <= k < rest.len() implies #[trigger] rest[k] == ps[k] by {}
        match pick(rest, ok, better) {
            Some(y) => {
                let k0 = choose|k: int| 0 <= k < rest.len() && rest[k] == y;
                assert(ps[k0] == y);
                if ok(x) && better(x, y) {
                    assert forall|k: int| 0 <= k < ps.len() && ok(#[trigger] ps[k]) implies !better(ps[k], x) by {
                        if k < rest.len() {
                            assert(rest[k] == ps[k]);
                            if better(ps[k], x) {
                                assert(better(ps[k], y));
                            }
                        }
                    }
                    assert(ps[ps.len() - 1] == x);
                } else {
                    assert forall|k: int| 0 <= k < ps.len() && ok(#[trigger] ps[k]) implies !better(ps[k], y) by {
                        if k < rest.len() {
                            assert(rest[k] == ps[k]);
                        } else {
                            assert(ps[k] == x);
                        }
                    }
                }
            },
            None => {
                if ok(x) {
                    assert(ps[ps.len() - 1] == x);
                    assert forall|k: int| 0 <= k < ps.len() && ok(#[trigger] ps[k]) implies !better(ps[k], x) by {
                        if k < rest.len() {
                            assert(rest[k] == ps[k]);
                        }
                    }
                } else {
                    assert forall|k: int| 0 <= k < ps.len() implies !ok(#[trigger] ps[k]) by {
                        if k < rest.len() {
                            assert(rest[k] == ps[k]);
                        }
                    }
                }
            },
        }
    }
}

/// With no directory matching the size exactly, a lookup serves the
/// icon from a usable place no other usable place of it is nearer
/// than; between fixed-size directories, the one whose size is
/// nearest the size asked.
pub proof fn the_nearest_directory_serves(t: IconThemeView, name: Seq<char>, size: int, q: Place)
    requires
        size >= 0,
        name_index(t.icons, name) < t.icons.len(),
        t.icons[name_index(t.icons, name)].1.contains(q),
        usable(t, q),
        forall|k: int|
            0 <= k < t.icons[name_index(t.icons, name)].1.len() && usable(t, #[trigger] t.icons[name_index(t.icons, name)].1[k])
                ==> !dir_matches(t.dirs[t.icons[name_index(t.icons, name)].1[k].dir as int], size),
    ensures
        exists|p: Place|
            #![trigger place_path(t, name, p)]
            t.icons[name_index(t.icons, name)].1.contains(p) && usable(t, p) && theme_lookup(t, name, size) == Some(
                place_path(t, name, p),
            ) && dir_distance(t.dirs[p.dir as int], size) <= dir_distance(t.dirs[q.dir as int], size) && (
            t.dirs[p.dir as int].kind == DirKind::Fixed && t.dirs[q.dir as int].kind == DirKind::Fixed ==> {
                let dp = t.dirs[p.dir as int].size as int;
                let dq = t.dirs[q.dir as int].size as int;
                (if dp >= size { dp - size } else { size - dp }) <= (if dq >= size { dq - size } else { size - dq })
            }),
{
    let ps = t.icons[name_index(t.icons, name)].1;
    let ex = exact_ok(t, size);
    let us = usable_ok(t);
    let sv = svg_first();
    let nf = nearer_first(t, size);
    assert forall|a: Place, b: Place, c: Place| #[trigger] sv(a, b) && #[trigger] sv(b, c) implies sv(a, c) by {}
    assert forall|a: Place, b: Place, c: Place| #[trigger] nf(a, b) && #[trigger] nf(b, c) implies nf(a, c) by {}
    lemma_pick(ps, ex, sv);
    lemma_pick(ps, us, nf);
    assert forall|k: int| 0 <= k < ps.len() implies !ex(#[trigger] ps[k]) by {}
    let k0 = choose|k: int| 0 <= k < ps.len() && ps[k] == q;
    assert(us(ps[k0]));
    let p = pick(ps, us, nf)->0;
    assert(!nf(ps[k0], p));
    if t.dirs[p.dir as int].kind == DirKind::Fixed && t.dirs[q.dir as int].kind == DirKind::Fixed {
        a_fixed_directory_is_as_far_as_the_sizes_differ(t.dirs[p.dir as int], size);
        a_fixed_directory_is_as_far_as_the_sizes_differ(t.dirs[q.dir as int], size);
    }
    assert(theme_lookup(t, name, size) == Some(place_path(t, name, p)));
}

/// Best file for `name` at `size` in a theme: an exact size match (svg
/// first), else the closest directory; scale-2 directories never serve.
pub open spec fn theme_lookup(t: IconThemeView, name: Seq<char>, size: int) -> Option<Seq<char>> {
    let i = name_index(t.icons, name);
    if i < t.icons.len() {
        let ps = t.icons[i].1;
        match pick(ps, exact_ok(t, size), svg_first()) {
            Some(p) => Some(place_path(t, name, p)),
            None => match pick(ps, usable_ok(t), nearer_first(t, size)) {
                Some(p) => Some(place_path(t, name, p)),
                None => None,
            },
        }
    } else {
        None
    }
}

impl IconTheme {
    /// A theme from its `index.theme` and the roots it was found under,
    /// with no icon seen yet.
    pub fn new(name: &str, index: &str, roots: Vec<String>) -> (r: IconTheme)
        ensures
            r@.name == name@,
            (r@.inherits, r@.dirs) == index_of(index@),
            r@.roots == strings_view(roots@),
            r@.icons.len() == 0,
    {
        let (inherits, dirs) = parse_index(index);
        let r = IconTheme { name: crate::text::owned(name), inherits, dirs, roots, icons: Vec::new() };
        assert(names_view(r.icons@) =~= Seq::<(Seq<char>, Seq<Place>)>::empty());
        r
    }

    fn find(&self, name: &String) -> (r: usize)
        ensures
            r == name_index(self@.icons, name@),
            r <= self.icons.len(),
    {
        let ghost iv = names_view(self.icons@);
        let mut i: usize = 0;
        while i < self.icons.len() && !crate::notifications::str_eq_string(&self.icons[i].name, name)
            invariant
                i <= self.icons.len(),
                iv == names_view(self.icons@),
                forall|j: int| 0 <= j < i ==> #[trigger] iv[j].0 != name@,
            decreases self.icons.len() - i,
        {
            assert(iv[i as int].0 == self.icons@[i as int].name@);
            i = i + 1;
        }
        proof {
            if i < self.icons.len() {
                assert(iv[i as int].0 == self.icons@[i as int].name@);
            }
            lemma_name_index(iv, name@, i as int);
        }
        i
    }

    /// One file seen in directory `dir` of root `root` while scanning.
    pub fn add_file(&mut self, root: usize, dir: usize, file: &str)
        ensures
            final(self)@ == (IconThemeView { icons: with_file(old(self)@.icons, root, dir, file@), ..old(self)@ }),
    {
        let (stem, ext) = match Ext::of(file) {
            Some(se) => se,
            None => return,
        };
        let place = Place { root, dir, ext };
        let i = self.find(&stem);
        let ghost iv = names_view(self.icons@);
        if i < self.icons.len() {
            let mut places: Vec<Place> = Vec::new();
            let old_places = &self.icons[i].places;
            let mut k: usize = 0;
            while k < old_places.len()
                invariant
                    k <= old_places.len(),
                    places@ == old_places@.take(k as int),
                decreases old_places.len() - k,
            {
                places.push(old_places[k]);
                assert(old_places@.take(k + 1) =~= old_places@.take(k as int).push(old_places@[k as int]));
                k = k + 1;
            }
            assert(old_places@.take(old_places.len() as int) =~= old_places@);
            assert(iv[i as int] == (self.icons@[i as int].name@, self.icons@[i as int].places@));
            places.push(place);
            self.icons.set(i, IconNames { name: stem, places });
            assert(names_view(self.icons@) =~= iv.update(i as int, (stem@, iv[i as int].1.push(place))));
        } else {
            let mut places: Vec<Place> = Vec::new();
            places.push(place);
            self.icons.push(IconNames { name: stem, places });
            assert(names_view(self.icons@) =~= iv.push((stem@, seq![place])));
        }
    }

    /// How many distinct icon names the theme has.
    pub fn icon_count(&self) -> (r: usize)
        ensures
            r == self@.icons.len(),
    {
        self.icons.len()
    }

    fn pick_places(&self, ps: &Vec<Place>, size: u32, exact: bool) -> (r: Option<Place>)
        ensures
            r == (if exact {
                pick(ps@, exact_ok(self@, size as int), svg_first())
            } else {
                pick(ps@, usable_ok(self@), nearer_first(self@, size as int))
            }),
            r matches Some(p) ==> usable(self@, p),
    {
        let ghost ok = if exact { exact_ok(self@, size as int) } else { usable_ok(self@) };
        let ghost better = if exact { svg_first() } else { nearer_first(self@, size as int) };
        let mut best: Option<Place> = None;
        let mut best_dist: u32 = 0;
        let mut i: usize = 0;
        assert(ps@.take(0) =~= Seq::<Place>::empty());
        while i < ps.len()
            invariant
                i <= ps.len(),
                ok == (if exact { exact_ok(self@, size as int) } else { usable_ok(self@) }),
                better == (if exact { svg_first() } else { nearer_first(self@, size as int) }),
                best == pick(ps@.take(i as int), ok, better),
                best matches Some(b) ==> b.dir < self@.dirs.len() && best_dist == dir_distance(self@.dirs[b.dir as int], size as int),
                best matches Some(b) ==> usable(self@, b),
            decreases ps.len() - i,
        {
            let x = ps[i];
            assert(ps@.take(i + 1).drop_last() =~= ps@.take(i as int));
            assert(ps@.take(i + 1).last() == x);
            let usable_x = x.root < self.roots.len() && x.dir < self.dirs.len() && self.dirs[x.dir].scale == 1;
            assert(usable_x == usable(self@, x)) by {
                if x.dir < self.dirs.len() {
                    assert(self@.dirs[x.dir as int] == self.dirs@[x.dir as int]@);
                }
            }
            let okx = usable_x && (!exact || self.dirs[x.dir].matches(size));
            proof {
                if usable_x {
                    assert(self@.dirs[x.dir as int] == self.dirs@[x.dir as int]@);
                }
            }
            if okx {
                let dx = self.dirs[x.dir].distance(size);
                assert(self@.dirs[x.dir as int] == self.dirs@[x.dir as int]@);
                match best {
                    None => {
                        best = Some(x);
                        best_dist = dx;
                    },
                    Some(y) => {
                        let svg_over = x.ext == Ext::Svg && y.ext != Ext::Svg;
                        let wins = if exact { svg_over } else { dx < best_dist || (dx == best_dist && svg_over) };
                        if wins {
                            best = Some(x);
                            best_dist = dx;
                        }
                    },
                }
            }
            i = i + 1;
        }
        assert(ps@.take(ps.len() as int) =~= ps@);
        best
    }

    fn place_file(&self, name: &str, p: Place) -> (r: String)
        requires
            p.root < self@.roots.len(),
            p.dir < self@.dirs.len(),
        ensures
            r@ == place_path(self@, name@, p),
    {
        assert(self@.roots[p.root as int] == self.roots@[p.root as int]@);
        assert(self@.dirs[p.dir as int].rel == self.dirs@[p.dir as int].rel@);
        let base = join_path(self.roots[p.root].as_str(), self.dirs[p.dir].rel.as_str());
        let mut file = crate::text::owned(name);
        crate::text::push_char(&mut file, '.');
        let e = chars_of(p.ext.suffix());
        let mut k: usize = 0;
        let ghost f0 = file@;
        while k < e.len()
            invariant
                k <= e.len(),
                file@ == f0 + e@.take(k as int),
            decreases e.len() - k,
        {
            crate::text::push_char(&mut file, e[k]);
            assert(e@.take(k + 1) =~= e@.take(k as int).push(e@[k as int]));
            k = k + 1;
        }
        assert(e@.take(e.len() as int) =~= e@);
        join_path(base.as_str(), file.as_str())
    }

    /// Best file for `name` at `size` in this theme.
    pub fn lookup(&self, name: &str, size: u32) -> (r: Option<String>)
        ensures
            opt_string_view(r) == theme_lookup(self@, name@, size as int),
    {
        let n = crate::text::owned(name);
        let i = self.find(&n);
        if i >= self.icons.len() {
            return None;
        }
        let ghost ps = self@.icons[i as int].1;
        assert(ps == self.icons@[i as int].places@);
        match self.pick_places(&self.icons[i].places, size, true) {
            Some(p) => Some(self.place_file(name, p)),
            None => match self.pick_places(&self.icons[i].places, size, false) {
                Some(p) => Some(self.place_file(name, p)),
                None => None,
            },
        }
    }
}

pub open spec fn opt_string_view(o: Option<String>) -> Option<Seq<char>> {
    match o {
        Some(s) => Some(s@),
        None => None,
    }
}


// ---------------------------------------------------------------------
// The chain
// ---------------------------------------------------------------------

pub open spec fn themes_view(ts: Seq<IconTheme>) -> Seq<IconThemeView> {
    ts.map_values(|t: IconTheme| t@)
}

/// The name an icon is looked up by: `Icon=foo.png` happens, and the
/// spec says to strip the extension.
pub open spec fn lookup_name(name: Seq<char>) -> Seq<char> {
    match ext_of(name) {
        Some((stem, _)) => stem,
        None => name,
    }
}

/// The first theme of the chain that has the icon.
pub open spec fn chain_lookup(ts: Seq<IconThemeView>, name: Seq<char>, size: int) -> Option<Seq<char>>
    decreases ts.len(),
{
    if ts.len() == 0 {
        None
    } else {
        match theme_lookup(ts[0], name, size) {
            Some(p) => Some(p),
            None => chain_lookup(ts.drop_first(), name, size),
        }
    }
}

pub open spec fn total_icons(ts: Seq<IconThemeView>) -> int
    decreases ts.len(),
{
    if ts.len() == 0 {
        0
    } else {
        total_icons(ts.drop_last()) + ts.last().icons.len()
    }
}

/// The theme chain for one theme name, ready for lookups, and the
/// `pixmaps/` dirs, the pre-theme fallback location.
#[derive(Debug)]
pub struct IconIndex {
    themes: Vec<IconTheme>,
    pixmaps: Vec<String>,
}

pub struct IconIndexView {
    pub themes: Seq<IconThemeView>,
    pub pixmaps: Seq<Seq<char>>,
}

impl View for IconIndex {
    type V = IconIndexView;

    closed spec fn view(&self) -> IconIndexView {
        IconIndexView { themes: themes_view(self.themes@), pixmaps: strings_view(self.pixmaps@) }
    }
}

fn strip_ext(name: &str) -> (r: String)
    ensures
        r@ == lookup_name(name@),
{
    match Ext::of(name) {
        Some((stem, _)) => stem,
        None => crate::text::owned(name),
    }
}

fn with_suffix(name: &String, e: Ext) -> (r: String)
    ensures
        r@ == name@ + seq!['.'] + (match e {
            Ext::Svg => "svg"@,
            Ext::Png => "png"@,
        }),
{
    let mut file = name.clone();
    crate::text::push_char(&mut file, '.');
    let cs = chars_of(e.suffix());
    let ghost f0 = file@;
    let mut k: usize = 0;
    while k < cs.len()
        invariant
            k <= cs.len(),
            file@ == f0 + cs@.take(k as int),
        decreases cs.len() - k,
    {
        crate::text::push_char(&mut file, cs[k]);
        assert(cs@.take(k + 1) =~= cs@.take(k as int).push(cs@[k as int]));
        k = k + 1;
    }
    assert(cs@.take(cs.len() as int) =~= cs@);
    file
}

impl IconIndex {
    /// The names of the chain, in lookup order.
    pub fn theme_names(&self) -> (r: Vec<String>)
        ensures
            strings_view(r@) == self@.themes.map_values(|t: IconThemeView| t.name),
    {
        let ghost tv = themes_view(self.themes@);
        let mut r: Vec<String> = Vec::new();
        let mut i: usize = 0;
        while i < self.themes.len()
            invariant
                i <= self.themes.len(),
                tv == themes_view(self.themes@),
                strings_view(r@) == tv.take(i as int).map_values(|t: IconThemeView| t.name),
            decreases self.themes.len() - i,
        {
            let ghost prev = strings_view(r@);
            r.push(self.themes[i].name.clone());
            assert(tv[i as int].name == self.themes@[i as int].name@);
            assert(strings_view(r@) =~= prev.push(self.themes@[i as int].name@));
            assert(tv.take(i + 1).map_values(|t: IconThemeView| t.name)
                =~= tv.take(i as int).map_values(|t: IconThemeView| t.name).push(tv[i as int].name));
            i = i + 1;
        }
        assert(tv.take(self.themes.len() as int) =~= tv);
        r
    }

    /// How many icon names the chain knows, counting a name once per
    /// theme (saturating at `usize::MAX`).
    pub fn icon_count(&self) -> (r: usize)
        ensures
            r == (if total_icons(self@.themes) <= usize::MAX { total_icons(self@.themes) } else { usize::MAX as int }),
    {
        let ghost tv = themes_view(self.themes@);
        let mut n: usize = 0;
        let mut i: usize = 0;
        while i < self.themes.len()
            invariant
                i <= self.themes.len(),
                tv == themes_view(self.themes@),
                n == (if total_icons(tv.take(i as int)) <= usize::MAX { total_icons(tv.take(i as int)) } else { usize::MAX as int }),
            decreases self.themes.len() - i,
        {
            let c = self.themes[i].icon_count();
            assert(tv.take(i + 1).drop_last() =~= tv.take(i as int));
            proof { lemma_total_icons_grows(tv.take(i as int)); }
            n = n.saturating_add(c);
            i = i + 1;
        }
        assert(tv.take(self.themes.len() as int) =~= tv);
        n
    }

    /// The file for icon `name` at `size` pixels: the first theme in
    /// the chain that has it. Absolute names and the `pixmaps/`
    /// fallback need the file system and are the caller's.
    pub fn theme_lookup(&self, name: &str, size: u32) -> (r: Option<String>)
        ensures
            opt_string_view(r) == chain_lookup(self@.themes, lookup_name(name@), size as int),
    {
        let stem = strip_ext(name);
        let ghost tv = themes_view(self.themes@);
        let mut i: usize = 0;
        assert(tv.skip(0) =~= tv);
        while i < self.themes.len()
            invariant
                i <= self.themes.len(),
                tv == themes_view(self.themes@),
                stem@ == lookup_name(name@),
                chain_lookup(tv, stem@, size as int) == chain_lookup(tv.skip(i as int), stem@, size as int),
            decreases self.themes.len() - i,
        {
            assert(tv.skip(i as int)[0] == self.themes@[i as int]@);
            let found = self.themes[i].lookup(stem.as_str(), size);
            if found.is_some() {
                return found;
            }
            assert(tv.skip(i as int).drop_first() =~= tv.skip(i + 1));
            i = i + 1;
        }
        None
    }

    /// The `pixmaps/` files to try, in order, for icon `name`:
    /// `<dir>/<name>.svg` then `.png`, for each dir.
    pub fn pixmap_candidates(&self, name: &str) -> (r: Vec<String>)
        ensures
            strings_view(r@) == pixmap_files(self@.pixmaps, lookup_name(name@)),
    {
        let stem = strip_ext(name);
        let svg = with_suffix(&stem, Ext::Svg);
        let png = with_suffix(&stem, Ext::Png);
        let ghost ps = strings_view(self.pixmaps@);
        let mut r: Vec<String> = Vec::new();
        let mut i: usize = 0;
        assert(ps.take(0) =~= Seq::<Seq<char>>::empty());
        assert(strings_view(r@) =~= Seq::<Seq<char>>::empty());
        while i < self.pixmaps.len()
            invariant
                i <= self.pixmaps.len(),
                ps == strings_view(self.pixmaps@),
                svg@ == stem@ + seq!['.'] + "svg"@,
                png@ == stem@ + seq!['.'] + "png"@,
                stem@ == lookup_name(name@),
                strings_view(r@) == pixmap_files(ps.take(i as int), stem@),
            decreases self.pixmaps.len() - i,
        {
            assert(ps.take(i + 1).drop_last() =~= ps.take(i as int));
            assert(ps.take(i + 1).last() == self.pixmaps@[i as int]@);
            let ghost r0 = strings_view(r@);
            let a = join_path(self.pixmaps[i].as_str(), svg.as_str());
            let b = join_path(self.pixmaps[i].as_str(), png.as_str());
            let ghost av = a@;
            let ghost bv = b@;
            r.push(a);
            r.push(b);
            assert(strings_view(r@) =~= r0.push(av).push(bv));
            i = i + 1;
        }
        assert(ps.take(self.pixmaps.len() as int) =~= ps);
        r
    }

    /// Every directory the index was built from, to watch for changes:
    /// each theme root, then its directories under it. The caller keeps
    /// the ones that exist, then adds the pixmap dirs.
    pub fn watch_candidates(&self) -> (r: Vec<String>)
        ensures
            strings_view(r@) == watch_list(self@.themes),
    {
        let ghost tv = themes_view(self.themes@);
        let mut r: Vec<String> = Vec::new();
        let mut i: usize = 0;
        assert(tv.take(0) =~= Seq::<IconThemeView>::empty());
        assert(strings_view(r@) =~= Seq::<Seq<char>>::empty());
        while i < self.themes.len()
            invariant
                i <= self.themes.len(),
                tv == themes_view(self.themes@),
                strings_view(r@) == watch_list(tv.take(i as int)),
            decreases self.themes.len() - i,
        {
            assert(tv.take(i + 1).drop_last() =~= tv.take(i as int));
            assert(tv.take(i + 1).last() == self.themes@[i as int]@);
            let t = &self.themes[i];
            let ghost tt = t@;
            let ghost base = strings_view(r@);
            let mut k: usize = 0;
            assert(tt.roots.take(0) =~= Seq::<Seq<char>>::empty());
            assert(base =~= base + roots_watch(tt.roots.take(0), tt.dirs));
            while k < t.roots.len()
                invariant
                    k <= t.roots.len(),
                    tt == t@,
                    strings_view(r@) == base + roots_watch(tt.roots.take(k as int), tt.dirs),
                decreases t.roots.len() - k,
            {
                assert(tt.roots.take(k + 1).drop_last() =~= tt.roots.take(k as int));
                assert(tt.roots.take(k + 1).last() == t.roots@[k as int]@);
                let ghost before = strings_view(r@);
                r.push(t.roots[k].clone());
                let mut d: usize = 0;
                assert(before.push(t.roots@[k as int]@) =~= before.push(t.roots@[k as int]@) + dirs_under(t.roots@[k as int]@, tt.dirs.take(0)));
                while d < t.dirs.len()
                    invariant
                        d <= t.dirs.len(),
                        tt == t@,
                        k < t.roots.len(),
                        strings_view(r@) == before.push(t.roots@[k as int]@) + dirs_under(t.roots@[k as int]@, tt.dirs.take(d as int)),
                    decreases t.dirs.len() - d,
                {
                    assert(tt.dirs.take(d + 1).drop_last() =~= tt.dirs.take(d as int));
                    assert(tt.dirs.take(d + 1).last().rel == t.dirs@[d as int].rel@);
                    let ghost prev = strings_view(r@);
                    r.push(join_path(t.roots[k].as_str(), t.dirs[d].rel.as_str()));
                    assert(strings_view(r@) =~= prev.push(join(t.roots@[k as int]@, t.dirs@[d as int].rel@)));
                    d = d + 1;
                }
                assert(tt.dirs.take(t.dirs.len() as int) =~= tt.dirs);
                k = k + 1;
            }
            assert(tt.roots.take(t.roots.len() as int) =~= tt.roots);
            i = i + 1;
        }
        assert(tv.take(self.themes.len() as int) =~= tv);
        r
    }
}

/// `<dir>/<stem>.svg` and `<dir>/<stem>.png` for each dir, in order.
pub open spec fn pixmap_files(dirs: Seq<Seq<char>>, stem: Seq<char>) -> Seq<Seq<char>>
    decreases dirs.len(),
{
    if dirs.len() == 0 {
        seq![]
    } else {
        pixmap_files(dirs.drop_last(), stem)
            .push(join(dirs.last(), stem + seq!['.'] + "svg"@))
            .push(join(dirs.last(), stem + seq!['.'] + "png"@))
    }
}

proof fn lemma_last_index_past(s: Seq<char>, t: Seq<char>, c: char)
    requires
        !t.contains(c),
    ensures
        crate::text::last_index(s + t, c) == crate::text::last_index(s, c),
    decreases t.len(),
{
    if t.len() == 0 {
        assert(s + t =~= s);
    } else {
        assert((s + t).last() == t.last());
        assert((s + t).drop_last() =~= s + t.drop_last());
        assert(!t.drop_last().contains(c)) by {
            if t.drop_last().contains(c) {
                let k = choose|k: int| 0 <= k < t.drop_last().len() && t.drop_last()[k] == c;
                assert(t[k] == c);
            }
        }
        lemma_last_index_past(s, t.drop_last(), c);
    }
}

/// `stem` followed by a dot and `ext` is read back as `stem` with that
/// extension.
proof fn lemma_named_file(stem: Seq<char>, ext: Seq<char>, e: Ext)
    requires
        ext == (match e {
            Ext::Svg => "svg"@,
            Ext::Png => "png"@,
        }),
    ensures
        ext_of(stem + seq!['.'] + ext) == Some((stem, e)),
{
    reveal_strlit("svg");
    reveal_strlit("png");
    let named = stem + seq!['.'] + ext;
    let dotted = stem + seq!['.'];
    assert(!ext.contains('.')) by {
        if ext.contains('.') {
            let k = choose|k: int| 0 <= k < ext.len() && ext[k] == '.';
            assert(ext[k] == '.');
        }
    }
    lemma_last_index_past(dotted, ext, '.');
    assert(dotted.last() == '.');
    assert(crate::text::last_index(dotted, '.') == Some(stem.len() as int));
    assert(crate::text::last_index(named, '.') == Some(stem.len() as int));
    assert(named.skip(stem.len() as int + 1) =~= ext);
    assert(named.take(stem.len() as int) =~= stem);
    assert("svg"@ != "png"@) by {
        assert("svg"@[0] != "png"@[0]);
    }
}

/// A name with neither extension has no extension to strip.
proof fn lemma_plain_name(stem: Seq<char>)
    requires
        !crate::text::ends_with(stem, ".png"@),
        !crate::text::ends_with(stem, ".svg"@),
    ensures
        ext_of(stem) is None,
{
    reveal_strlit("svg");
    reveal_strlit("png");
    reveal_strlit(".svg");
    reveal_strlit(".png");
    crate::text::lemma_last_index_bound(stem, '.');
    match crate::text::last_index(stem, '.') {
        Some(p) => {
            let e = stem.skip(p + 1);
            if e == "svg"@ || e == "png"@ {
                assert(e.len() == 3);
                assert(p == stem.len() - 4);
                let tail = stem.skip(stem.len() - 4);
                assert(tail[0] == '.');
                assert(tail[1] == e[0] && tail[2] == e[1] && tail[3] == e[2]);
                if e == "svg"@ {
                    assert(tail =~= ".svg"@);
                } else {
                    assert(tail =~= ".png"@);
                }
            }
        },
        None => {},
    }
}

/// An icon named with a `.png` or `.svg` extension is looked up as its
/// stem: the theme chain and the `pixmaps/` candidates are the same
/// for `stem.png`, `stem.svg` and `stem`, for a stem that carries
/// neither extension itself.
pub proof fn an_extension_looks_up_as_its_stem(idx: IconIndexView, stem: Seq<char>, size: int)
    requires
        !crate::text::ends_with(stem, ".png"@),
        !crate::text::ends_with(stem, ".svg"@),
    ensures
        lookup_name(stem) == stem,
        lookup_name(stem + ".png"@) == stem,
        lookup_name(stem + ".svg"@) == stem,
        chain_lookup(idx.themes, lookup_name(stem + ".png"@), size)
            == chain_lookup(idx.themes, lookup_name(stem), size),
        chain_lookup(idx.themes, lookup_name(stem + ".svg"@), size)
            == chain_lookup(idx.themes, lookup_name(stem), size),
        pixmap_files(idx.pixmaps, lookup_name(stem + ".png"@))
            == pixmap_files(idx.pixmaps, lookup_name(stem)),
        pixmap_files(idx.pixmaps, lookup_name(stem + ".svg"@))
            == pixmap_files(idx.pixmaps, lookup_name(stem)),
{
    reveal_strlit("svg");
    reveal_strlit("png");
    reveal_strlit(".svg");
    reveal_strlit(".png");
    lemma_plain_name(stem);
    lemma_named_file(stem, "png"@, Ext::Png);
    lemma_named_file(stem, "svg"@, Ext::Svg);
    assert(stem + ".png"@ =~= stem + seq!['.'] + "png"@);
    assert(stem + ".svg"@ =~= stem + seq!['.'] + "svg"@);
}

pub open spec fn dirs_under(root: Seq<char>, dirs: Seq<IconDirView>) -> Seq<Seq<char>>
    decreases dirs.len(),
{
    if dirs.len() == 0 {
        seq![]
    } else {
        dirs_under(root, dirs.drop_last()).push(join(root, dirs.last().rel))
    }
}

pub open spec fn roots_watch(roots: Seq<Seq<char>>, dirs: Seq<IconDirView>) -> Seq<Seq<char>>
    decreases roots.len(),
{
    if roots.len() == 0 {
        seq![]
    } else {
        roots_watch(roots.drop_last(), dirs).push(roots.last()) + dirs_under(roots.last(), dirs)
    }
}

pub open spec fn watch_list(ts: Seq<IconThemeView>) -> Seq<Seq<char>>
    decreases ts.len(),
{
    if ts.len() == 0 {
        seq![]
    } else {
        watch_list(ts.drop_last()) + roots_watch(ts.last().roots, ts.last().dirs)
    }
}

proof fn lemma_total_icons_grows(ts: Seq<IconThemeView>)
    ensures
        total_icons(ts) >= 0,
    decreases ts.len(),
{
    if ts.len() > 0 {
        lemma_total_icons_grows(ts.drop_last());
    }
}


/// The queue with its leading already-seen names dropped.
pub open spec fn skip_seen(queue: Seq<Seq<char>>, seen: Seq<Seq<char>>) -> Seq<Seq<char>>
    decreases queue.len(),
{
    if queue.len() > 0 && seen.contains(queue[0]) {
        skip_seen(queue.drop_first(), seen)
    } else {
        queue
    }
}

/// Building the chain: the themes still to try, the names already
/// tried, and the themes found. The caller loads each name that
/// [`ThemeChain::next`] hands out and reports with
/// [`ThemeChain::loaded`]; a theme's parents go right after it, and
/// `hicolor` comes last.
#[derive(Debug)]
pub struct ThemeChain {
    queue: Vec<String>,
    seen: Vec<String>,
    themes: Vec<IconTheme>,
}

pub struct ThemeChainView {
    pub queue: Seq<Seq<char>>,
    pub seen: Seq<Seq<char>>,
    pub themes: Seq<IconThemeView>,
}

impl View for ThemeChain {
    type V = ThemeChainView;

    closed spec fn view(&self) -> ThemeChainView {
        ThemeChainView {
            queue: strings_view(self.queue@),
            seen: strings_view(self.seen@),
            themes: themes_view(self.themes@),
        }
    }
}

impl ThemeChain {
    /// The chain for theme `name`: it is tried first.
    pub fn new(name: &str) -> (r: ThemeChain)
        ensures
            r@.queue == seq![name@],
            r@.seen.len() == 0,
            r@.themes.len() == 0,
    {
        let mut queue: Vec<String> = Vec::new();
        queue.push(crate::text::owned(name));
        let r = ThemeChain { queue, seen: Vec::new(), themes: Vec::new() };
        assert(strings_view(r.queue@) =~= seq![name@]);
        assert(strings_view(r.seen@) =~= Seq::<Seq<char>>::empty());
        assert(themes_view(r.themes@) =~= Seq::<IconThemeView>::empty());
        r
    }

    /// The next theme to load: names already tried are skipped, so each
    /// name is handed out once.
    pub fn next(&mut self) -> (r: Option<String>)
        ensures
            ({
                let q = skip_seen(old(self)@.queue, old(self)@.seen);
                &&& final(self)@.themes == old(self)@.themes
                &&& q.len() == 0 ==> r is None && final(self)@.queue.len() == 0 && final(self)@.seen == old(self)@.seen
                &&& q.len() > 0 ==> (r matches Some(n) && n@ == q[0] && !old(self)@.seen.contains(n@)
                    && final(self)@.queue == q.drop_first()
                    && final(self)@.seen == old(self)@.seen.push(n@))
            }),
    {
        let ghost seen = strings_view(self.seen@);
        let ghost q0 = skip_seen(strings_view(self.queue@), seen);
        while self.queue.len() > 0
            invariant
                seen == strings_view(self.seen@),
                q0 == skip_seen(strings_view(self.queue@), seen),
                q0 == skip_seen(old(self)@.queue, old(self)@.seen),
                themes_view(self.themes@) == old(self)@.themes,
                strings_view(self.seen@) == old(self)@.seen,
            decreases self.queue.len(),
        {
            let ghost qv = strings_view(self.queue@);
            let n = self.queue.remove(0);
            assert(strings_view(self.queue@) =~= qv.drop_first());
            assert(qv[0] == n@);
            if !contains_string(&self.seen, &n) {
                assert(skip_seen(qv, seen) == qv);
                let ghost s0 = strings_view(self.seen@);
                self.seen.push(n.clone());
                assert(strings_view(self.seen@) =~= s0.push(n@));
                return Some(n);
            }
        }
        assert(strings_view(self.queue@) =~= Seq::<Seq<char>>::empty());
        None
    }

    /// The outcome of loading the name [`ThemeChain::next`] gave: a
    /// theme found joins the chain and its parents are tried next; when
    /// nothing is left to try and `hicolor` was not tried, it is.
    pub fn loaded(&mut self, theme: Option<IconTheme>)
        ensures
            ({
                let q = match theme {
                    Some(t) => t@.inherits + old(self)@.queue,
                    None => old(self)@.queue,
                };
                &&& final(self)@.seen == old(self)@.seen
                &&& final(self)@.themes == (match theme {
                    Some(t) => old(self)@.themes.push(t@),
                    None => old(self)@.themes,
                })
                &&& final(self)@.queue == (if q.len() == 0 && !old(self)@.seen.contains("hicolor"@) {
                    seq!["hicolor"@]
                } else {
                    q
                })
            }),
    {
        match theme {
            Some(t) => {
                let ghost tv = t@;
                let mut parents: Vec<String> = Vec::new();
                let mut i: usize = 0;
                while i < t.inherits.len()
                    invariant
                        i <= t.inherits.len(),
                        tv == t@,
                        strings_view(parents@) == tv.inherits.take(i as int),
                    decreases t.inherits.len() - i,
                {
                    let ghost p0 = strings_view(parents@);
                    parents.push(t.inherits[i].clone());
                    assert(strings_view(parents@) =~= p0.push(t.inherits@[i as int]@));
                    assert(tv.inherits.take(i + 1) =~= tv.inherits.take(i as int).push(tv.inherits[i as int]));
                    i = i + 1;
                }
                assert(tv.inherits.take(t.inherits.len() as int) =~= tv.inherits);
                let ghost q0 = strings_view(self.queue@);
                let ghost p0 = strings_view(parents@);
                parents.append(&mut self.queue);
                assert(strings_view(parents@) =~= p0 + q0);
                self.queue = parents;
                let ghost th0 = themes_view(self.themes@);
                self.themes.push(t);
                assert(themes_view(self.themes@) =~= th0.push(tv));
            },
            None => {},
        }
        let hicolor = crate::text::owned("hicolor");
        if self.queue.len() == 0 && !contains_string(&self.seen, &hicolor) {
            self.queue.push(hicolor);
            assert(strings_view(self.queue@) =~= seq!["hicolor"@]);
        }
    }

    /// The finished index, with the `pixmaps/` dirs that exist.
    pub fn finish(self, pixmaps: Vec<String>) -> (r: IconIndex)
        ensures
            r@.themes == self@.themes,
            r@.pixmaps == strings_view(pixmaps@),
    {
        IconIndex { themes: self.themes, pixmaps }
    }
}

} // verus!
