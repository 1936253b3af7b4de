//! `aria.conf`: INI, case-sensitive section and key names, `[Name]` for
//! the default instance of a section and `[Name:id]` for additional
//! instances, empty values meaning "use the default".
//!
//! The INI text is read by `configparser` (see [`Config::parse`]); the
//! sections, their typed accessors and the defaults are this module's.
use vstd::prelude::*;

use crate::text::{
    ascii_lowercase, chars_of, eq_chars, eq_str, has_prefix, lower, owned, parse_u64,
    parse_u64_chars, slice_vec, split_ws, starts_with, string_of, views, words,
};

verus! {

broadcast use vstd::string::group_string_axioms;

/// Key/value pairs as character sequences.
pub type Pairs = Seq<(Seq<char>, Seq<char>)>;

/// The value of the first pair with key `k`.
pub open spec fn lookup(pairs: Pairs, k: Seq<char>) -> Option<Seq<char>>
    decreases pairs.len(),
{
    if pairs.len() == 0 {
        None
    } else if pairs[0].0 == k {
        Some(pairs[0].1)
    } else {
        lookup(pairs.drop_first(), k)
    }
}

pub open spec fn pair_view(p: (String, String)) -> (Seq<char>, Seq<char>) {
    (p.0@, p.1@)
}

/// Whether two strings hold the same characters.
pub fn str_eq(a: &str, b: &str) -> (r: bool)
    ensures
        r == (a@ == b@),
{
    let av = chars_of(a);
    eq_str(av.as_slice(), b)
}

/// The string map of one section, with typed accessors. Empty values
/// are treated as absent, so a user can leave `key =` to get the
/// default.
#[derive(Debug, Clone)]
pub struct RawSection {
    pairs: Vec<(String, String)>,
}

impl View for RawSection {
    type V = Pairs;

    closed spec fn view(&self) -> Pairs {
        self.pairs@.map_values(|p: (String, String)| pair_view(p))
    }
}

/// `1 on yes true` / `0 off no false`, exactly.
pub open spec fn bool_word(s: Seq<char>) -> Option<bool> {
    if s == "1"@ || s == "on"@ || s == "yes"@ || s == "true"@ {
        Some(true)
    } else if s == "0"@ || s == "off"@ || s == "no"@ || s == "false"@ {
        Some(false)
    } else {
        None
    }
}

/// The words that say yes: `1 on yes true`.
pub open spec fn yes_word(w: Seq<char>) -> bool {
    w == "1"@ || w == "on"@ || w == "yes"@ || w == "true"@
}

/// The words that say no: `0 off no false`.
pub open spec fn no_word(w: Seq<char>) -> bool {
    w == "0"@ || w == "off"@ || w == "no"@ || w == "false"@
}

proof fn lemma_words_differ()
    ensures
        !("0"@ == "1"@ || "0"@ == "on"@ || "0"@ == "yes"@ || "0"@ == "true"@),
        !("off"@ == "1"@ || "off"@ == "on"@ || "off"@ == "yes"@ || "off"@ == "true"@),
        !("no"@ == "1"@ || "no"@ == "on"@ || "no"@ == "yes"@ || "no"@ == "true"@),
        !("false"@ == "1"@ || "false"@ == "on"@ || "false"@ == "yes"@ || "false"@ == "true"@),
{
    reveal_strlit("0");
    reveal_strlit("1");
    reveal_strlit("on");
    reveal_strlit("off");
    reveal_strlit("yes");
    reveal_strlit("no");
    reveal_strlit("true");
    reveal_strlit("false");
    assert("0"@[0] != "1"@[0]);
    assert("off"@.len() != "on"@.len());
    assert("off"@[0] != "yes"@[0]);
    assert("no"@[0] != "on"@[0]);
    assert("false"@.len() != "true"@.len());
}

/// A setting written `0`, `off`, `no` or `false`, in any ASCII case,
/// is off whatever its default; `1`, `on`, `yes` or `true` is on; and
/// `parse_bool` reads those words, exactly as written, the same way.
pub proof fn boolean_words_decide_a_setting(raw: RawSection, key: Seq<char>, default: bool, w: Seq<char>)
    ensures
        no_word(w) ==> bool_word(w) == Some(false),
        yes_word(w) ==> bool_word(w) == Some(true),
        raw.value(key) matches Some(v) && no_word(lower(v)) ==> !raw.bool_setting(key, default),
        raw.value(key) matches Some(v) && yes_word(lower(v)) ==> raw.bool_setting(key, default),
        raw.value(key) is None ==> raw.bool_setting(key, default) == default,
{
    lemma_words_differ();
}

/// The default list of [`RawSection::list_or`].
pub open spec fn strs_view(v: Seq<&str>) -> Seq<Seq<char>> {
    v.map_values(|s: &str| s@)
}

pub open spec fn strings_view(v: Seq<String>) -> Seq<Seq<char>> {
    v.map_values(|s: String| s@)
}

/// Strings of a list of character vectors.
pub fn strings_of(v: &Vec<Vec<char>>) -> (r: Vec<String>)
    ensures
        strings_view(r@) == views(v@),
{
    let mut r: Vec<String> = Vec::new();
    let mut i: usize = 0;
    while i < v.len()
        invariant
            i <= v.len(),
            strings_view(r@) == views(v@).take(i as int),
        decreases v.len() - i,
    {
        let s = string_of(v[i].as_slice());
        let ghost old_r = r@;
        r.push(s);
        assert(strings_view(r@) =~= strings_view(old_r).push(s@));
        assert(views(v@).take(i + 1) =~= views(v@).take(i as int).push(v@[i as int]@));
        i = i + 1;
    }
    assert(views(v@).take(v.len() as int) =~= views(v@));
    r
}

/// Owned strings of a list of string slices.
pub fn owned_all(v: &[&str]) -> (r: Vec<String>)
    ensures
        strings_view(r@) == strs_view(v@),
{
    let mut r: Vec<String> = Vec::new();
    let mut i: usize = 0;
    while i < v.len()
        invariant
            i <= v.len(),
            strings_view(r@) == strs_view(v@).take(i as int),
        decreases v.len() - i,
    {
        let s = owned(v[i]);
        let ghost old_r = r@;
        r.push(s);
        assert(strings_view(r@) =~= strings_view(old_r).push(s@));
        assert(strs_view(v@).take(i + 1) =~= strs_view(v@).take(i as int).push(v@[i as int]@));
        i = i + 1;
    }
    assert(strs_view(v@).take(v.len() as int) =~= strs_view(v@));
    r
}

impl Default for RawSection {
    fn default() -> (r: RawSection)
        ensures
            r@ == Seq::<(Seq<char>, Seq<char>)>::empty(),
    {
        RawSection::new()
    }
}

impl RawSection {
    /// No keys.
    pub fn new() -> (r: RawSection)
        ensures
            r@ == Seq::<(Seq<char>, Seq<char>)>::empty(),
    {
        RawSection { pairs: Vec::new() }
    }

    /// A section holding `pairs`, in order.
    pub fn from_pairs(pairs: Vec<(String, String)>) -> (r: RawSection)
        ensures
            r@ == pairs@.map_values(|p: (String, String)| pair_view(p)),
    {
        RawSection { pairs }
    }

    /// The value of `key`, when present and not empty.
    /// What [`RawSection::bool_or`] reads for `key`.
    pub open spec fn bool_setting(&self, key: Seq<char>, default: bool) -> bool {
        match self.value(key) {
            None => default,
            Some(v) => match bool_word(lower(v)) {
                Some(b) => b,
                None => default,
            },
        }
    }

    pub open spec fn value(&self, key: Seq<char>) -> Option<Seq<char>> {
        match lookup(self@, key) {
            Some(v) => if v.len() > 0 {
                Some(v)
            } else {
                None
            },
            None => None,
        }
    }

    pub fn get(&self, key: &str) -> (r: Option<&str>)
        ensures
            match r {
                Some(v) => self.value(key@) == Some(v@),
                None => self.value(key@) is None,
            },
    {
        let mut i: usize = 0;
        assert(self@.skip(0) =~= self@);
        while i < self.pairs.len()
            invariant
                i <= self.pairs.len(),
                lookup(self@, key@) == lookup(self@.skip(i as int), key@),
            decreases self.pairs.len() - i,
        {
            let ghost rest = self@.skip(i as int);
            assert(rest[0] == pair_view(self.pairs@[i as int]));
            if str_eq(self.pairs[i].0.as_str(), key) {
                let v = self.pairs[i].1.as_str();
                if v.is_empty() {
                    return None;
                }
                return Some(v);
            }
            assert(rest.drop_first() =~= self@.skip(i + 1));
            i = i + 1;
        }
        assert(self@.skip(i as int).len() == 0);
        None
    }

    /// Every non-empty key/value pair, in order.
    pub fn iter(&self) -> (r: Vec<(String, String)>)
        ensures
            r@.map_values(|p: (String, String)| pair_view(p)) == self@.filter(
                |p: (Seq<char>, Seq<char>)| p.1.len() > 0,
            ),
    {
        let mut r: Vec<(String, String)> = Vec::new();
        let mut i: usize = 0;
        while i < self.pairs.len()
            invariant
                i <= self.pairs.len(),
                r@.map_values(|p: (String, String)| pair_view(p)) == self@.take(i as int).filter(
                    |p: (Seq<char>, Seq<char>)| p.1.len() > 0,
                ),
            decreases self.pairs.len() - i,
        {
            let ghost old_r = r@;
            assert(self@.take(i + 1).drop_last() =~= self@.take(i as int));
            reveal_with_fuel(Seq::filter, 1);
            if !self.pairs[i].1.as_str().is_empty() {
                let k = self.pairs[i].0.clone();
                let v = self.pairs[i].1.clone();
                r.push((k, v));
                assert(r@.map_values(|p: (String, String)| pair_view(p)) =~= old_r.map_values(
                    |p: (String, String)| pair_view(p),
                ).push(pair_view(self.pairs@[i as int])));
            }
            i = i + 1;
        }
        assert(self@.take(self.pairs.len() as int) =~= self@);
        r
    }

    pub fn str_or(&self, key: &str, default: &str) -> (r: String)
        ensures
            r@ == (match self.value(key@) {
                Some(v) => v,
                None => default@,
            }),
    {
        match self.get(key) {
            Some(v) => owned(v),
            None => owned(default),
        }
    }

    /// `1 on yes true` / `0 off no false` (ASCII case-insensitive).
    /// Anything else gives `default`.
    pub fn bool_or(&self, key: &str, default: bool) -> (r: bool)
        ensures
            r == self.bool_setting(key@, default),
            r == (match self.value(key@) {
                None => default,
                Some(v) => match bool_word(lower(v)) {
                    Some(b) => b,
                    None => default,
                },
            }),
    {
        match self.get(key) {
            None => default,
            Some(v) => {
                let chars = chars_of(v);
                let l = ascii_lowercase(chars.as_slice());
                match parse_bool_chars(l.as_slice()) {
                    Some(b) => b,
                    None => default,
                }
            },
        }
    }

    /// A non-negative integer; anything else gives `default`.
    pub fn u64_or(&self, key: &str, default: u64) -> (r: u64)
        ensures
            r == (match self.value(key@) {
                None => default,
                Some(v) => match parse_u64(v) {
                    Some(n) => n,
                    None => default,
                },
            }),
    {
        match self.get(key) {
            None => default,
            Some(v) => {
                let chars = chars_of(v);
                match parse_u64_chars(chars.as_slice()) {
                    Some(n) => n,
                    None => default,
                }
            },
        }
    }

    /// Whitespace-separated list; empty or missing gives `default`.
    pub fn list_or(&self, key: &str, default: &[&str]) -> (r: Vec<String>)
        ensures
            strings_view(r@) == (match self.value(key@) {
                Some(v) => words(v),
                None => strs_view(default@),
            }),
    {
        match self.get(key) {
            Some(v) => {
                let chars = chars_of(v);
                let ws = split_ws(chars.as_slice());
                strings_of(&ws)
            },
            None => owned_all(default),
        }
    }
}

fn parse_bool_chars(s: &[char]) -> (r: Option<bool>)
    ensures
        r == bool_word(s@),
{
    if eq_str(s, "1") || eq_str(s, "on") || eq_str(s, "yes") || eq_str(s, "true") {
        Some(true)
    } else if eq_str(s, "0") || eq_str(s, "off") || eq_str(s, "no") || eq_str(s, "false") {
        Some(false)
    } else {
        None
    }
}

/// `1 on yes true` / `0 off no false`, case-sensitive; anything else is
/// `None`.
pub fn parse_bool(raw: &str) -> (r: Option<bool>)
    ensures
        r == bool_word(raw@),
{
    let chars = chars_of(raw);
    parse_bool_chars(chars.as_slice())
}

/// The whitespace-separated words of `raw`.
pub fn parse_list(raw: &str) -> (r: Vec<String>)
    ensures
        strings_view(r@) == words(raw@),
{
    let chars = chars_of(raw);
    let ws = split_ws(chars.as_slice());
    strings_of(&ws)
}

/// `key` of `raw`, or `default` when missing or empty.
pub fn get_or(raw: &RawSection, key: &str, default: &str) -> (r: String)
    ensures
        r@ == (match lookup(raw@, key@) {
            Some(v) => if v.len() > 0 {
                v
            } else {
                default@
            },
            None => default@,
        }),
{
    raw.str_or(key, default)
}


// ---------------------------------------------------------------------
// The file
// ---------------------------------------------------------------------

/// One INI section as read: name, and keys with their values (`None`
/// for a bare key without `=`).
pub type IniSection = (Seq<char>, Seq<(Seq<char>, Option<Seq<char>>)>);

pub open spec fn opt_view(o: Option<String>) -> Option<Seq<char>> {
    match o {
        Some(s) => Some(s@),
        None => None,
    }
}

pub open spec fn entry_view(e: (String, Option<String>)) -> (Seq<char>, Option<Seq<char>>) {
    (e.0@, opt_view(e.1))
}

pub open spec fn section_view(s: (String, Vec<(String, Option<String>)>)) -> IniSection {
    (s.0@, s.1@.map_values(|e: (String, Option<String>)| entry_view(e)))
}

pub open spec fn sections_view(v: Seq<(String, Vec<(String, Option<String>)>)>) -> Seq<IniSection> {
    v.map_values(|s: (String, Vec<(String, Option<String>)>)| section_view(s))
}

/// What `configparser` makes of an INI text with case-sensitive names,
/// `#` comments on their own lines and no inline comments: its
/// sections in file order, or its error message.
pub uninterp spec fn ini_parsed(text: Seq<char>) -> Result<Seq<IniSection>, Seq<char>>;

/// `configparser::ini::Ini::read` on `text`, with a case-sensitive
/// parser (`Ini::new_cs`), `#` as the comment symbol and no inline
/// comment symbols; the resulting map (an `IndexMap`, so in file
/// order) is handed back as vectors. The contract names the result,
/// `ini_parsed`, and says nothing more of it.
#[verifier::external_body]
fn read_ini(text: &str) -> (r: Result<Vec<(String, Vec<(String, Option<String>)>)>, String>)
    ensures
        match r {
            Ok(v) => ini_parsed(text@) == Ok::<Seq<IniSection>, Seq<char>>(sections_view(v@)),
            Err(e) => ini_parsed(text@) == Err::<Seq<IniSection>, Seq<char>>(e@),
        },
{
    let mut ini = configparser::ini::Ini::new_cs();
    ini.set_comment_symbols(&['#']);
    ini.set_inline_comment_symbols(Some(&[]));
    let map = ini.read(text.to_owned())?;
    Ok(map.into_iter().map(|(name, keys)| (name, keys.into_iter().collect())).collect())
}

/// The pairs of a section as a [`RawSection`] holds them: a bare key's
/// value is empty.
pub open spec fn raw_pairs(keys: Seq<(Seq<char>, Option<Seq<char>>)>) -> Pairs {
    keys.map_values(
        |e: (Seq<char>, Option<Seq<char>>)|
            (
                e.0,
                match e.1 {
                    Some(v) => v,
                    None => Seq::<char>::empty(),
                },
            ),
    )
}

/// The keys of the first section named `name`; none without one.
pub open spec fn section_pairs(sections: Seq<IniSection>, name: Seq<char>) -> Pairs
    decreases sections.len(),
{
    if sections.len() == 0 {
        Seq::empty()
    } else if sections[0].0 == name {
        raw_pairs(sections[0].1)
    } else {
        section_pairs(sections.drop_first(), name)
    }
}

/// A section name is an instance of `prefix`: `prefix` itself or
/// `prefix:id`.
pub open spec fn is_instance(name: Seq<char>, prefix: Seq<char>) -> bool {
    name == prefix || (starts_with(name, prefix) && name.len() > prefix.len() && name[prefix.len() as int] == ':')
}

/// A typed view over one INI section.
pub trait Section: Sized {
    /// `r` is what a section of this kind reads from `raw` (of a kind
    /// that says nothing, anything).
    open spec fn read_from(raw: &RawSection, r: Self) -> bool {
        true
    }

    /// The default section name, e.g. `"Clock"`.
    fn section_name() -> &'static str;

    /// Build from the raw map, applying defaults for missing or empty
    /// keys and ignoring unknown ones.
    fn from_raw(raw: &RawSection) -> (r: Self)
        ensures
            Self::read_from(raw, r),
    ;
}

/// The loaded configuration file.
pub struct Config {
    sections: Vec<(String, Vec<(String, Option<String>)>)>,
    /// The file it was loaded from, if any; relative paths in values
    /// are resolved against its directory.
    path: Option<String>,
}

impl View for Config {
    type V = Seq<IniSection>;

    closed spec fn view(&self) -> Seq<IniSection> {
        sections_view(self.sections@)
    }
}

impl Config {
    /// No sections: every section reports its defaults.
    pub fn empty() -> (r: Config)
        ensures
            r@ == Seq::<IniSection>::empty(),
            r.spec_path() is None,
    {
        Config { sections: Vec::new(), path: None }
    }

    pub closed spec fn spec_path(&self) -> Option<Seq<char>> {
        opt_view(self.path)
    }

    /// The configuration in `text`, read from the file `path` if any; a
    /// text `configparser` refuses gives an empty configuration (the
    /// error message is handed back to be reported).
    pub fn from_text(text: &str, path: Option<String>) -> (r: (Config, Option<String>))
        ensures
            r.0.spec_path() == opt_view(path),
            match ini_parsed(text@) {
                Ok(sections) => r.0@ == sections && r.1 is None,
                Err(e) => r.0@ == Seq::<IniSection>::empty() && (r.1 matches Some(m) && m@ == e),
            },
    {
        match read_ini(text) {
            Ok(sections) => (Config { sections, path }, None),
            Err(e) => (Config { sections: Vec::new(), path }, Some(e)),
        }
    }

    /// Parse from an in-memory string, with no file.
    pub fn parse(text: &str) -> (r: Config)
        ensures
            r.spec_path() is None,
            match ini_parsed(text@) {
                Ok(sections) => r@ == sections,
                Err(_) => r@ == Seq::<IniSection>::empty(),
            },
    {
        from_text_parts(text)
    }

    /// The file it was loaded from, if any.
    pub fn path(&self) -> (r: Option<&String>)
        ensures
            match r {
                Some(p) => self.spec_path() == Some(p@),
                None => self.spec_path() is None,
            },
    {
        self.path.as_ref()
    }

    /// Raw key/value map of section `name`; bare keys (no `=`) become
    /// `""`, a missing section has no keys.
    pub fn raw_section(&self, name: &str) -> (r: RawSection)
        ensures
            r@ == section_pairs(self@, name@),
    {
        let mut i: usize = 0;
        assert(self@.skip(0) =~= self@);
        while i < self.sections.len()
            invariant
                i <= self.sections.len(),
                section_pairs(self@, name@) == section_pairs(self@.skip(i as int), name@),
            decreases self.sections.len() - i,
        {
            let ghost rest = self@.skip(i as int);
            assert(rest[0] == section_view(self.sections@[i as int]));
            if str_eq(self.sections[i].0.as_str(), name) {
                return raw_of(&self.sections[i].1);
            }
            assert(rest.drop_first() =~= self@.skip(i + 1));
            i = i + 1;
        }
        assert(self@.skip(i as int).len() == 0);
        RawSection::new()
    }

    /// Typed section `name` (default: `T::section_name()`): what `T`
    /// reads from that section's pairs.
    pub fn section<T: Section>(&self, name: Option<&str>) -> (r: T)
        ensures
            exists|raw: RawSection, n: Seq<char>|
                #![trigger section_pairs(self@, n), T::read_from(&raw, r)]
                raw@ == section_pairs(self@, n) && (name matches Some(given) ==> n == given@) && T::read_from(&raw, r),
    {
        let n = match name {
            Some(n) => n,
            None => T::section_name(),
        };
        let raw = self.raw_section(n);
        let r = T::from_raw(&raw);
        assert(raw@ == section_pairs(self@, n@) && (name matches Some(given) ==> n@ == given@) && T::read_from(&raw, r));
        r
    }

    /// Names of every instance of a section: `prefix` itself plus every
    /// `prefix:id`, in file order.
    pub fn instances(&self, prefix: &str) -> (r: Vec<String>)
        ensures
            strings_view(r@) == self@.map_values(|s: IniSection| s.0).filter(
                |n: Seq<char>| is_instance(n, prefix@),
            ),
    {
        let mut r: Vec<String> = Vec::new();
        let mut i: usize = 0;
        let ghost names = self@.map_values(|s: IniSection| s.0);
        let pv = chars_of(prefix);
        while i < self.sections.len()
            invariant
                i <= self.sections.len(),
                names == self@.map_values(|s: IniSection| s.0),
                names.len() == self.sections.len(),
                pv@ == prefix@,
                strings_view(r@) == names.take(i as int).filter(
                    |n: Seq<char>| is_instance(n, prefix@),
                ),
            decreases self.sections.len() - i,
        {
            let ghost old_r = r@;
            assert(names.take(i + 1).drop_last() =~= names.take(i as int));
            assert(names[i as int] == self.sections@[i as int].0@);
            reveal_with_fuel(Seq::filter, 1);
            let nv = chars_of(self.sections[i].0.as_str());
            let keep = eq_chars(nv.as_slice(), pv.as_slice()) || (has_prefix(nv.as_slice(), prefix)
                && nv.len() > pv.len() && nv[pv.len()] == ':');
            if keep {
                r.push(self.sections[i].0.clone());
                assert(strings_view(r@) =~= strings_view(old_r).push(names[i as int]));
            }
            i = i + 1;
        }
        assert(names.take(self.sections.len() as int) =~= names);
        r
    }
}

fn from_text_parts(text: &str) -> (r: Config)
    ensures
        r.spec_path() is None,
        match ini_parsed(text@) {
            Ok(sections) => r@ == sections,
            Err(_) => r@ == Seq::<IniSection>::empty(),
        },
{
    let (c, _) = Config::from_text(text, None);
    c
}

fn raw_of(keys: &Vec<(String, Option<String>)>) -> (r: RawSection)
    ensures
        r@ == raw_pairs(keys@.map_values(|e: (String, Option<String>)| entry_view(e))),
{
    let mut pairs: Vec<(String, String)> = Vec::new();
    let mut i: usize = 0;
    let ghost kv = keys@.map_values(|e: (String, Option<String>)| entry_view(e));
    while i < keys.len()
        invariant
            i <= keys.len(),
            kv == keys@.map_values(|e: (String, Option<String>)| entry_view(e)),
            pairs@.map_values(|p: (String, String)| pair_view(p)) == raw_pairs(kv.take(i as int)),
        decreases keys.len() - i,
    {
        let k = keys[i].0.clone();
        let v = match &keys[i].1 {
            Some(v) => v.clone(),
            None => String::new(),
        };
        let ghost old = pairs@;
        proof {
            let e = kv[i as int];
            assert(e == entry_view(keys@[i as int]));
            assert(k@ == e.0);
            assert(v@ == (match e.1 {
                Some(x) => x,
                None => Seq::<char>::empty(),
            }));
            assert(raw_pairs(kv.take(i + 1)) =~= raw_pairs(kv.take(i as int)).push(
                (k@, v@),
            ));
        }
        pairs.push((k, v));
        assert(pairs@.map_values(|p: (String, String)| pair_view(p)) =~= raw_pairs(
            kv.take(i + 1),
        ));
        i = i + 1;
    }
    assert(kv.take(keys.len() as int) =~= kv);
    RawSection::from_pairs(pairs)
}

// ---------------------------------------------------------------------
// Paths in values
// ---------------------------------------------------------------------

/// `base` joined with `path` as `Path::join` does it: an absolute
/// `path` replaces `base`, else a `/` goes between them unless `base`
/// is empty or already ends with one.
pub open spec fn join(base: Seq<char>, path: Seq<char>) -> Seq<char> {
    if path.len() > 0 && path[0] == '/' {
        path
    } else if base.len() == 0 || base.last() == '/' {
        base + path
    } else {
        base + seq!['/'] + path
    }
}

pub fn join_path(base: &str, path: &str) -> (r: String)
    ensures
        r@ == join(base@, path@),
{
    let b = chars_of(base);
    let p = chars_of(path);
    if p.len() > 0 && p[0] == '/' {
        return owned(path);
    }
    let mut out = owned(base);
    if b.len() > 0 && b[b.len() - 1] != '/' {
        crate::text::push_char(&mut out, '/');
    }
    let ghost before = out@;
    let mut i: usize = 0;
    while i < p.len()
        invariant
            i <= p.len(),
            p@ == path@,
            out@ == before + p@.take(i as int),
        decreases p.len() - i,
    {
        crate::text::push_char(&mut out, p[i]);
        i = i + 1;
        assert(before + p@.take(i as int) =~= (before + p@.take(i - 1)).push(p@[i - 1]));
    }
    assert(p@.take(p.len() as int) =~= p@);
    proof {
        if b.len() > 0 && b@.last() != '/' {
            assert(before =~= base@ + seq!['/']);
            assert(out@ =~= base@ + seq!['/'] + path@);
        }
    }
    out
}

/// `s` without its leading `/`s.
pub open spec fn trim_slashes(s: Seq<char>) -> Seq<char>
    decreases s.len(),
{
    if s.len() > 0 && s[0] == '/' {
        trim_slashes(s.drop_first())
    } else {
        s
    }
}

/// The file a value names: `~` and `~/..` are under the home (`/`
/// without one), an absolute path is itself, a relative one is under
/// `dir` (`.` without one). `~user` is not expanded.
pub open spec fn resolved(value: Seq<char>, dir: Option<Seq<char>>, home: Option<Seq<char>>) -> Seq<char> {
    if value.len() > 0 && value[0] == '~' && (value.len() == 1 || value[1] == '/') {
        let h = match home {
            Some(h) => h,
            None => "/"@,
        };
        join(h, trim_slashes(value.drop_first()))
    } else if value.len() > 0 && value[0] == '/' {
        value
    } else {
        let d = match dir {
            Some(d) => d,
            None => "."@,
        };
        join(d, value)
    }
}

pub open spec fn opt_str(o: Option<&str>) -> Option<Seq<char>> {
    match o {
        Some(s) => Some(s@),
        None => None,
    }
}

pub fn resolve_path(value: &str, dir: Option<&str>, home: Option<&str>) -> (r: String)
    ensures
        r@ == resolved(value@, opt_str(dir), opt_str(home)),
{
    let v = chars_of(value);
    if v.len() > 0 && v[0] == '~' && (v.len() == 1 || v[1] == '/') {
        let h = match home {
            Some(h) => h,
            None => "/",
        };
        let mut a: usize = 1;
        assert(v@.drop_first() =~= v@.skip(1));
        while a < v.len() && v[a] == '/'
            invariant
                1 <= a <= v.len(),
                trim_slashes(v@.drop_first()) == trim_slashes(v@.skip(a as int)),
            decreases v.len() - a,
        {
            assert(v@.skip(a as int).drop_first() =~= v@.skip(a + 1));
            a = a + 1;
        }
        let rest = slice_vec(v.as_slice(), a, v.len());
        assert(rest@ =~= v@.skip(a as int));
        let rs = string_of(rest.as_slice());
        return join_path(h, rs.as_str());
    }
    if v.len() > 0 && v[0] == '/' {
        return owned(value);
    }
    let d = match dir {
        Some(d) => d,
        None => ".",
    };
    join_path(d, value)
}


// ---------------------------------------------------------------------
// Sections and directories
// ---------------------------------------------------------------------

pub fn opt_owned(o: Option<&str>) -> (r: Option<String>)
    ensures
        opt_view(r) == opt_str(o),
{
    match o {
        Some(s) => Some(owned(s)),
        None => None,
    }
}

/// `[general]` section: shell-wide settings.
#[derive(Debug, Clone)]
pub struct GeneralConfig {
    /// Theme to load on top of the built-in base; `None` for the base
    /// alone.
    pub style: Option<String>,
    /// Reload the theme when its file changes.
    pub reload_style: bool,
    /// Rebuild the panels when the config file changes.
    pub reload_config: bool,
    /// Icon theme name; `None` to detect it from the GTK settings.
    pub icon_theme: Option<String>,
    /// The UI language (`en`, `it`, ...); empty for the environment's.
    pub language: String,
}

impl GeneralConfig {
    pub fn from_section(raw: &RawSection) -> (r: GeneralConfig)
        ensures
            opt_view(r.style) == raw.value("style"@),
            opt_view(r.icon_theme) == raw.value("icon_theme"@),
            r.language@ == (match raw.value("language"@) {
                Some(v) => v,
                None => ""@,
            }),
            r.reload_style == (match raw.value("reload_style"@) {
                None => true,
                Some(v) => match bool_word(lower(v)) {
                    Some(b) => b,
                    None => true,
                },
            }),
            r.reload_config == (match raw.value("reload_config"@) {
                None => true,
                Some(v) => match bool_word(lower(v)) {
                    Some(b) => b,
                    None => true,
                },
            }),
    {
        GeneralConfig {
            style: opt_owned(raw.get("style")),
            reload_style: raw.bool_or("reload_style", true),
            reload_config: raw.bool_or("reload_config", true),
            icon_theme: opt_owned(raw.get("icon_theme")),
            language: raw.str_or("language", ""),
        }
    }
}

impl Section for GeneralConfig {
    open spec fn read_from(raw: &RawSection, r: GeneralConfig) -> bool {
        &&& (opt_view(r.style) == raw.value("style"@))
        &&& (opt_view(r.icon_theme) == raw.value("icon_theme"@))
        &&& (r.language@ == (match raw.value("language"@) {
            Some(v) => v,
            None => ""@,
        }))
        &&& (r.reload_style == (match raw.value("reload_style"@) {
            None => true,
            Some(v) => match bool_word(lower(v)) {
                Some(b) => b,
                None => true,
            },
        }))
        &&& (r.reload_config == (match raw.value("reload_config"@) {
            None => true,
            Some(v) => match bool_word(lower(v)) {
                Some(b) => b,
                None => true,
            },
        }))
    }

    fn section_name() -> &'static str {
        "general"
    }

    fn from_raw(raw: &RawSection) -> (r: GeneralConfig) {
        GeneralConfig::from_section(raw)
    }
}

/// Every directory of a `:`-separated list, in order, each joined with
/// `leaf`.
pub open spec fn joined_all(dirs: Seq<Seq<char>>, leaf: Seq<char>) -> Seq<Seq<char>> {
    dirs.map_values(|d: Seq<char>| join(d, leaf))
}

/// `$XDG_DATA_HOME` (else `$HOME/.local/share`, when there is a home),
/// then each `$XDG_DATA_DIRS` (else `/usr/local/share:/usr/share`), in
/// precedence order; the variables are the arguments.
pub open spec fn xdg_data_dirs_of(
    data_home: Option<Seq<char>>,
    home: Option<Seq<char>>,
    data_dirs: Option<Seq<char>>,
) -> Seq<Seq<char>> {
    let first: Seq<Seq<char>> = match data_home {
        Some(d) => seq![d],
        None => match home {
            Some(h) => seq![join(h, ".local/share"@)],
            None => seq![],
        },
    };
    let rest = match data_dirs {
        Some(d) => d,
        None => "/usr/local/share:/usr/share"@,
    };
    first + crate::text::split_on(rest, ':')
}

pub fn xdg_data_dirs(data_home: Option<&str>, home: Option<&str>, data_dirs: Option<&str>) -> (r: Vec<String>)
    ensures
        strings_view(r@) == xdg_data_dirs_of(opt_str(data_home), opt_str(home), opt_str(data_dirs)),
{
    let mut r: Vec<String> = Vec::new();
    match data_home {
        Some(d) => r.push(owned(d)),
        None => match home {
            Some(h) => r.push(join_path(h, ".local/share")),
            None => {},
        },
    }
    let rest = match data_dirs {
        Some(d) => d,
        None => "/usr/local/share:/usr/share",
    };
    let rc = chars_of(rest);
    let parts = crate::text::split_char(rc.as_slice(), ':');
    let tail = strings_of(&parts);
    let ghost first = strings_view(r@);
    let mut i: usize = 0;
    while i < tail.len()
        invariant
            i <= tail.len(),
            strings_view(r@) == first + strings_view(tail@).take(i as int),
        decreases tail.len() - i,
    {
        let ghost old = strings_view(r@);
        let t = tail[i].clone();
        r.push(t);
        assert(strings_view(r@) =~= old.push(t@));
        assert(strings_view(tail@).take(i + 1) =~= strings_view(tail@).take(i as int).push(
            tail@[i as int]@,
        ));
        assert(strings_view(r@) =~= first + strings_view(tail@).take(i + 1));
        i = i + 1;
    }
    assert(strings_view(tail@).take(tail.len() as int) =~= strings_view(tail@));
    proof {
        let f: Seq<Seq<char>> = match opt_str(data_home) {
            Some(d) => seq![d],
            None => match opt_str(home) {
                Some(h) => seq![join(h, ".local/share"@)],
                None => seq![],
            },
        };
        assert(first =~= f);
    }
    r
}

/// Each of `dirs` joined with `leaf`.
pub fn join_each(dirs: &Vec<String>, leaf: &str) -> (r: Vec<String>)
    ensures
        strings_view(r@) == joined_all(strings_view(dirs@), leaf@),
{
    let mut r: Vec<String> = Vec::new();
    let mut i: usize = 0;
    while i < dirs.len()
        invariant
            i <= dirs.len(),
            strings_view(r@) == joined_all(strings_view(dirs@), leaf@).take(i as int),
        decreases dirs.len() - i,
    {
        let j = join_path(dirs[i].as_str(), leaf);
        let ghost old = strings_view(r@);
        r.push(j);
        assert(strings_view(r@) =~= old.push(j@));
        assert(joined_all(strings_view(dirs@), leaf@).take(i + 1) =~= joined_all(
            strings_view(dirs@),
            leaf@,
        ).take(i as int).push(join(dirs@[i as int]@, leaf@)));
        i = i + 1;
    }
    assert(joined_all(strings_view(dirs@), leaf@).take(dirs.len() as int) =~= joined_all(
        strings_view(dirs@),
        leaf@,
    ));
    r
}

/// `$XDG_DATA_HOME/aria-shell` then each `$XDG_DATA_DIRS/aria-shell`.
pub fn data_dirs(data_home: Option<&str>, home: Option<&str>, dirs: Option<&str>) -> (r: Vec<String>)
    ensures
        strings_view(r@) == joined_all(
            xdg_data_dirs_of(opt_str(data_home), opt_str(home), opt_str(dirs)),
            "aria-shell"@,
        ),
{
    let d = xdg_data_dirs(data_home, home, dirs);
    join_each(&d, "aria-shell")
}

/// `$XDG_CONFIG_HOME` (else `$HOME/.config`, when there is a home),
/// then each `$XDG_CONFIG_DIRS` (else `/etc/xdg`), each joined with
/// `aria-shell`, in precedence order; the variables are the arguments.
pub open spec fn config_dirs_of(
    config_home: Option<Seq<char>>,
    home: Option<Seq<char>>,
    config_dirs: Option<Seq<char>>,
) -> Seq<Seq<char>> {
    let first: Seq<Seq<char>> = match config_home {
        Some(d) => seq![d],
        None => match home {
            Some(h) => seq![join(h, ".config"@)],
            None => seq![],
        },
    };
    let rest = match config_dirs {
        Some(d) => d,
        None => "/etc/xdg"@,
    };
    joined_all(first + crate::text::split_on(rest, ':'), "aria-shell"@)
}

/// Where the configuration file is looked for, first to last.
pub fn config_dirs(config_home: Option<&str>, home: Option<&str>, dirs: Option<&str>) -> (r: Vec<String>)
    ensures
        strings_view(r@) == config_dirs_of(opt_str(config_home), opt_str(home), opt_str(dirs)),
{
    let mut r: Vec<String> = Vec::new();
    match config_home {
        Some(d) => r.push(owned(d)),
        None => match home {
            Some(h) => r.push(join_path(h, ".config")),
            None => {},
        },
    }
    let rest = match dirs {
        Some(d) => d,
        None => "/etc/xdg",
    };
    let rc = chars_of(rest);
    let parts = crate::text::split_char(rc.as_slice(), ':');
    let tail = strings_of(&parts);
    let ghost first = strings_view(r@);
    let mut i: usize = 0;
    while i < tail.len()
        invariant
            i <= tail.len(),
            strings_view(r@) == first + strings_view(tail@).take(i as int),
        decreases tail.len() - i,
    {
        let ghost old = strings_view(r@);
        let t = tail[i].clone();
        r.push(t);
        assert(strings_view(r@) =~= old.push(t@));
        assert(strings_view(tail@).take(i + 1) =~= strings_view(tail@).take(i as int).push(
            tail@[i as int]@,
        ));
        i = i + 1;
    }
    assert(strings_view(tail@).take(tail.len() as int) =~= strings_view(tail@));
    proof {
        let f: Seq<Seq<char>> = match opt_str(config_home) {
            Some(d) => seq![d],
            None => match opt_str(home) {
                Some(h) => seq![join(h, ".config"@)],
                None => seq![],
            },
        };
        assert(first =~= f);
    }
    join_each(&r, "aria-shell")
}

/// Where the shell keeps its state: `$XDG_STATE_HOME/aria-shell`, else
/// `$HOME/.local/state/aria-shell`; none without either.
pub open spec fn state_dir_of(state_home: Option<Seq<char>>, home: Option<Seq<char>>) -> Option<Seq<char>> {
    match state_home {
        Some(d) => Some(join(d, "aria-shell"@)),
        None => match home {
            Some(h) => Some(join(join(h, ".local/state"@), "aria-shell"@)),
            None => None,
        },
    }
}

pub fn state_dir(state_home: Option<&str>, home: Option<&str>) -> (r: Option<String>)
    ensures
        opt_view(r) == state_dir_of(opt_str(state_home), opt_str(home)),
{
    match state_home {
        Some(d) => Some(join_path(d, "aria-shell")),
        None => match home {
            Some(h) => {
                let base = join_path(h, ".local/state");
                Some(join_path(base.as_str(), "aria-shell"))
            },
            None => None,
        },
    }
}

} // verus!
