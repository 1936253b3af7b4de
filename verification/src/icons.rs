//! Application icons: from a window class (`firefox`,
//! `org.kde.dolphin`) to the icon names worth looking up, in order,
//! through the `.desktop` database and the `[apps_class_map]`
//! overrides. Loading images and watching directories are the
//! caller's.
use vstd::prelude::*;

use crate::config::{pair_view, str_eq, RawSection};
use crate::desktop::{class_index, file_name, DesktopDb, DesktopEntryView};
use crate::text::{
    ascii_lowercase, chars_of, ends_with, lines, lower, split_lines, split_once, split_once_char,
    string_of, trim, trim_chars, views,
};

verus! {

/// Icons are looked up at this nominal size; the theme's scalable
/// directory usually wins, and the result is scaled to the CSS size.
pub const LOOKUP_SIZE: u32 = 32;

/// Shown for windows whose class resolves to nothing.
pub const FALLBACK: &'static str = "application-x-executable";

pub open spec fn pairs_view(v: Seq<(String, String)>) -> Seq<(Seq<char>, Seq<char>)> {
    v.map_values(|p: (String, String)| pair_view(p))
}

/// `[apps_class_map]` as read: each key lowercased, empty values left
/// out.
pub open spec fn overrides_of(pairs: Seq<(Seq<char>, Seq<char>)>) -> Seq<(Seq<char>, Seq<char>)> {
    pairs.filter(|p: (Seq<char>, Seq<char>)| p.1.len() > 0).map_values(
        |p: (Seq<char>, Seq<char>)| (lower(p.0), p.1),
    )
}

/// The value for `key`: the last pair wins, as in a map filled in
/// order.
pub open spec fn last_value(pairs: Seq<(Seq<char>, Seq<char>)>, key: Seq<char>) -> Option<Seq<char>>
    decreases pairs.len(),
{
    if pairs.len() == 0 {
        None
    } else if pairs.last().0 == key {
        Some(pairs.last().1)
    } else {
        last_value(pairs.drop_last(), key)
    }
}

/// Window class -> desktop id or icon name, for apps whose class
/// matches nothing.
pub fn class_overrides(section: &RawSection) -> (r: Vec<(String, String)>)
    ensures
        pairs_view(r@) == overrides_of(section@),
{
    let pairs = section.iter();
    let ghost pv = pairs_view(pairs@);
    let mut r: Vec<(String, String)> = Vec::new();
    let mut i: usize = 0;
    assert(pv.take(0).map_values(|p: (Seq<char>, Seq<char>)| (lower(p.0), p.1)) =~= pairs_view(r@));
    while i < pairs.len()
        invariant
            i <= pairs.len(),
            pv == pairs_view(pairs@),
            pairs_view(r@) == pv.take(i as int).map_values(|p: (Seq<char>, Seq<char>)| (lower(p.0), p.1)),
        decreases pairs.len() - i,
    {
        let k = chars_of(pairs[i].0.as_str());
        let lk = ascii_lowercase(k.as_slice());
        let ghost prev = pairs_view(r@);
        r.push((string_of(lk.as_slice()), pairs[i].1.clone()));
        assert(pv[i as int] == pair_view(pairs@[i as int]));
        assert(pairs_view(r@) =~= prev.push((lower(pv[i as int].0), pv[i as int].1)));
        assert(pv.take(i + 1).map_values(|p: (Seq<char>, Seq<char>)| (lower(p.0), p.1))
            =~= pv.take(i as int).map_values(|p: (Seq<char>, Seq<char>)| (lower(p.0), p.1)).push(
            (lower(pv[i as int].0), pv[i as int].1),
        ));
        i = i + 1;
    }
    assert(pv.take(pairs.len() as int) =~= pv);
    r
}

/// The `Icon` of the desktop entry a class names, if any.
pub open spec fn entry_icon(es: Seq<DesktopEntryView>, class: Seq<char>) -> Option<Seq<char>> {
    match class_index(es, lower(class)) {
        Some(i) => es[i].icon,
        None => None,
    }
}

pub open spec fn opt_seq(o: Option<Seq<char>>) -> Seq<Seq<char>> {
    match o {
        Some(s) => seq![s],
        None => seq![],
    }
}

/// The icon names to look up for a window class, first hit wins: the
/// desktop entry's `Icon` (by id, `StartupWMClass`, executable), then
/// the override (the `Icon` of the entry it names, then itself as an
/// icon name), then the class, then the class lowercased, then the
/// generic fallback.
pub open spec fn icon_names(
    es: Seq<DesktopEntryView>,
    overrides: Seq<(Seq<char>, Seq<char>)>,
    class: Seq<char>,
) -> Seq<Seq<char>> {
    let by_override = match last_value(overrides, lower(class)) {
        Some(o) => opt_seq(entry_icon(es, o)).push(o),
        None => seq![],
    };
    opt_seq(entry_icon(es, class)) + by_override + seq![class, lower(class), FALLBACK@]
}

fn entry_icon_of(apps: &DesktopDb, class: &str) -> (r: Option<String>)
    ensures
        crate::config::opt_view(r) == entry_icon(apps@, class@),
{
    match apps.for_class(class) {
        Some(e) => e.icon.clone(),
        None => None,
    }
}

fn override_for(overrides: &Vec<(String, String)>, key: &[char]) -> (r: Option<String>)
    ensures
        crate::config::opt_view(r) == last_value(pairs_view(overrides@), key@),
{
    let ghost pv = pairs_view(overrides@);
    let mut k = overrides.len();
    assert(pv.take(k as int) =~= pv);
    while k > 0
        invariant
            k <= overrides.len(),
            pv == pairs_view(overrides@),
            last_value(pv, key@) == last_value(pv.take(k as int), key@),
        decreases k,
    {
        assert(pv.take(k as int).last() == pair_view(overrides@[k - 1]));
        let kc = chars_of(overrides[k - 1].0.as_str());
        if crate::text::eq_chars(kc.as_slice(), key) {
            return Some(overrides[k - 1].1.clone());
        }
        assert(pv.take(k as int).drop_last() =~= pv.take(k - 1));
        k = k - 1;
    }
    None
}

fn push_opt(r: &mut Vec<String>, o: Option<String>)
    ensures
        crate::config::strings_view(final(r)@) == crate::config::strings_view(old(r)@) + opt_seq(crate::config::opt_view(o)),
{
    let ghost r0 = crate::config::strings_view(r@);
    match o {
        Some(s) => {
            let ghost sv = s@;
            r.push(s);
            assert(crate::config::strings_view(r@) =~= r0 + seq![sv]);
        },
        None => {
            assert(crate::config::strings_view(r@) =~= r0 + Seq::<Seq<char>>::empty());
        },
    }
}

fn push_one(r: &mut Vec<String>, s: String)
    ensures
        crate::config::strings_view(final(r)@) == crate::config::strings_view(old(r)@).push(s@),
{
    let ghost r0 = crate::config::strings_view(r@);
    let ghost sv = s@;
    r.push(s);
    assert(crate::config::strings_view(r@) =~= r0.push(sv));
}

/// The icon names to try for a window class, in order.
pub fn icon_candidates(apps: &DesktopDb, overrides: &Vec<(String, String)>, class: &str) -> (r: Vec<String>)
    ensures
        crate::config::strings_view(r@) == icon_names(apps@, pairs_view(overrides@), class@),
{
    let mut r: Vec<String> = Vec::new();
    assert(crate::config::strings_view(r@) =~= Seq::<Seq<char>>::empty());
    push_opt(&mut r, entry_icon_of(apps, class));
    let ghost first = crate::config::strings_view(r@);
    let c = chars_of(class);
    let lc = ascii_lowercase(c.as_slice());
    match override_for(overrides, lc.as_slice()) {
        Some(o) => {
            push_opt(&mut r, entry_icon_of(apps, o.as_str()));
            push_one(&mut r, o);
        },
        None => {},
    }
    let ghost mid = crate::config::strings_view(r@);
    push_one(&mut r, crate::text::owned(class));
    push_one(&mut r, string_of(lc.as_slice()));
    push_one(&mut r, crate::text::owned(FALLBACK));
    proof {
        let by_override = match last_value(pairs_view(overrides@), lower(class@)) {
            Some(o) => opt_seq(entry_icon(apps@, o)).push(o),
            None => seq![],
        };
        assert(mid =~= first + by_override);
        assert(crate::config::strings_view(r@) =~= first + by_override + seq![class@, lower(class@), FALLBACK@]);
    }
    r
}

/// How an icon file is drawn: a vector image, which tints like text
/// when it is a `-symbolic` one, or a bitmap.
#[derive(Debug, Clone, Copy, PartialEq, Eq, Structural)]
pub enum IconKind {
    Svg { symbolic: bool },
    Raster,
}

/// The stem and extension of a file name, as `Path::file_stem` and
/// `Path::extension`: a leading dot belongs to the stem.
pub open spec fn stem_and_ext(name: Seq<char>) -> (Seq<char>, Option<Seq<char>>) {
    match crate::text::last_index(name, '.') {
        Some(p) => if p == 0 {
            (name, None)
        } else {
            (name.take(p), Some(name.skip(p + 1)))
        },
        None => (name, None),
    }
}

pub open spec fn kind_of(path: Seq<char>) -> IconKind {
    match file_name(path) {
        Some(n) => {
            let (stem, ext) = stem_and_ext(n);
            if ext == Some("svg"@) {
                IconKind::Svg { symbolic: ends_with(stem, "-symbolic"@) }
            } else {
                IconKind::Raster
            }
        },
        None => IconKind::Raster,
    }
}

/// The kind of icon a resolved file is.
pub fn icon_kind(path: &str) -> (r: IconKind)
    ensures
        r == kind_of(path@),
{
    let p = chars_of(path);
    let name = match crate::desktop::path_file_name(p.as_slice()) {
        Some(n) => n,
        None => return IconKind::Raster,
    };
    match crate::text::rfind(name.as_slice(), '.') {
        Some(d) => {
            proof { crate::text::lemma_last_index_bound(name@, '.'); }
            if d == 0 {
                return IconKind::Raster;
            }
            let ext = crate::text::slice_vec(name.as_slice(), d + 1, name.len());
            let stem = crate::text::slice_vec(name.as_slice(), 0, d);
            assert(ext@ =~= name@.skip(d + 1));
            assert(stem@ =~= name@.take(d as int));
            if crate::text::eq_str(ext.as_slice(), "svg") {
                IconKind::Svg { symbolic: crate::text::has_suffix(stem.as_slice(), "-symbolic") }
            } else {
                IconKind::Raster
            }
        },
        None => IconKind::Raster,
    }
}

/// `gtk-icon-theme-name` of a GTK `settings.ini`: the first line that
/// sets it.
pub open spec fn gtk_theme_in(ls: Seq<Seq<char>>) -> Option<Seq<char>>
    decreases ls.len(),
{
    if ls.len() == 0 {
        None
    } else {
        match split_once(ls[0], '=') {
            Some((k, v)) => if trim(k) == "gtk-icon-theme-name"@ {
                Some(trim(v))
            } else {
                gtk_theme_in(ls.drop_first())
            },
            None => gtk_theme_in(ls.drop_first()),
        }
    }
}

/// The icon theme a GTK `settings.ini` names, if it does.
pub fn gtk_icon_theme(text: &str) -> (r: Option<String>)
    ensures
        crate::config::opt_view(r) == gtk_theme_in(lines(text@)),
{
    let t = chars_of(text);
    let ls = split_lines(t.as_slice());
    let ghost lv = views(ls@);
    let mut i: usize = 0;
    assert(lv.skip(0) =~= lv);
    while i < ls.len()
        invariant
            i <= ls.len(),
            lv == views(ls@),
            lv == lines(t@),
            t@ == text@,
            gtk_theme_in(lv) == gtk_theme_in(lv.skip(i as int)),
        decreases ls.len() - i,
    {
        assert(lv.skip(i as int)[0] == ls@[i as int]@);
        assert(lv.skip(i as int).drop_first() =~= lv.skip(i + 1));
        match split_once_char(ls[i].as_slice(), '=') {
            Some((k, v)) => {
                let kt = trim_chars(k.as_slice());
                if crate::text::eq_str(kt.as_slice(), "gtk-icon-theme-name") {
                    let vt = trim_chars(v.as_slice());
                    return Some(string_of(vt.as_slice()));
                }
            },
            None => {},
        }
        i = i + 1;
    }
    None
}

} // verus!
