//! Which sensor files hold the cpu's temperature. Listing `/sys`,
//! reading the files and the readings themselves (floating point) are
//! the caller's.
use vstd::prelude::*;

use crate::text::{chars_lt, chars_of, ends_with, has_prefix, seq_lt, starts_with, string_of};

verus! {

/// The smallest of the values `keep` accepts, in `str` order.
pub open spec fn least(l: Seq<Seq<char>>, keep: spec_fn(Seq<char>) -> bool) -> Option<Seq<char>>
    decreases l.len(),
{
    if l.len() == 0 {
        None
    } else {
        let best = least(l.drop_last(), keep);
        if keep(l.last()) {
            match best {
                Some(b) => if seq_lt(l.last(), b) {
                    Some(l.last())
                } else {
                    Some(b)
                },
                None => Some(l.last()),
            }
        } else {
            best
        }
    }
}

/// The hwmon directory named `name` that sorts first.
pub open spec fn hwmon_named(hwmons: Seq<(Seq<char>, Seq<char>)>, name: Seq<char>) -> Option<Seq<char>> {
    least(
        hwmons.filter(|h: (Seq<char>, Seq<char>)| h.0 == name).map_values(|h: (Seq<char>, Seq<char>)| h.1),
        |p: Seq<char>| true,
    )
}

/// The usual cpu temperature drivers, most specific first.
pub const CPU_DRIVERS: [&'static str; 5] = ["k10temp", "zenpower", "coretemp", "cpu_thermal", "acpitz"];

pub open spec fn first_driver(hwmons: Seq<(Seq<char>, Seq<char>)>, drivers: Seq<Seq<char>>) -> Option<Seq<char>>
    decreases drivers.len(),
{
    if drivers.len() == 0 {
        None
    } else {
        match hwmon_named(hwmons, drivers[0]) {
            Some(p) => Some(p),
            None => first_driver(hwmons, drivers.drop_first()),
        }
    }
}

/// The cpu's temperature sensor among the hwmon directories (name,
/// path): the one named `preferred` if given, else the first of the
/// usual cpu drivers; among several with one name, the path that sorts
/// first.
pub open spec fn cpu_sensor(preferred: Seq<char>, hwmons: Seq<(Seq<char>, Seq<char>)>) -> Option<Seq<char>> {
    if preferred.len() > 0 {
        hwmon_named(hwmons, preferred)
    } else {
        first_driver(hwmons, CPU_DRIVERS@.map_values(|s: &str| s@))
    }
}

fn named_path(hwmons: &[(String, String)], name: &str) -> (r: Option<String>)
    ensures
        crate::config::opt_view(r) == hwmon_named(
            hwmons@.map_values(|h: (String, String)| (h.0@, h.1@)),
            name@,
        ),
{
    let ghost hv = hwmons@.map_values(|h: (String, String)| (h.0@, h.1@));
    let ghost named = |h: (Seq<char>, Seq<char>)| h.0 == name@;
    let ghost path = |h: (Seq<char>, Seq<char>)| h.1;
    let mut best: Option<String> = None;
    let mut i: usize = 0;
    assert(hv.take(0).filter(named) =~= Seq::<(Seq<char>, Seq<char>)>::empty()) by {
        reveal_with_fuel(Seq::filter, 1);
    }
    assert(hv.take(0).filter(named).map_values(path) =~= Seq::<Seq<char>>::empty());
    while i < hwmons.len()
        invariant
            i <= hwmons.len(),
            hv == hwmons@.map_values(|h: (String, String)| (h.0@, h.1@)),
            named == (|h: (Seq<char>, Seq<char>)| h.0 == name@),
            path == (|h: (Seq<char>, Seq<char>)| h.1),
            crate::config::opt_view(best) == least(hv.take(i as int).filter(named).map_values(path), |p: Seq<char>| true),
        decreases hwmons.len() - i,
    {
        let ghost f0 = hv.take(i as int).filter(named);
        assert(hv.take(i + 1).drop_last() =~= hv.take(i as int));
        assert(hv[i as int] == (hwmons@[i as int].0@, hwmons@[i as int].1@));
        reveal_with_fuel(Seq::filter, 1);
        if crate::config::str_eq(hwmons[i].0.as_str(), name) {
            let ghost f1 = f0.push(hv[i as int]);
            assert(f1.map_values(path) =~= f0.map_values(path).push(hv[i as int].1));
            assert(f1.map_values(path).drop_last() =~= f0.map_values(path));
            let p = &hwmons[i].1;
            let replace = match &best {
                Some(b) => {
                    let pc = chars_of(p.as_str());
                    let bc = chars_of(b.as_str());
                    chars_lt(pc.as_slice(), bc.as_slice())
                },
                None => true,
            };
            if replace {
                best = Some(p.clone());
            }
        }
        i = i + 1;
    }
    assert(hv.take(hwmons.len() as int) =~= hv);
    best
}

/// The cpu's temperature sensor directory, see [`cpu_sensor`]. The
/// hwmon paths are those of one directory (so that they sort as their
/// names do).
pub fn cpu_temp_sensor(preferred: &str, hwmons: &[(String, String)]) -> (r: Option<String>)
    ensures
        crate::config::opt_view(r) == cpu_sensor(preferred@, hwmons@.map_values(|h: (String, String)| (h.0@, h.1@))),
{
    if !preferred.is_empty() {
        return named_path(hwmons, preferred);
    }
    let drivers = CPU_DRIVERS;
    let ghost hv = hwmons@.map_values(|h: (String, String)| (h.0@, h.1@));
    let ghost dv = drivers@.map_values(|s: &str| s@);
    let mut k: usize = 0;
    assert(dv.skip(0) =~= dv);
    while k < 5
        invariant
            k <= 5,
            drivers@ == CPU_DRIVERS@,
            dv == drivers@.map_values(|s: &str| s@),
            hv == hwmons@.map_values(|h: (String, String)| (h.0@, h.1@)),
            first_driver(hv, dv) == first_driver(hv, dv.skip(k as int)),
            preferred@.len() == 0,
        decreases 5 - k,
    {
        let found = named_path(hwmons, drivers[k]);
        assert(dv.len() == 5);
        assert(dv.skip(k as int).len() > 0);
        assert(dv.skip(k as int)[0] == drivers@[k as int]@);
        assert(dv.skip(k as int).drop_first() =~= dv.skip(k + 1));
        if found.is_some() {
            proof {
                let d = dv.skip(k as int);
                assert(hwmon_named(hv, d[0]) is Some);
                assert(first_driver(hv, d) == hwmon_named(hv, d[0]));
                assert(preferred@.len() == 0);
                assert(cpu_sensor(preferred@, hv) == first_driver(hv, dv));
            }
            return found;
        }
        k = k + 1;
    }
    assert(dv.skip(5).len() == 0);
    None
}

// ---------------------------------------------------------------------
// The temperature input of a sensor directory

/// The stem of a temperature input file (`temp2` of `temp2_input`).
pub open spec fn input_stem(file: Seq<char>) -> Option<Seq<char>> {
    if ends_with(file, "_input"@) && starts_with(file.take(file.len() - 6), "temp"@) {
        Some(file.take(file.len() - 6))
    } else {
        None
    }
}

/// The label of a stem, read by the caller (trimmed; empty when none).
pub open spec fn label_of(labels: Seq<(Seq<char>, Seq<char>)>, stem: Seq<char>) -> Seq<char> {
    match crate::config::lookup(labels, stem) {
        Some(l) => l,
        None => Seq::empty(),
    }
}

/// The labels that name the die's own sensor.
pub open spec fn die_label(l: Seq<char>) -> bool {
    l == "Tctl"@ || l == "Tdie"@ || l == "Package id 0"@
}

/// Which input of a sensor directory holds the cpu's temperature: the
/// first (in name order) labelled `Tctl`, `Tdie` or `Package id 0`,
/// else the first input at all.
pub open spec fn temp_input_of(files: Seq<Seq<char>>, labels: Seq<(Seq<char>, Seq<char>)>) -> Option<Seq<char>> {
    let labelled = least(
        files,
        |f: Seq<char>| input_stem(f) is Some && die_label(label_of(labels, input_stem(f)->0)),
    );
    match labelled {
        Some(f) => Some(f),
        None => least(files, |f: Seq<char>| input_stem(f) is Some),
    }
}

fn stem_of(file: &[char]) -> (r: Option<Vec<char>>)
    ensures
        match r {
            Some(s) => input_stem(file@) == Some(s@),
            None => input_stem(file@) is None,
        },
{
    proof {
        reveal_strlit("_input");
        reveal_strlit("temp");
    }
    if !crate::text::has_suffix(file, "_input") {
        return None;
    }
    let stem = crate::text::slice_vec(file, 0, file.len() - 6);
    assert(stem@ =~= file@.take(file@.len() - 6));
    if has_prefix(stem.as_slice(), "temp") {
        Some(stem)
    } else {
        None
    }
}

fn label_for(labels: &[(String, String)], stem: &[char]) -> (r: Vec<char>)
    ensures
        r@ == label_of(labels@.map_values(|p: (String, String)| (p.0@, p.1@)), stem@),
{
    let ghost lv = labels@.map_values(|p: (String, String)| (p.0@, p.1@));
    let mut i: usize = 0;
    assert(lv.skip(0) =~= lv);
    while i < labels.len()
        invariant
            i <= labels.len(),
            lv == labels@.map_values(|p: (String, String)| (p.0@, p.1@)),
            crate::config::lookup(lv, stem@) == crate::config::lookup(lv.skip(i as int), stem@),
        decreases labels.len() - i,
    {
        let ghost rest = lv.skip(i as int);
        assert(rest[0] == (labels@[i as int].0@, labels@[i as int].1@));
        if crate::text::eq_str(stem, labels[i].0.as_str()) {
            return chars_of(labels[i].1.as_str());
        }
        assert(rest.drop_first() =~= lv.skip(i + 1));
        i = i + 1;
    }
    Vec::new()
}

fn is_die_label(l: &[char]) -> (r: bool)
    ensures
        r == die_label(l@),
{
    crate::text::eq_str(l, "Tctl") || crate::text::eq_str(l, "Tdie") || crate::text::eq_str(l, "Package id 0")
}

/// Keep `file` as the best so far when it sorts before it.
fn better(best: Option<String>, file: &String) -> (r: Option<String>)
    ensures
        crate::config::opt_view(r) == (match crate::config::opt_view(best) {
            Some(b) => if seq_lt(file@, b) {
                Some(file@)
            } else {
                Some(b)
            },
            None => Some(file@),
        }),
{
    match best {
        Some(b) => {
            let fc = chars_of(file.as_str());
            let bc = chars_of(b.as_str());
            if chars_lt(fc.as_slice(), bc.as_slice()) {
                Some(file.clone())
            } else {
                Some(b)
            }
        },
        None => Some(file.clone()),
    }
}

/// The file holding the cpu's temperature among the files of a sensor
/// directory, given the labels (stem, label) of its inputs, see
/// [`temp_input_of`].
pub fn temp_input(files: &[String], labels: &[(String, String)]) -> (r: Option<String>)
    ensures
        crate::config::opt_view(r) == temp_input_of(
            crate::config::strings_view(files@),
            labels@.map_values(|p: (String, String)| (p.0@, p.1@)),
        ),
{
    let ghost fv = crate::config::strings_view(files@);
    let ghost lv = labels@.map_values(|p: (String, String)| (p.0@, p.1@));
    let ghost is_input = |f: Seq<char>| input_stem(f) is Some;
    let ghost is_labelled = |f: Seq<char>| input_stem(f) is Some && die_label(label_of(lv, input_stem(f)->0));
    let mut labelled: Option<String> = None;
    let mut first: Option<String> = None;
    let mut i: usize = 0;
    while i < files.len()
        invariant
            i <= files.len(),
            fv == crate::config::strings_view(files@),
            lv == labels@.map_values(|p: (String, String)| (p.0@, p.1@)),
            is_input == (|f: Seq<char>| input_stem(f) is Some),
            is_labelled == (|f: Seq<char>| input_stem(f) is Some && die_label(label_of(lv, input_stem(f)->0))),
            crate::config::opt_view(labelled) == least(fv.take(i as int), is_labelled),
            crate::config::opt_view(first) == least(fv.take(i as int), is_input),
        decreases files.len() - i,
    {
        assert(fv.take(i + 1).drop_last() =~= fv.take(i as int));
        assert(fv.take(i + 1).last() == files@[i as int]@);
        let name = chars_of(files[i].as_str());
        match stem_of(name.as_slice()) {
            Some(stem) => {
                let label = label_for(labels, stem.as_slice());
                if is_die_label(label.as_slice()) {
                    labelled = better(labelled, &files[i]);
                }
                first = better(first, &files[i]);
            },
            None => {},
        }
        i = i + 1;
    }
    assert(fv.take(files.len() as int) =~= fv);
    match labelled {
        Some(f) => Some(f),
        None => first,
    }
}

} // verus!
