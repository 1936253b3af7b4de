//! The `/proc` readers: each parses the text of one file. Reading the
//! files, and turning two readings into rates, are the caller's.
use vstd::prelude::*;

use crate::config::strings_view;
use crate::sysmon::{CpuTimes, Mem};
use crate::text::{
    chars_of, first_index, find_from, has_prefix, last_index, lines, parse_number, parse_u32,
    parse_u32_chars, parse_u64, parse_u64_chars, parse_uint, rfind, slice_vec, split_char,
    split_lines, split_on, split_once, split_once_char, split_ws, starts_with, string_of, trim,
    trim_chars, views, words, seq_lt, lemma_seq_lt_irreflexive, lemma_seq_lt_total, lemma_seq_lt_transitive,
};

verus! {

// ---------------------------------------------------------------------
// /proc/stat
// ---------------------------------------------------------------------

/// The words that read as `u64`, in order; the others are skipped.
pub open spec fn nums(ws: Seq<Seq<char>>) -> Seq<u64>
    decreases ws.len(),
{
    if ws.len() == 0 {
        seq![]
    } else {
        match parse_u64(ws.last()) {
            Some(n) => nums(ws.drop_last()).push(n),
            None => nums(ws.drop_last()),
        }
    }
}

pub open spec fn sum(v: Seq<u64>) -> int
    decreases v.len(),
{
    if v.len() == 0 {
        0
    } else {
        sum(v.drop_last()) + v.last()
    }
}

pub open spec fn at_or_zero(v: Seq<u64>, i: int) -> int {
    if 0 <= i < v.len() {
        v[i] as int
    } else {
        0
    }
}

/// The numbers of a cpu line after its label.
pub open spec fn cpu_fields(l: Seq<char>) -> Seq<u64> {
    if words(l).len() > 0 {
        nums(words(l).skip(1))
    } else {
        seq![]
    }
}

/// One cpu line: user nice system idle iowait irq softirq steal ...;
/// the total is their sum, idle is idle + iowait.
pub open spec fn cpu_line(l: Seq<char>) -> (int, int) {
    let v = cpu_fields(l);
    (sum(v), at_or_zero(v, 3) + at_or_zero(v, 4))
}

pub open spec fn is_cpu_line(l: Seq<char>) -> bool {
    starts_with(l, "cpu"@)
}

/// The cpu lines of `/proc/stat`, in order: the `cpu` total first,
/// then one per core.
pub open spec fn cpu_lines(ls: Seq<Seq<char>>) -> Seq<(int, int)>
    decreases ls.len(),
{
    if ls.len() == 0 {
        seq![]
    } else if is_cpu_line(ls.last()) {
        cpu_lines(ls.drop_last()).push(cpu_line(ls.last()))
    } else {
        cpu_lines(ls.drop_last())
    }
}

/// No cpu line sums past `u64::MAX`.
pub open spec fn cpu_sums_fit(text: Seq<char>) -> bool {
    forall|i: int| 0 <= i < lines(text).len() && is_cpu_line(#[trigger] lines(text)[i])
        ==> sum(cpu_fields(lines(text)[i])) <= u64::MAX
}

pub open spec fn times_view(v: Seq<CpuTimes>) -> Seq<(int, int)> {
    v.map_values(|t: CpuTimes| (t.total as int, t.idle as int))
}

proof fn lemma_sum_nonneg(v: Seq<u64>)
    ensures
        sum(v) >= 0,
    decreases v.len(),
{
    if v.len() > 0 {
        lemma_sum_nonneg(v.drop_last());
    }
}

proof fn lemma_sum_prefix(v: Seq<u64>, i: int)
    requires
        0 <= i <= v.len(),
    ensures
        sum(v.take(i)) <= sum(v),
    decreases v.len() - i,
{
    if i < v.len() {
        lemma_sum_prefix(v, i + 1);
        assert(v.take(i + 1).drop_last() =~= v.take(i));
    } else {
        assert(v.take(i) =~= v);
    }
}

proof fn lemma_two_le_sum(v: Seq<u64>, a: int, b: int)
    requires
        a != b,
    ensures
        at_or_zero(v, a) + at_or_zero(v, b) <= sum(v),
    decreases v.len(),
{
    lemma_sum_nonneg(v);
    if v.len() > 0 {
        let n = v.len() - 1;
        lemma_two_le_sum(v.drop_last(), a, b);
        lemma_sum_nonneg(v.drop_last());
        assert(a != n ==> at_or_zero(v, a) == at_or_zero(v.drop_last(), a));
        assert(b != n ==> at_or_zero(v, b) == at_or_zero(v.drop_last(), b));
        if a == n {
            lemma_one_le_sum(v.drop_last(), b);
        } else if b == n {
            lemma_one_le_sum(v.drop_last(), a);
        }
    }
}

proof fn lemma_one_le_sum(v: Seq<u64>, a: int)
    ensures
        at_or_zero(v, a) <= sum(v),
    decreases v.len(),
{
    lemma_sum_nonneg(v);
    if v.len() > 0 {
        lemma_one_le_sum(v.drop_last(), a);
        lemma_sum_nonneg(v.drop_last());
        if a != v.len() - 1 {
            assert(at_or_zero(v, a) == at_or_zero(v.drop_last(), a));
        }
    }
}

fn parse_fields(ws: &Vec<Vec<char>>, from: usize) -> (r: Vec<u64>)
    requires
        from <= ws.len(),
    ensures
        r@ == nums(views(ws@).skip(from as int)),
{
    let ghost w = views(ws@).skip(from as int);
    let mut r: Vec<u64> = Vec::new();
    let mut i: usize = from;
    assert(w.take(0) =~= Seq::<Seq<char>>::empty());
    while i < ws.len()
        invariant
            from <= i <= ws.len(),
            w == views(ws@).skip(from as int),
            r@ == nums(w.take(i - from)),
        decreases ws.len() - i,
    {
        assert(w.take(i - from + 1).drop_last() =~= w.take(i - from));
        assert(w.take(i - from + 1).last() == ws@[i as int]@);
        match parse_u64_chars(ws[i].as_slice()) {
            Some(n) => r.push(n),
            None => {},
        }
        i = i + 1;
    }
    assert(w.take(ws.len() - from) =~= w);
    r
}

fn cpu_line_times(l: &[char]) -> (r: CpuTimes)
    requires
        sum(cpu_fields(l@)) <= u64::MAX,
    ensures
        (r.total as int, r.idle as int) == cpu_line(l@),
{
    let ws = split_ws(l);
    let from: usize = if ws.len() > 0 { 1 } else { 0 };
    let v = parse_fields(&ws, from);
    proof {
        if ws.len() == 0 {
            assert(views(ws@).skip(0) =~= Seq::<Seq<char>>::empty());
        }
    }
    assert(v@ == cpu_fields(l@));
    let mut total: u64 = 0;
    let mut i: usize = 0;
    assert(v@.take(0) =~= Seq::<u64>::empty());
    while i < v.len()
        invariant
            i <= v.len(),
            sum(v@) <= u64::MAX,
            total == sum(v@.take(i as int)),
        decreases v.len() - i,
    {
        proof {
            lemma_sum_prefix(v@, i + 1);
            assert(v@.take(i + 1).drop_last() =~= v@.take(i as int));
        }
        total = total + v[i];
        i = i + 1;
    }
    assert(v@.take(v.len() as int) =~= v@);
    let a: u64 = if v.len() > 3 { v[3] } else { 0 };
    let b: u64 = if v.len() > 4 { v[4] } else { 0 };
    proof {
        lemma_two_le_sum(v@, 3, 4);
    }
    CpuTimes { total, idle: a + b }
}

/// The cpu lines of `/proc/stat`: user nice system idle iowait irq
/// softirq steal ... ; idle is idle + iowait.
pub fn cpu_times(stat: &str) -> (r: Vec<CpuTimes>)
    requires
        cpu_sums_fit(stat@),
    ensures
        times_view(r@) == cpu_lines(lines(stat@)),
{
    let t = chars_of(stat);
    let ls = split_lines(t.as_slice());
    let ghost lv = views(ls@);
    let mut r: Vec<CpuTimes> = Vec::new();
    let mut i: usize = 0;
    assert(lv.take(0) =~= Seq::<Seq<char>>::empty());
    assert(times_view(r@) =~= Seq::<(int, int)>::empty());
    while i < ls.len()
        invariant
            i <= ls.len(),
            lv == views(ls@),
            lv == lines(stat@),
            cpu_sums_fit(stat@),
            times_view(r@) == cpu_lines(lv.take(i as int)),
        decreases ls.len() - i,
    {
        assert(lv.take(i + 1).drop_last() =~= lv.take(i as int));
        assert(lv.take(i + 1).last() == ls@[i as int]@);
        assert(lv[i as int] == ls@[i as int]@);
        if has_prefix(ls[i].as_slice(), "cpu") {
            assert(is_cpu_line(lv[i as int]));
            let c = cpu_line_times(ls[i].as_slice());
            let ghost prev = times_view(r@);
            r.push(c);
            assert(times_view(r@) =~= prev.push((c.total as int, c.idle as int)));
        }
        i = i + 1;
    }
    assert(lv.take(ls.len() as int) =~= lv);
    r
}

// ---------------------------------------------------------------------
// /proc/meminfo
// ---------------------------------------------------------------------

/// What follows `key:` on the first line that starts so.
pub open spec fn mem_rest(ls: Seq<Seq<char>>, key: Seq<char>) -> Option<Seq<char>>
    decreases ls.len(),
{
    if ls.len() == 0 {
        None
    } else if starts_with(ls[0], key.push(':')) {
        Some(ls[0].skip(key.len() as int + 1))
    } else {
        mem_rest(ls.drop_first(), key)
    }
}

/// The kB of `key`: the first word after it, 0 when missing or no
/// number.
pub open spec fn kb_of(text: Seq<char>, key: Seq<char>) -> int {
    match mem_rest(lines(text), key) {
        Some(rest) => {
            let ws = words(rest);
            if ws.len() > 0 {
                match parse_u64(ws[0]) {
                    Some(n) => n as int,
                    None => 0,
                }
            } else {
                0
            }
        },
        None => 0,
    }
}

/// `/proc/meminfo` in bytes: used is total - available, cached is
/// `Cached` + `SReclaimable` + `Buffers`, swap used is total - free.
pub open spec fn mem_of(text: Seq<char>) -> (int, int, int, int, int, int) {
    let total = kb_of(text, "MemTotal"@) * 1024;
    let available = kb_of(text, "MemAvailable"@) * 1024;
    let cached = kb_of(text, "Cached"@) * 1024 + kb_of(text, "SReclaimable"@) * 1024 + kb_of(text, "Buffers"@) * 1024;
    let swap_total = kb_of(text, "SwapTotal"@) * 1024;
    let swap_free = kb_of(text, "SwapFree"@) * 1024;
    (
        total,
        if total >= available { total - available } else { 0 },
        available,
        cached,
        swap_total,
        if swap_total >= swap_free { swap_total - swap_free } else { 0 },
    )
}

/// Every value of [`mem_of`] fits a `u64`.
pub open spec fn mem_fits(text: Seq<char>) -> bool {
    &&& kb_of(text, "MemTotal"@) * 1024 <= u64::MAX
    &&& kb_of(text, "MemAvailable"@) * 1024 <= u64::MAX
    &&& kb_of(text, "Cached"@) * 1024 + kb_of(text, "SReclaimable"@) * 1024 + kb_of(text, "Buffers"@) * 1024 <= u64::MAX
    &&& kb_of(text, "SwapTotal"@) * 1024 <= u64::MAX
    &&& kb_of(text, "SwapFree"@) * 1024 <= u64::MAX
}

fn key_colon(key: &str) -> (r: String)
    ensures
        r@ == key@.push(':'),
{
    let mut s = crate::text::owned(key);
    crate::text::push_char(&mut s, ':');
    s
}

fn kb(ls: &Vec<Vec<char>>, key: &str) -> (r: u64)
    ensures
        r == kb_of_lines(views(ls@), key@),
{
    let ghost lv = views(ls@);
    let kc = key_colon(key);
    let kv = chars_of(kc.as_str());
    let mut i: usize = 0;
    assert(lv.skip(0) =~= lv);
    while i < ls.len()
        invariant
            i <= ls.len(),
            lv == views(ls@),
            kc@ == key@.push(':'),
            kv@ == kc@,
            mem_rest(lv, key@) == mem_rest(lv.skip(i as int), key@),
        decreases ls.len() - i,
    {
        assert(lv.skip(i as int)[0] == ls@[i as int]@);
        assert(lv.skip(i as int).drop_first() =~= lv.skip(i + 1));
        if has_prefix(ls[i].as_slice(), kc.as_str()) {
            let rest = slice_vec(ls[i].as_slice(), kv.len(), ls[i].len());
            assert(rest@ =~= ls@[i as int]@.skip(key@.len() as int + 1));
            let ws = split_ws(rest.as_slice());
            if ws.len() > 0 {
                assert(views(ws@)[0] == ws@[0]@);
                return match parse_u64_chars(ws[0].as_slice()) {
                    Some(n) => n,
                    None => 0,
                };
            }
            return 0;
        }
        i = i + 1;
    }
    0
}

pub open spec fn kb_of_lines(ls: Seq<Seq<char>>, key: Seq<char>) -> int {
    match mem_rest(ls, key) {
        Some(rest) => {
            let ws = words(rest);
            if ws.len() > 0 {
                match parse_u64(ws[0]) {
                    Some(n) => n as int,
                    None => 0,
                }
            } else {
                0
            }
        },
        None => 0,
    }
}

/// `/proc/meminfo`, in bytes (the file is in kB).
pub fn meminfo(text: &str) -> (r: Mem)
    requires
        mem_fits(text@),
    ensures
        (r.total as int, r.used as int, r.available as int, r.cached as int, r.swap_total as int, r.swap_used as int)
            == mem_of(text@),
{
    let t = chars_of(text);
    let ls = split_lines(t.as_slice());
    assert(views(ls@) == lines(text@));
    let total = kb(&ls, "MemTotal") * 1024;
    let available = kb(&ls, "MemAvailable") * 1024;
    let cached = kb(&ls, "Cached") * 1024 + kb(&ls, "SReclaimable") * 1024 + kb(&ls, "Buffers") * 1024;
    let swap_total = kb(&ls, "SwapTotal") * 1024;
    let swap_free = kb(&ls, "SwapFree") * 1024;
    Mem {
        total,
        used: if total >= available { total - available } else { 0 },
        available,
        cached,
        swap_total,
        swap_used: if swap_total >= swap_free { swap_total - swap_free } else { 0 },
    }
}


// ---------------------------------------------------------------------
// Counters
// ---------------------------------------------------------------------

/// A device's or interface's pair of counters, by name, in file order.
pub open spec fn counters_view(v: Seq<(String, (u64, u64))>) -> Seq<(Seq<char>, (u64, u64))> {
    v.map_values(|e: (String, (u64, u64))| (e.0@, e.1))
}

/// `/proc/diskstats`, one line: sectors read (field 6) and written
/// (field 10) by device name (field 3).
pub open spec fn disk_line(l: Seq<char>) -> Option<(Seq<char>, (u64, u64))> {
    let f = words(l);
    if f.len() > 9 {
        match (parse_u64(f[5]), parse_u64(f[9])) {
            (Some(r), Some(w)) => Some((f[2], (r, w))),
            _ => None,
        }
    } else {
        None
    }
}

/// `/proc/net/dev`, one line after the two headers: bytes received
/// (first field) and sent (ninth) by interface.
pub open spec fn net_line(l: Seq<char>) -> Option<(Seq<char>, (u64, u64))> {
    match split_once(l, ':') {
        Some((name, rest)) => {
            let f = words(rest);
            if f.len() > 8 {
                match (parse_u64(f[0]), parse_u64(f[8])) {
                    (Some(rx), Some(tx)) => Some((trim(name), (rx, tx))),
                    _ => None,
                }
            } else {
                None
            }
        },
        None => None,
    }
}

/// The lines `f` reads, in order.
pub open spec fn entries_of(
    ls: Seq<Seq<char>>,
    f: spec_fn(Seq<char>) -> Option<(Seq<char>, (u64, u64))>,
) -> Seq<(Seq<char>, (u64, u64))>
    decreases ls.len(),
{
    if ls.len() == 0 {
        seq![]
    } else {
        match f(ls.last()) {
            Some(e) => entries_of(ls.drop_last(), f).push(e),
            None => entries_of(ls.drop_last(), f),
        }
    }
}

pub open spec fn disk_reader() -> spec_fn(Seq<char>) -> Option<(Seq<char>, (u64, u64))> {
    |l: Seq<char>| disk_line(l)
}

pub open spec fn net_reader() -> spec_fn(Seq<char>) -> Option<(Seq<char>, (u64, u64))> {
    |l: Seq<char>| net_line(l)
}

/// The counters of `name`: the last line for it wins.
pub open spec fn counter_of(es: Seq<(Seq<char>, (u64, u64))>, name: Seq<char>) -> Option<(u64, u64)>
    decreases es.len(),
{
    if es.len() == 0 {
        None
    } else if es.last().0 == name {
        Some(es.last().1)
    } else {
        counter_of(es.drop_last(), name)
    }
}

fn word_u64(ws: &Vec<Vec<char>>, i: usize) -> (r: Option<u64>)
    requires
        i < ws.len(),
    ensures
        r == parse_u64(views(ws@)[i as int]),
{
    parse_u64_chars(ws[i].as_slice())
}

fn read_disk_line(l: &[char]) -> (r: Option<(String, (u64, u64))>)
    ensures
        match r {
            Some(e) => disk_line(l@) == Some((e.0@, e.1)),
            None => disk_line(l@) is None,
        },
{
    let f = split_ws(l);
    if f.len() <= 9 {
        return None;
    }
    let r = word_u64(&f, 5);
    let w = word_u64(&f, 9);
    match (r, w) {
        (Some(r), Some(w)) => {
            assert(views(f@)[2] == f@[2]@);
            Some((string_of(f[2].as_slice()), (r, w)))
        },
        _ => None,
    }
}

fn read_net_line(l: &[char]) -> (r: Option<(String, (u64, u64))>)
    ensures
        match r {
            Some(e) => net_line(l@) == Some((e.0@, e.1)),
            None => net_line(l@) is None,
        },
{
    let (name, rest) = match split_once_char(l, ':') {
        Some(p) => p,
        None => return None,
    };
    let f = split_ws(rest.as_slice());
    if f.len() <= 8 {
        return None;
    }
    let rx = word_u64(&f, 0);
    let tx = word_u64(&f, 8);
    match (rx, tx) {
        (Some(rx), Some(tx)) => {
            let n = trim_chars(name.as_slice());
            Some((string_of(n.as_slice()), (rx, tx)))
        },
        _ => None,
    }
}

/// `/proc/diskstats`: sectors read (field 6) and written (field 10) by
/// device name (field 3), partitions included, in file order.
pub fn diskstats(text: &str) -> (r: Vec<(String, (u64, u64))>)
    ensures
        counters_view(r@) == entries_of(lines(text@), disk_reader()),
{
    let t = chars_of(text);
    let ls = split_lines(t.as_slice());
    let ghost lv = views(ls@);
    let mut r: Vec<(String, (u64, u64))> = Vec::new();
    let mut i: usize = 0;
    assert(lv.take(0) =~= Seq::<Seq<char>>::empty());
    assert(counters_view(r@) =~= Seq::<(Seq<char>, (u64, u64))>::empty());
    while i < ls.len()
        invariant
            i <= ls.len(),
            lv == views(ls@),
            counters_view(r@) == entries_of(lv.take(i as int), disk_reader()),
        decreases ls.len() - i,
    {
        assert(lv.take(i + 1).drop_last() =~= lv.take(i as int));
        assert(lv.take(i + 1).last() == ls@[i as int]@);
        match read_disk_line(ls[i].as_slice()) {
            Some(e) => {
                let ghost prev = counters_view(r@);
                let ghost ev = (e.0@, e.1);
                r.push(e);
                assert(counters_view(r@) =~= prev.push(ev));
            },
            None => {},
        }
        i = i + 1;
    }
    assert(lv.take(ls.len() as int) =~= lv);
    r
}

/// `/proc/net/dev`: bytes received (first field) and sent (ninth) by
/// interface, the two header lines skipped, in file order.
pub fn netdev(text: &str) -> (r: Vec<(String, (u64, u64))>)
    ensures
        counters_view(r@) == entries_of(
            if lines(text@).len() >= 2 { lines(text@).skip(2) } else { seq![] },
            net_reader(),
        ),
{
    let t = chars_of(text);
    let ls = split_lines(t.as_slice());
    let ghost lv = views(ls@);
    let ghost body = if lv.len() >= 2 { lv.skip(2) } else { Seq::<Seq<char>>::empty() };
    let mut r: Vec<(String, (u64, u64))> = Vec::new();
    let start: usize = if ls.len() >= 2 { 2 } else { ls.len() };
    let mut i: usize = start;
    assert(body.take(0) =~= Seq::<Seq<char>>::empty());
    assert(counters_view(r@) =~= Seq::<(Seq<char>, (u64, u64))>::empty());
    while i < ls.len()
        invariant
            start <= i <= ls.len(),
            lv == views(ls@),
            start == (if ls.len() >= 2 { 2 } else { ls.len() }),
            body == (if lv.len() >= 2 { lv.skip(2) } else { Seq::<Seq<char>>::empty() }),
            counters_view(r@) == entries_of(body.take(i - start), net_reader()),
        decreases ls.len() - i,
    {
        assert(body.take(i - start + 1).drop_last() =~= body.take(i - start));
        assert(body.take(i - start + 1).last() == ls@[i as int]@);
        match read_net_line(ls[i].as_slice()) {
            Some(e) => {
                let ghost prev = counters_view(r@);
                let ghost ev = (e.0@, e.1);
                r.push(e);
                assert(counters_view(r@) =~= prev.push(ev));
            },
            None => {},
        }
        i = i + 1;
    }
    assert(body.take(ls.len() - start) =~= body);
    r
}

/// The counters of `name`, the last reading of it winning.
pub fn counter(es: &Vec<(String, (u64, u64))>, name: &str) -> (r: Option<(u64, u64)>)
    ensures
        r == counter_of(counters_view(es@), name@),
{
    let ghost cv = counters_view(es@);
    let n = chars_of(name);
    let mut k = es.len();
    assert(cv.take(k as int) =~= cv);
    while k > 0
        invariant
            k <= es.len(),
            cv == counters_view(es@),
            n@ == name@,
            counter_of(cv, name@) == counter_of(cv.take(k as int), name@),
        decreases k,
    {
        assert(cv.take(k as int).last() == (es@[k - 1].0@, es@[k - 1].1));
        let e = chars_of(es[k - 1].0.as_str());
        if crate::text::eq_chars(e.as_slice(), n.as_slice()) {
            return Some(es[k - 1].1);
        }
        assert(cv.take(k as int).drop_last() =~= cv.take(k - 1));
        k = k - 1;
    }
    None
}

/// Interfaces skipped by default: the loopback and the container
/// plumbing.
pub open spec fn is_virtual_iface(name: Seq<char>) -> bool {
    name == "lo"@ || starts_with(name, "veth"@) || starts_with(name, "br-"@) || starts_with(name, "docker"@)
        || starts_with(name, "virbr"@) || starts_with(name, "vnet"@)
}

pub fn virtual_iface(name: &str) -> (r: bool)
    ensures
        r == is_virtual_iface(name@),
{
    let n = chars_of(name);
    crate::text::eq_str(n.as_slice(), "lo") || has_prefix(n.as_slice(), "veth") || has_prefix(n.as_slice(), "br-")
        || has_prefix(n.as_slice(), "docker") || has_prefix(n.as_slice(), "virbr") || has_prefix(n.as_slice(), "vnet")
}

// ---------------------------------------------------------------------
// Processes and users
// ---------------------------------------------------------------------

/// The name is between the first `(` and the last `)`; slicing it out
/// needs the `)` after the `(`.
pub open spec fn stat_sliceable(line: Seq<char>) -> bool {
    let start = first_index(line, '(');
    match last_index(line, ')') {
        Some(end) => start < line.len() ==> start < end,
        None => true,
    }
}

/// The fields after the name.
pub open spec fn stat_fields(line: Seq<char>, end: int) -> Seq<Seq<char>> {
    words(line.skip(end + 1))
}

/// One `/proc/[pid]/stat` line: the name is in parentheses and may
/// contain spaces and parentheses itself, so it's cut at the last `)`.
/// Fields after it: state (1), ..., utime (12), stime (13), ..., rss
/// (22, pages). The ticks are utime + stime.
pub open spec fn stat_of(line: Seq<char>) -> Option<(Seq<char>, char, int, u64)> {
    let start = first_index(line, '(');
    if start >= line.len() {
        None
    } else {
        match last_index(line, ')') {
            None => None,
            Some(end) => {
                let f = stat_fields(line, end);
                if f.len() > 21 {
                    match (parse_u64(f[11]), parse_u64(f[12]), parse_u64(f[21])) {
                        (Some(u), Some(s), Some(rss)) => Some((line.subrange(start + 1, end), f[0][0], u + s, rss)),
                        _ => None,
                    }
                } else {
                    None
                }
            },
        }
    }
}

/// The ticks of a line fit a `u64`.
pub open spec fn stat_ticks_fit(line: Seq<char>) -> bool {
    stat_of(line) matches Some(t) ==> t.2 <= u64::MAX
}

pub fn stat_line(line: &str) -> (r: Option<(String, char, u64, u64)>)
    requires
        stat_sliceable(line@),
        stat_ticks_fit(line@),
    ensures
        match r {
            Some((name, state, ticks, rss)) => stat_of(line@) == Some((name@, state, ticks as int, rss)),
            None => stat_of(line@) is None,
        },
{
    let l = chars_of(line);
    let start = find_from(l.as_slice(), 0, '(');
    assert(l@.skip(0) =~= l@);
    if start >= l.len() {
        return None;
    }
    let end = match rfind(l.as_slice(), ')') {
        Some(e) => e,
        None => return None,
    };
    proof {
        crate::text::lemma_last_index_bound(l@, ')');
    }
    let name = slice_vec(l.as_slice(), start + 1, end);
    let rest = slice_vec(l.as_slice(), end + 1, l.len());
    assert(rest@ =~= l@.skip(end + 1));
    let f = split_ws(rest.as_slice());
    if f.len() <= 21 {
        return None;
    }
    let u = word_u64(&f, 11);
    let s = word_u64(&f, 12);
    let rss = word_u64(&f, 21);
    match (u, s, rss) {
        (Some(u), Some(s), Some(rss)) => {
            assert(views(f@)[0] == f@[0]@);
            proof {
                crate::text::lemma_words_nonempty(rest@);
            }
            let state = f[0][0];
            Some((string_of(name.as_slice()), state, u + s, rss))
        },
        _ => None,
    }
}

/// `/etc/passwd`, one line: uid (third field) and user name (first).
pub open spec fn passwd_line(l: Seq<char>) -> Option<(u32, Seq<char>)> {
    let f = split_on(l, ':');
    if f.len() > 2 {
        match parse_u32(f[2]) {
            Some(uid) => Some((uid, f[0])),
            None => None,
        }
    } else {
        None
    }
}

pub open spec fn passwd_entries(ls: Seq<Seq<char>>) -> Seq<(u32, Seq<char>)>
    decreases ls.len(),
{
    if ls.len() == 0 {
        seq![]
    } else {
        match passwd_line(ls.last()) {
            Some(e) => passwd_entries(ls.drop_last()).push(e),
            None => passwd_entries(ls.drop_last()),
        }
    }
}

pub open spec fn users_view(v: Seq<(u32, String)>) -> Seq<(u32, Seq<char>)> {
    v.map_values(|e: (u32, String)| (e.0, e.1@))
}

/// The name of `uid`: the last line for it wins.
pub open spec fn user_of(es: Seq<(u32, Seq<char>)>, uid: u32) -> Option<Seq<char>>
    decreases es.len(),
{
    if es.len() == 0 {
        None
    } else if es.last().0 == uid {
        Some(es.last().1)
    } else {
        user_of(es.drop_last(), uid)
    }
}

/// `/etc/passwd`: uid and user name, in file order.
pub fn users(text: &str) -> (r: Vec<(u32, String)>)
    ensures
        users_view(r@) == passwd_entries(lines(text@)),
{
    let t = chars_of(text);
    let ls = split_lines(t.as_slice());
    let ghost lv = views(ls@);
    let mut r: Vec<(u32, String)> = Vec::new();
    let mut i: usize = 0;
    assert(lv.take(0) =~= Seq::<Seq<char>>::empty());
    assert(users_view(r@) =~= Seq::<(u32, Seq<char>)>::empty());
    while i < ls.len()
        invariant
            i <= ls.len(),
            lv == views(ls@),
            users_view(r@) == passwd_entries(lv.take(i as int)),
        decreases ls.len() - i,
    {
        assert(lv.take(i + 1).drop_last() =~= lv.take(i as int));
        assert(lv.take(i + 1).last() == ls@[i as int]@);
        let f = split_char(ls[i].as_slice(), ':');
        if f.len() > 2 {
            assert(views(f@)[2] == f@[2]@);
            assert(views(f@)[0] == f@[0]@);
            match parse_u32_chars(f[2].as_slice()) {
                Some(uid) => {
                    let ghost prev = users_view(r@);
                    let name = string_of(f[0].as_slice());
                    let ghost nv = name@;
                    r.push((uid, name));
                    assert(users_view(r@) =~= prev.push((uid, nv)));
                },
                None => {},
            }
        }
        i = i + 1;
    }
    assert(lv.take(ls.len() as int) =~= lv);
    r
}

/// The user name of `uid`, if `/etc/passwd` has one.
pub fn user_name(es: &Vec<(u32, String)>, uid: u32) -> (r: Option<String>)
    ensures
        crate::config::opt_view(r) == user_of(users_view(es@), uid),
{
    let ghost uv = users_view(es@);
    let mut k = es.len();
    assert(uv.take(k as int) =~= uv);
    while k > 0
        invariant
            k <= es.len(),
            uv == users_view(es@),
            user_of(uv, uid) == user_of(uv.take(k as int), uid),
        decreases k,
    {
        assert(uv.take(k as int).last() == (es@[k - 1].0, es@[k - 1].1@));
        if es[k - 1].0 == uid {
            return Some(es[k - 1].1.clone());
        }
        assert(uv.take(k as int).drop_last() =~= uv.take(k - 1));
        k = k - 1;
    }
    None
}

// ---------------------------------------------------------------------
// /proc/mounts
// ---------------------------------------------------------------------

/// Mount points with octal escapes (`\040` for a space) turned back
/// into their characters; a backslash not followed by three octal
/// digits of at most 255 stays.
pub open spec fn unescaped(s: Seq<char>) -> Seq<char>
    decreases s.len(),
{
    if s.len() == 0 {
        seq![]
    } else if s[0] == '\\' && s.len() >= 4 && parse_uint(s.subrange(1, 4), 8, 255) is Some {
        seq![char_of_byte(parse_uint(s.subrange(1, 4), 8, 255)->0)] + unescaped(s.skip(4))
    } else {
        seq![s[0]] + unescaped(s.drop_first())
    }
}

/// The character a byte stands for (U+0000 to U+00FF).
pub open spec fn char_of_byte(n: nat) -> char {
    (n as u8) as char
}

pub fn unescape(s: &str) -> (r: String)
    ensures
        r@ == unescaped(s@),
{
    let v = chars_of(s);
    let mut out: Vec<char> = Vec::new();
    let mut i: usize = 0;
    assert(v@.skip(0) =~= v@);
    while i < v.len()
        invariant
            i <= v.len(),
            v@ == s@,
            unescaped(s@) == out@ + unescaped(v@.skip(i as int)),
        decreases v.len() - i,
    {
        let ghost t = v@.skip(i as int);
        if v[i] == '\\' && v.len() - i > 3 {
            let digits = slice_vec(v.as_slice(), i + 1, i + 4);
            assert(digits@ =~= t.subrange(1, 4));
            match parse_number(digits.as_slice(), 8, 255) {
                Some(code) => {
                    let c = (code as u8) as char;
                    let ghost o0 = out@;
                    out.push(c);
                    assert(t.skip(4) =~= v@.skip(i + 4));
                    assert(o0 + unescaped(t) =~= out@ + unescaped(v@.skip(i + 4)));
                    i = i + 4;
                    continue;
                },
                None => {},
            }
        }
        let ghost o0 = out@;
        out.push(v[i]);
        assert(t[0] == v@[i as int]);
        assert(t.drop_first() =~= v@.skip(i + 1));
        assert(o0 + unescaped(t) =~= out@ + unescaped(v@.skip(i + 1)));
        i = i + 1;
    }
    assert(v@.skip(v.len() as int) =~= Seq::<char>::empty());
    assert(out@ + Seq::<char>::empty() =~= out@);
    string_of(out.as_slice())
}


/// A mount of `/proc/mounts` worth showing: device, mount point and
/// filesystem type.
#[derive(Debug)]
pub struct Mount {
    pub device: String,
    pub point: String,
    pub fs: String,
}

pub struct MountView {
    pub device: Seq<char>,
    pub point: Seq<char>,
    pub fs: Seq<char>,
}

impl View for Mount {
    type V = MountView;

    open spec fn view(&self) -> MountView {
        MountView { device: self.device@, point: self.point@, fs: self.fs@ }
    }
}

impl Mount {
    /// A field-by-field copy.
    pub fn copy(&self) -> (r: Mount)
        ensures
            r@ == self@,
    {
        Mount { device: self.device.clone(), point: self.point.clone(), fs: self.fs.clone() }
    }
}

pub open spec fn mounts_view(v: Seq<Mount>) -> Seq<MountView> {
    v.map_values(|m: Mount| m@)
}

/// Pseudo and memory-backed filesystems, not shown unless asked for.
pub const VIRTUAL_FS: [&'static str; 24] = [
    "proc",
    "sysfs",
    "tmpfs",
    "devtmpfs",
    "devpts",
    "cgroup",
    "cgroup2",
    "overlay",
    "squashfs",
    "autofs",
    "mqueue",
    "hugetlbfs",
    "debugfs",
    "tracefs",
    "securityfs",
    "pstore",
    "efivarfs",
    "bpf",
    "configfs",
    "binfmt_misc",
    "fusectl",
    "ramfs",
    "rpc_pipefs",
    "nsfs",
];

pub open spec fn virtual_fs(fs: Seq<char>) -> bool {
    VIRTUAL_FS@.map_values(|s: &str| s@).contains(fs)
}

/// A line of `/proc/mounts`: device, mount point (escapes undone) and
/// type, the first three words; none with fewer.
pub open spec fn mount_line(l: Seq<char>) -> Option<MountView> {
    let w = words(l);
    if w.len() >= 3 {
        Some(MountView { device: w[0], point: unescaped(w[1]), fs: w[2] })
    } else {
        None
    }
}

/// Mounts on the `wanted` points when some are named; else the real
/// filesystems: not virtual, not FUSE, on a device path.
pub open spec fn wanted_mount(m: MountView, wanted: Seq<Seq<char>>) -> bool {
    if wanted.len() == 0 {
        !virtual_fs(m.fs) && !starts_with(m.fs, "fuse"@) && starts_with(m.device, "/"@)
    } else {
        wanted.contains(m.point)
    }
}

/// The wanted mounts of the lines, in order.
pub open spec fn wanted_mounts(ls: Seq<Seq<char>>, wanted: Seq<Seq<char>>) -> Seq<MountView>
    decreases ls.len(),
{
    if ls.len() == 0 {
        seq![]
    } else {
        let before = wanted_mounts(ls.drop_last(), wanted);
        match mount_line(ls.last()) {
            Some(m) => if wanted_mount(m, wanted) {
                before.push(m)
            } else {
                before
            },
            None => before,
        }
    }
}

/// Index of the mount on `point`; `s.len()` if none.
pub open spec fn point_pos(s: Seq<MountView>, point: Seq<char>) -> int
    decreases s.len(),
{
    if s.len() == 0 {
        0
    } else if s[0].point == point {
        0
    } else {
        point_pos(s.drop_first(), point) + 1
    }
}

/// One mount per point, the last one mounted there winning.
pub open spec fn by_point(s: Seq<MountView>) -> Seq<MountView>
    decreases s.len(),
{
    if s.len() == 0 {
        s
    } else {
        let acc = by_point(s.drop_last());
        let p = point_pos(acc, s.last().point);
        if p < acc.len() {
            acc.update(p, s.last())
        } else {
            acc.push(s.last())
        }
    }
}

/// `/` first, then by mount point.
pub open spec fn point_before(p: Seq<char>, q: Seq<char>) -> bool {
    (p == "/"@ && q != "/"@) || ((p == "/"@) == (q == "/"@) && seq_lt(p, q))
}

/// Where a mount goes in a sorted list: after every one not after it.
pub open spec fn mount_slot(s: Seq<MountView>, m: MountView) -> int
    decreases s.len(),
{
    if s.len() == 0 {
        0
    } else if !point_before(m.point, s.last().point) {
        s.len() as int
    } else {
        mount_slot(s.drop_last(), m)
    }
}

/// `s` sorted by mount point, `/` first (stable).
pub open spec fn sorted_mounts(s: Seq<MountView>) -> Seq<MountView>
    decreases s.len(),
{
    if s.len() == 0 {
        s
    } else {
        let r = sorted_mounts(s.drop_last());
        r.insert(mount_slot(r, s.last()), s.last())
    }
}

/// The first mount of each device: btrfs subvolumes and bind mounts
/// share their filesystem, the first mount point stands for it.
pub open spec fn first_per_device(s: Seq<MountView>) -> Seq<MountView>
    decreases s.len(),
{
    if s.len() == 0 {
        s
    } else {
        let d = first_per_device(s.drop_last());
        if exists|j: int| 0 <= j < s.len() - 1 && #[trigger] s[j].device == s.last().device {
            d
        } else {
            d.push(s.last())
        }
    }
}

/// The mounts of `/proc/mounts` to show: those on the `wanted` points
/// when given, else every real filesystem once per device; one per
/// mount point (the last mount wins), `/` first then by mount point.
pub open spec fn mounts_of(text: Seq<char>, wanted: Seq<Seq<char>>) -> Seq<MountView> {
    let sorted = sorted_mounts(by_point(wanted_mounts(lines(text), wanted)));
    if wanted.len() == 0 {
        first_per_device(sorted)
    } else {
        sorted
    }
}

pub open spec fn strictly_sorted(s: Seq<MountView>) -> bool {
    forall|i: int, j: int| 0 <= i < j < s.len() ==> point_before(#[trigger] s[i].point, #[trigger] s[j].point)
}

pub open spec fn distinct_points(s: Seq<MountView>) -> bool {
    forall|i: int, j: int| 0 <= i < j < s.len() ==> #[trigger] s[i].point != #[trigger] s[j].point
}

pub open spec fn distinct_devices(s: Seq<MountView>) -> bool {
    forall|i: int, j: int| 0 <= i < j < s.len() ==> #[trigger] s[i].device != #[trigger] s[j].device
}

proof fn lemma_point_order(p: Seq<char>, q: Seq<char>, r: Seq<char>)
    ensures
        !point_before(p, p),
        !(point_before(p, q) && point_before(q, p)),
        p != q ==> point_before(p, q) || point_before(q, p),
        point_before(p, q) && point_before(q, r) ==> point_before(p, r),
{
    lemma_seq_lt_irreflexive(p);
    lemma_seq_lt_total(p, q);
    if seq_lt(p, q) && seq_lt(q, r) {
        lemma_seq_lt_transitive(p, q, r);
    }
}

proof fn lemma_point_pos(s: Seq<MountView>, point: Seq<char>)
    ensures
        0 <= point_pos(s, point) <= s.len(),
        point_pos(s, point) < s.len() ==> s[point_pos(s, point)].point == point,
        point_pos(s, point) == s.len() ==> forall|j: int| 0 <= j < s.len() ==> (#[trigger] s[j]).point != point,
    decreases s.len(),
{
    if s.len() > 0 && s[0].point != point {
        lemma_point_pos(s.drop_first(), point);
        assert forall|j: int| 0 <= j < s.len() && point_pos(s, point) == s.len() implies (#[trigger] s[j]).point
            != point by {
            if j > 0 {
                assert(s[j] == s.drop_first()[j - 1]);
            }
        }
    }
}

proof fn lemma_point_pos_at(s: Seq<MountView>, point: Seq<char>, i: int)
    requires
        0 <= i <= s.len(),
        i < s.len() ==> s[i].point == point,
        forall|j: int| 0 <= j < i ==> (#[trigger] s[j]).point != point,
    ensures
        point_pos(s, point) == i,
    decreases s.len(),
{
    if s.len() > 0 && i > 0 {
        assert(s[0].point != point);
        assert forall|j: int| 0 <= j < i - 1 implies (#[trigger] s.drop_first()[j]).point != point by {
            assert(s.drop_first()[j] == s[j + 1]);
        }
        lemma_point_pos_at(s.drop_first(), point, i - 1);
    }
}

proof fn lemma_by_point(s: Seq<MountView>)
    ensures
        distinct_points(by_point(s)),
    decreases s.len(),
{
    if s.len() > 0 {
        let acc = by_point(s.drop_last());
        lemma_by_point(s.drop_last());
        lemma_point_pos(acc, s.last().point);
        let p = point_pos(acc, s.last().point);
        if p < acc.len() {
            let u = acc.update(p, s.last());
            assert forall|i: int, j: int| 0 <= i < j < u.len() implies #[trigger] u[i].point != #[trigger] u[j].point by {
                assert(acc[i].point != acc[j].point);
            }
        } else {
            let u = acc.push(s.last());
            assert forall|i: int, j: int| 0 <= i < j < u.len() implies #[trigger] u[i].point != #[trigger] u[j].point by {
                if j < acc.len() {
                    assert(acc[i].point != acc[j].point);
                }
            }
        }
    }
}

proof fn lemma_mount_slot(s: Seq<MountView>, m: MountView)
    requires
        strictly_sorted(s),
    ensures
        0 <= mount_slot(s, m) <= s.len(),
        forall|j: int| 0 <= j < mount_slot(s, m) ==> !point_before(m.point, (#[trigger] s[j]).point),
        forall|j: int| mount_slot(s, m) <= j < s.len() ==> point_before(m.point, (#[trigger] s[j]).point),
    decreases s.len(),
{
    if s.len() > 0 {
        let t = s.drop_last();
        if !point_before(m.point, s.last().point) {
            assert forall|j: int| 0 <= j < mount_slot(s, m) implies !point_before(m.point, (#[trigger] s[j]).point) by {
                if j < s.len() - 1 {
                    assert(point_before(s[j].point, s[s.len() - 1].point));
                    lemma_point_order(m.point, s[j].point, s.last().point);
                }
            }
        } else {
            assert(strictly_sorted(t)) by {
                assert forall|i: int, j: int| 0 <= i < j < t.len() implies point_before(
                    #[trigger] t[i].point,
                    #[trigger] t[j].point,
                ) by {
                    assert(t[i] == s[i] && t[j] == s[j]);
                }
            }
            lemma_mount_slot(t, m);
            assert forall|j: int| 0 <= j < mount_slot(s, m) implies !point_before(m.point, (#[trigger] s[j]).point) by {
                assert(t[j] == s[j]);
            }
            assert forall|j: int| mount_slot(s, m) <= j < s.len() implies point_before(m.point, (#[trigger] s[j]).point) by {
                if j < s.len() - 1 {
                    assert(t[j] == s[j]);
                }
            }
        }
    }
}

proof fn lemma_sorted_mounts(s: Seq<MountView>)
    requires
        distinct_points(s),
    ensures
        strictly_sorted(sorted_mounts(s)),
        sorted_mounts(s).len() == s.len(),
        forall|i: int| 0 <= i < s.len() ==> s.contains(#[trigger] sorted_mounts(s)[i]),
    decreases s.len(),
{
    if s.len() > 0 {
        let t = s.drop_last();
        assert(distinct_points(t)) by {
            assert forall|i: int, j: int| 0 <= i < j < t.len() implies #[trigger] t[i].point != #[trigger] t[j].point by {
                assert(t[i] == s[i] && t[j] == s[j]);
            }
        }
        lemma_sorted_mounts(t);
        let r = sorted_mounts(t);
        let x = s.last();
        lemma_mount_slot(r, x);
        let p = mount_slot(r, x);
        let u = r.insert(p, x);
        assert forall|j: int| 0 <= j < r.len() implies (#[trigger] r[j]).point != x.point by {
            assert(t.contains(r[j]));
            let k = choose|k: int| 0 <= k < t.len() && t[k] == r[j];
            assert(s[k] == t[k]);
            assert(s[k].point != s[s.len() - 1].point);
        }
        assert forall|i: int, j: int| 0 <= i < j < u.len() implies point_before(#[trigger] u[i].point, #[trigger] u[j].point) by {
            if i < p && j > p {
                assert(point_before(r[i].point, r[j - 1].point));
            } else if j < p {
                assert(point_before(r[i].point, r[j].point));
            } else if i > p {
                assert(point_before(r[i - 1].point, r[j - 1].point));
            } else if i == p {
                assert(point_before(x.point, r[j - 1].point));
            } else {
                lemma_point_order(x.point, r[i].point, r[i].point);
            }
        }
        assert forall|i: int| 0 <= i < s.len() implies s.contains(#[trigger] u[i]) by {
            if i == p {
                assert(s[s.len() - 1] == u[i]);
            } else {
                let k = if i < p { i } else { i - 1 };
                assert(u[i] == r[k]);
                assert(t.contains(r[k]));
                let w = choose|w: int| 0 <= w < t.len() && t[w] == r[k];
                assert(s[w] == t[w]);
            }
        }
    }
}

proof fn lemma_first_per_device(s: Seq<MountView>)
    requires
        strictly_sorted(s),
    ensures
        strictly_sorted(first_per_device(s)),
        distinct_devices(first_per_device(s)),
        forall|i: int| 0 <= i < first_per_device(s).len() ==> s.contains(#[trigger] first_per_device(s)[i]),
    decreases s.len(),
{
    if s.len() > 0 {
        let t = s.drop_last();
        assert(strictly_sorted(t)) by {
            assert forall|i: int, j: int| 0 <= i < j < t.len() implies point_before(
                #[trigger] t[i].point,
                #[trigger] t[j].point,
            ) by {
                assert(t[i] == s[i] && t[j] == s[j]);
            }
        }
        lemma_first_per_device(t);
        let d = first_per_device(t);
        let x = s.last();
        assert forall|i: int| 0 <= i < d.len() implies s.contains(#[trigger] d[i]) by {
            let k = choose|k: int| 0 <= k < t.len() && t[k] == d[i];
            assert(s[k] == t[k]);
        }
        if !(exists|j: int| 0 <= j < s.len() - 1 && #[trigger] s[j].device == x.device) {
            let u = d.push(x);
            assert forall|i: int| 0 <= i < d.len() implies point_before((#[trigger] d[i]).point, x.point)
                && d[i].device != x.device by {
                let k = choose|k: int| 0 <= k < t.len() && t[k] == d[i];
                assert(s[k] == t[k]);
                assert(point_before(s[k].point, s[s.len() - 1].point));
            }
            assert forall|i: int, j: int| 0 <= i < j < u.len() implies point_before(
                #[trigger] u[i].point,
                #[trigger] u[j].point,
            ) by {
                if j < d.len() {
                    assert(point_before(d[i].point, d[j].point));
                }
            }
            assert forall|i: int, j: int| 0 <= i < j < u.len() implies #[trigger] u[i].device != #[trigger] u[j].device by {
                if j < d.len() {
                    assert(d[i].device != d[j].device);
                }
            }
            assert forall|i: int| 0 <= i < u.len() implies s.contains(#[trigger] u[i]) by {
                if i == d.len() {
                    assert(s[s.len() - 1] == u[i]);
                }
            }
        }
    }
}

proof fn lemma_sum_concat(a: Seq<u64>, b: Seq<u64>)
    ensures
        sum(a + b) == sum(a) + sum(b),
    decreases b.len(),
{
    if b.len() == 0 {
        assert(a + b =~= a);
    } else {
        assert((a + b).drop_last() =~= a + b.drop_last());
        lemma_sum_concat(a, b.drop_last());
    }
}

/// Of a cpu line `user nice system idle iowait irq ...`, the idle time
/// is the idle and the iowait fields together, the total every field,
/// so the busy time (total less idle) is every field but those two;
/// idle never exceeds the total.
pub proof fn idle_is_idle_plus_iowait(l: Seq<char>)
    ensures
        cpu_fields(l).len() >= 5 ==> cpu_line(l).1 == cpu_fields(l)[3] + cpu_fields(l)[4],
        cpu_fields(l).len() >= 5 ==> cpu_line(l).0 - cpu_line(l).1 == sum(cpu_fields(l).take(3)) + sum(
            cpu_fields(l).skip(5),
        ),
        0 <= cpu_line(l).1 <= cpu_line(l).0,
{
    let v = cpu_fields(l);
    lemma_two_le_sum(v, 3, 4);
    if v.len() >= 5 {
        let a = v.take(3);
        let m = seq![v[3], v[4]];
        let b = v.skip(5);
        assert(v =~= a + m + b);
        lemma_sum_concat(a + m, b);
        lemma_sum_concat(a, m);
        assert(m.drop_last() =~= seq![v[3]]);
        assert(seq![v[3]].drop_last() =~= Seq::<u64>::empty());
        assert(sum(Seq::<u64>::empty()) == 0);
        assert(sum(seq![v[3]]) == v[3]);
        assert(sum(m) == v[3] + v[4]);
    }
}

/// The mounts shown come `/` first then by mount point, each point
/// once; without named points, each device once too.
pub proof fn mounts_are_listed_once_in_order(text: Seq<char>, wanted: Seq<Seq<char>>)
    ensures
        strictly_sorted(mounts_of(text, wanted)),
        distinct_points(mounts_of(text, wanted)),
        wanted.len() == 0 ==> distinct_devices(mounts_of(text, wanted)),
{
    let b = by_point(wanted_mounts(lines(text), wanted));
    lemma_by_point(wanted_mounts(lines(text), wanted));
    lemma_sorted_mounts(b);
    let s = sorted_mounts(b);
    if wanted.len() == 0 {
        lemma_first_per_device(s);
    }
    let r = mounts_of(text, wanted);
    assert forall|i: int, j: int| 0 <= i < j < r.len() implies #[trigger] r[i].point != #[trigger] r[j].point by {
        assert(point_before(r[i].point, r[j].point));
        lemma_point_order(r[i].point, r[j].point, r[j].point);
    }
}


fn is_virtual_fs(fs: &[char]) -> (r: bool)
    ensures
        r == virtual_fs(fs@),
{
    let names = VIRTUAL_FS;
    let ghost nv = names@.map_values(|s: &str| s@);
    let mut i: usize = 0;
    while i < 24
        invariant
            i <= 24,
            names@ == VIRTUAL_FS@,
            nv == names@.map_values(|s: &str| s@),
            forall|j: int| 0 <= j < i ==> nv[j] != fs@,
        decreases 24 - i,
    {
        if crate::text::eq_str(fs, names[i]) {
            assert(nv[i as int] == fs@);
            return true;
        }
        i = i + 1;
    }
    assert(!nv.contains(fs@)) by {
        if nv.contains(fs@) {
            let k = choose|k: int| 0 <= k < nv.len() && nv[k] == fs@;
            assert(nv[k] != fs@);
        }
    }
    false
}

fn names_contain(wanted: &[String], point: &String) -> (r: bool)
    ensures
        r == strings_view(wanted@).contains(point@),
{
    let ghost wv = strings_view(wanted@);
    let mut i: usize = 0;
    while i < wanted.len()
        invariant
            i <= wanted.len(),
            wv == strings_view(wanted@),
            forall|j: int| 0 <= j < i ==> wv[j] != point@,
        decreases wanted.len() - i,
    {
        if crate::notifications::str_eq_string(&wanted[i], point) {
            assert(wv[i as int] == point@);
            return true;
        }
        i = i + 1;
    }
    assert(!wv.contains(point@)) by {
        if wv.contains(point@) {
            let k = choose|k: int| 0 <= k < wv.len() && wv[k] == point@;
            assert(wv[k] != point@);
        }
    }
    false
}

fn read_mount_line(l: &[char]) -> (r: Option<Mount>)
    ensures
        match r {
            Some(m) => mount_line(l@) == Some(m@),
            None => mount_line(l@) is None,
        },
{
    let w = split_ws(l);
    if w.len() < 3 {
        return None;
    }
    assert(views(w@)[0] == w@[0]@ && views(w@)[1] == w@[1]@ && views(w@)[2] == w@[2]@);
    let device = string_of(w[0].as_slice());
    let raw_point = string_of(w[1].as_slice());
    let point = unescape(raw_point.as_str());
    let fs = string_of(w[2].as_slice());
    Some(Mount { device, point, fs })
}

fn is_root(p: &String) -> (r: bool)
    ensures
        r == (p@ == "/"@),
{
    crate::config::str_eq(p.as_str(), "/")
}

fn before(p: &String, q: &String) -> (r: bool)
    ensures
        r == point_before(p@, q@),
{
    let pr = is_root(p);
    let qr = is_root(q);
    if pr && !qr {
        return true;
    }
    if pr != qr {
        return false;
    }
    let a = chars_of(p.as_str());
    let b = chars_of(q.as_str());
    crate::text::chars_lt(a.as_slice(), b.as_slice())
}

/// The mounts of `/proc/mounts` to show, see [`mounts_of`]: those on
/// `wanted` mount points when given, else every real filesystem (one
/// per device); one per mount point (the last mount wins), `/` first
/// then by mount point.
pub fn mounts(text: &str, wanted: &[String]) -> (r: Vec<Mount>)
    ensures
        mounts_view(r@) == mounts_of(text@, strings_view(wanted@)),
{
    let ghost wv = strings_view(wanted@);
    let t = chars_of(text);
    let ls = split_lines(t.as_slice());
    let ghost lv = views(ls@);
    // One per point.
    let mut acc: Vec<Mount> = Vec::new();
    let mut i: usize = 0;
    assert(lv.take(0) =~= Seq::<Seq<char>>::empty());
    assert(mounts_view(acc@) =~= Seq::<MountView>::empty());
    while i < ls.len()
        invariant
            i <= ls.len(),
            lv == views(ls@),
            wv == strings_view(wanted@),
            mounts_view(acc@) == by_point(wanted_mounts(lv.take(i as int), wv)),
        decreases ls.len() - i,
    {
        let ghost prev = wanted_mounts(lv.take(i as int), wv);
        assert(lv.take(i + 1).drop_last() =~= lv.take(i as int));
        assert(lv.take(i + 1).last() == ls@[i as int]@);
        match read_mount_line(ls[i].as_slice()) {
            Some(m) => {
                let keep = if wanted.len() == 0 {
                    proof {
                        reveal_strlit("fuse");
                        reveal_strlit("/");
                    }
                    let fs = chars_of(m.fs.as_str());
                    let dev = chars_of(m.device.as_str());
                    !is_virtual_fs(fs.as_slice()) && !has_prefix(fs.as_slice(), "fuse") && has_prefix(
                        dev.as_slice(),
                        "/",
                    )
                } else {
                    names_contain(wanted, &m.point)
                };
                if keep {
                    let ghost mv = m@;
                    assert(prev.push(mv).drop_last() =~= prev);
                    let mut p: usize = 0;
                    let ghost av = mounts_view(acc@);
                    while p < acc.len()
                        invariant
                            p <= acc.len(),
                            av == mounts_view(acc@),
                            forall|j: int| 0 <= j < p ==> (#[trigger] av[j]).point != mv.point,
                            mv == m@,
                        ensures
                            p <= acc.len(),
                            av == mounts_view(acc@),
                            forall|j: int| 0 <= j < p ==> (#[trigger] av[j]).point != mv.point,
                            p < acc.len() ==> av[p as int].point == mv.point,
                        decreases acc.len() - p,
                    {
                        assert(av[p as int] == acc@[p as int]@);
                        if crate::notifications::str_eq_string(&acc[p].point, &m.point) {
                            break;
                        }
                        p = p + 1;
                    }
                    proof {
                        lemma_point_pos(av, mv.point);
                        if p < acc.len() {
                            assert(av[p as int] == acc@[p as int]@);
                        }
                        lemma_point_pos_at(av, mv.point, p as int);
                    }
                    if p < acc.len() {
                        acc.set(p, m);
                        assert(mounts_view(acc@) =~= av.update(p as int, mv));
                    } else {
                        acc.push(m);
                        assert(mounts_view(acc@) =~= av.push(mv));
                    }
                }
            },
            None => {},
        }
        i = i + 1;
    }
    assert(lv.take(ls.len() as int) =~= lv);
    // Sorted, `/` first.
    let ghost bv = mounts_view(acc@);
    let mut sorted: Vec<Mount> = Vec::new();
    let mut k: usize = 0;
    assert(bv.take(0) =~= Seq::<MountView>::empty());
    assert(mounts_view(sorted@) =~= Seq::<MountView>::empty());
    while k < acc.len()
        invariant
            k <= acc.len(),
            bv == mounts_view(acc@),
            mounts_view(sorted@) == sorted_mounts(bv.take(k as int)),
        decreases acc.len() - k,
    {
        let m = acc[k].copy();
        assert(bv.take(k + 1).drop_last() =~= bv.take(k as int));
        assert(bv.take(k + 1).last() == m@);
        let ghost sv = mounts_view(sorted@);
        let mut j: usize = sorted.len();
        assert(sv.take(j as int) =~= sv);
        while j > 0
            invariant
                j <= sorted.len(),
                sv == mounts_view(sorted@),
                mount_slot(sv, m@) == mount_slot(sv.take(j as int), m@),
            ensures
                j <= sorted.len(),
                sv == mounts_view(sorted@),
                mount_slot(sv, m@) == j,
            decreases j,
        {
            let ghost tk = sv.take(j as int);
            assert(tk.last() == sv[j - 1]);
            assert(sv[j - 1] == sorted@[j - 1]@);
            if !before(&m.point, &sorted[j - 1].point) {
                break;
            }
            assert(tk.drop_last() =~= sv.take(j - 1));
            j = j - 1;
        }
        let ghost mv = m@;
        sorted.insert(j, m);
        assert(mounts_view(sorted@) =~= sv.insert(j as int, mv));
        k = k + 1;
    }
    assert(bv.take(acc.len() as int) =~= bv);
    if wanted.len() > 0 {
        return sorted;
    }
    // Each device once.
    let ghost srt = mounts_view(sorted@);
    let mut out: Vec<Mount> = Vec::new();
    let mut q: usize = 0;
    assert(srt.take(0) =~= Seq::<MountView>::empty());
    assert(mounts_view(out@) =~= Seq::<MountView>::empty());
    while q < sorted.len()
        invariant
            q <= sorted.len(),
            srt == mounts_view(sorted@),
            mounts_view(out@) == first_per_device(srt.take(q as int)),
        decreases sorted.len() - q,
    {
        let ghost tq = srt.take(q + 1);
        assert(tq.drop_last() =~= srt.take(q as int));
        assert(tq.last() == sorted@[q as int]@);
        let mut seen = false;
        let mut j: usize = 0;
        while j < q
            invariant
                j <= q < sorted.len(),
                srt == mounts_view(sorted@),
                tq == srt.take(q + 1),
                tq.last() == sorted@[q as int]@,
                seen <==> exists|x: int| 0 <= x < j && #[trigger] tq[x].device == tq.last().device,
            decreases q - j,
        {
            assert(tq[j as int] == sorted@[j as int]@);
            if crate::notifications::str_eq_string(&sorted[j].device, &sorted[q].device) {
                seen = true;
                assert(tq[j as int].device == tq.last().device);
            } else {
                assert((exists|x: int| 0 <= x < j + 1 && #[trigger] tq[x].device == tq.last().device) ==> (exists|
                    x: int,
                | 0 <= x < j && #[trigger] tq[x].device == tq.last().device)) by {
                    if exists|x: int| 0 <= x < j + 1 && #[trigger] tq[x].device == tq.last().device {
                        let x = choose|x: int| 0 <= x < j + 1 && #[trigger] tq[x].device == tq.last().device;
                        assert(x != j);
                    }
                }
            }
            j = j + 1;
        }
        if !seen {
            let ghost before = mounts_view(out@);
            let m = sorted[q].copy();
            out.push(m);
            assert(mounts_view(out@) =~= before.push(tq.last()));
        }
        q = q + 1;
    }
    assert(srt.take(sorted.len() as int) =~= srt);
    out
}

} // verus!
