//! The system monitor's text: a gadget's `format` with its
//! `{placeholder}`s replaced, and durations as the bar shows them. The
//! placeholders' values (rates and percentages, in floating point) are
//! the caller's.
use vstd::prelude::*;

use crate::config::{lookup, pair_view, Pairs};
use crate::text::{
    chars_of, decimal, decimal_of, find_from, first_index, parse_number, parse_uint, push_chars, push_str, slice_vec,
    split_once, split_once_char, string_of,
};

verus! {

/// `w` read as a `usize`, as `str::parse::<usize>()` does.
pub open spec fn parse_width(w: Seq<char>) -> Option<nat> {
    parse_uint(w, 10, usize::MAX as nat)
}

/// `n` spaces.
pub open spec fn spaces(n: nat) -> Seq<char> {
    Seq::new(n, |i: int| ' ')
}

/// `v` right-aligned in `width` characters, as `{v:>width$}` does;
/// as it is without a width.
pub open spec fn aligned(v: Seq<char>, width: Option<nat>) -> Seq<char> {
    match width {
        Some(w) => if v.len() < w {
            spaces((w - v.len()) as nat) + v
        } else {
            v
        },
        None => v,
    }
}

/// What one placeholder `{spec}` (written `literal`) becomes: its
/// name's value, right-aligned when `spec` gives a width after a `:`;
/// the literal when the name has no value.
pub open spec fn piece(spec: Seq<char>, literal: Seq<char>, values: Pairs) -> Seq<char> {
    let (name, width) = match split_once(spec, ':') {
        Some((n, w)) => (n, parse_width(w)),
        None => (spec, None),
    };
    match lookup(values, name) {
        Some(v) => aligned(v, width),
        None => literal,
    }
}

/// `format` expanded: each `{name}` or `{name:width}` whose name has a
/// value becomes that value (right-aligned in `width` characters when
/// one is given); an unknown name stays as written, and so does the
/// rest after a `{` that is never closed.
pub open spec fn expanded(format: Seq<char>, values: Pairs) -> Seq<char>
    decreases format.len(),
{
    let start = first_index(format, '{');
    if start >= format.len() {
        format
    } else {
        let tail = format.skip(start);
        let end = first_index(tail, '}');
        proof {
            crate::text::lemma_first_index(format, '{');
            crate::text::lemma_first_index(tail, '}');
        }
        if end >= tail.len() {
            format
        } else {
            format.take(start) + piece(tail.subrange(1, end), tail.take(end + 1), values) + expanded(
                tail.skip(end + 1),
                values,
            )
        }
    }
}

fn value_of<'a>(values: &'a Vec<(String, String)>, name: &[char]) -> (r: Option<&'a String>)
    ensures
        match r {
            Some(v) => lookup(values@.map_values(|p: (String, String)| pair_view(p)), name@) == Some(v@),
            None => lookup(values@.map_values(|p: (String, String)| pair_view(p)), name@) is None,
        },
{
    let ghost pairs = values@.map_values(|p: (String, String)| pair_view(p));
    let mut i: usize = 0;
    assert(pairs.skip(0) =~= pairs);
    while i < values.len()
        invariant
            i <= values.len(),
            pairs == values@.map_values(|p: (String, String)| pair_view(p)),
            lookup(pairs, name@) == lookup(pairs.skip(i as int), name@),
        decreases values.len() - i,
    {
        let ghost rest = pairs.skip(i as int);
        assert(rest[0] == pair_view(values@[i as int]));
        if crate::text::eq_str(name, values[i].0.as_str()) {
            return Some(&values[i].1);
        }
        assert(rest.drop_first() =~= pairs.skip(i + 1));
        i = i + 1;
    }
    None
}

fn push_aligned(out: &mut Vec<char>, v: &str, width: Option<usize>)
    ensures
        final(out)@ == old(out)@ + aligned(
            v@,
            match width {
                Some(w) => Some(w as nat),
                None => None,
            },
        ),
{
    let n = chars_of(v).len();
    match width {
        Some(w) => {
            if n < w {
                let mut k: usize = 0;
                let ghost start = out@;
                while k < w - n
                    invariant
                        k <= w - n,
                        out@ == start + spaces(k as nat),
                    decreases w - n - k,
                {
                    out.push(' ');
                    assert(out@ =~= start + spaces((k + 1) as nat));
                    k = k + 1;
                }
            }
        },
        None => {},
    }
    let ghost before = out@;
    push_str(out, v);
    assert(out@ =~= before + v@);
    proof {
        match width {
            Some(w) => {
                if n < w {
                    assert(out@ =~= old(out)@ + (spaces((w - n) as nat) + v@));
                }
            },
            None => {},
        }
    }
}

fn push_piece(out: &mut Vec<char>, spec: &[char], literal: &[char], values: &Vec<(String, String)>)
    ensures
        final(out)@ == old(out)@ + piece(spec@, literal@, values@.map_values(|p: (String, String)| pair_view(p))),
{
    let (name, width): (Vec<char>, Option<usize>) = match split_once_char(spec, ':') {
        Some((nm, w)) => {
            let width = match parse_number(w.as_slice(), 10, usize::MAX as u64) {
                Some(x) => Some(x as usize),
                None => None,
            };
            (nm, width)
        },
        None => (slice_vec(spec, 0, spec.len()), None),
    };
    assert(spec@.subrange(0, spec@.len() as int) =~= spec@);
    match value_of(values, name.as_slice()) {
        Some(v) => push_aligned(out, v.as_str(), width),
        None => push_chars(out, literal),
    }
}

proof fn lemma_expanded_plain(rest: Seq<char>, values: Pairs)
    requires
        first_index(rest, '{') >= rest.len() || first_index(rest.skip(first_index(rest, '{')), '}') >= rest.skip(
            first_index(rest, '{'),
        ).len(),
    ensures
        expanded(rest, values) == rest,
{
}

proof fn lemma_expanded_step(f: Seq<char>, pos: int, start: int, close: int, values: Pairs)
    requires
        0 <= pos <= start < close < f.len(),
        start - pos == first_index(f.skip(pos), '{'),
        close - start == first_index(f.skip(start), '}'),
    ensures
        expanded(f.skip(pos), values) == f.subrange(pos, start) + piece(
            f.subrange(start + 1, close),
            f.subrange(start, close + 1),
            values,
        ) + expanded(f.skip(close + 1), values),
{
    let rest = f.skip(pos);
    let tail = rest.skip(start - pos);
    assert(tail =~= f.skip(start));
    assert(rest.take(start - pos) =~= f.subrange(pos, start));
    assert(tail.subrange(1, close - start) =~= f.subrange(start + 1, close));
    assert(tail.take(close - start + 1) =~= f.subrange(start, close + 1));
    assert(tail.skip(close - start + 1) =~= f.skip(close + 1));
}

/// `format` with its placeholders replaced from `values` (name, text),
/// see [`expanded`].
pub fn expand(format: &str, values: &Vec<(String, String)>) -> (r: String)
    ensures
        r@ == expanded(format@, values@.map_values(|p: (String, String)| pair_view(p))),
{
    let ghost pairs = values@.map_values(|p: (String, String)| pair_view(p));
    let f = chars_of(format);
    let n = f.len();
    let mut out: Vec<char> = Vec::new();
    let mut pos: usize = 0;
    assert(f@.skip(0) =~= f@);
    loop
        invariant
            pos <= n == f@.len(),
            f@ == format@,
            pairs == values@.map_values(|p: (String, String)| pair_view(p)),
            expanded(f@, pairs) == out@ + expanded(f@.skip(pos as int), pairs),
        decreases n - pos,
    {
        let start = find_from(f.as_slice(), pos, '{');
        let close = if start < n {
            find_from(f.as_slice(), start, '}')
        } else {
            n
        };
        if close >= n {
            proof {
                crate::text::lemma_first_index(f@.skip(pos as int), '{');
                if start < n {
                    assert(f@.skip(pos as int).skip(start - pos) =~= f@.skip(start as int));
                }
                lemma_expanded_plain(f@.skip(pos as int), pairs);
            }
            let tail = slice_vec(f.as_slice(), pos, n);
            assert(tail@ =~= f@.skip(pos as int));
            push_chars(&mut out, tail.as_slice());
            assert(expanded(f@, pairs) == out@);
            return string_of(out.as_slice());
        }
        assert(f@[start as int] == '{');
        proof {
            lemma_expanded_step(f@, pos as int, start as int, close as int, pairs);
        }
        let head = slice_vec(f.as_slice(), pos, start);
        push_chars(&mut out, head.as_slice());
        let spec = slice_vec(f.as_slice(), start + 1, close);
        let lit = slice_vec(f.as_slice(), start, close + 1);
        push_piece(&mut out, spec.as_slice(), lit.as_slice(), values);
        pos = close + 1;
    }
}

/// `3d 4h`, `4h 12m`, `12m`, `45s`: the two largest units that matter.
pub open spec fn duration_text(s: nat) -> Seq<char> {
    let days = s / 86400;
    let hours = (s / 3600) % 24;
    let mins = (s / 60) % 60;
    if days > 0 {
        decimal(days) + "d "@ + decimal(hours) + "h"@
    } else if hours > 0 {
        decimal(hours) + "h "@ + decimal(mins) + "m"@
    } else if mins > 0 {
        decimal(mins) + "m"@
    } else {
        decimal(s) + "s"@
    }
}

/// A duration in seconds as the bar shows it.
pub fn duration(secs: u64) -> (r: String)
    ensures
        r@ == duration_text(secs as nat),
{
    let days = secs / 86400;
    let hours = (secs / 3600) % 24;
    let mins = (secs / 60) % 60;
    let mut v: Vec<char> = Vec::new();
    if days > 0 {
        push_str(&mut v, decimal_of(days).as_str());
        push_str(&mut v, "d ");
        push_str(&mut v, decimal_of(hours).as_str());
        push_str(&mut v, "h");
    } else if hours > 0 {
        push_str(&mut v, decimal_of(hours).as_str());
        push_str(&mut v, "h ");
        push_str(&mut v, decimal_of(mins).as_str());
        push_str(&mut v, "m");
    } else if mins > 0 {
        push_str(&mut v, decimal_of(mins).as_str());
        push_str(&mut v, "m");
    } else {
        push_str(&mut v, decimal_of(secs).as_str());
        push_str(&mut v, "s");
    }
    string_of(v.as_slice())
}


/// Every placeholder name a sample gives a value.
pub const PLACEHOLDERS: [&'static str; 21] = [
    "cpu",
    "mem",
    "mem_used",
    "mem_total",
    "mem_available",
    "swap",
    "swap_used",
    "rx",
    "tx",
    "read",
    "write",
    "disk",
    "temp",
    "freq",
    "load1",
    "load5",
    "load15",
    "uptime",
    "gpu",
    "gpu_temp",
    "vram",
];

/// Before the first sample: every placeholder, and every value a bar
/// can show, is `-`.
pub open spec fn unsampled_pairs() -> Pairs {
    PLACEHOLDERS@.map_values(|n: &str| (n@, "-"@)) + seq![
        ("cpu"@, "-"@),
        ("mem"@, "-"@),
        ("swap"@, "-"@),
        ("disk"@, "-"@),
        ("net"@, "-"@),
        ("gpu"@, "-"@),
        ("temp"@, "-"@),
        ("load"@, "-"@),
    ]
}

/// The values to expand a format with before the first sample.
pub fn unsampled_values() -> (r: Vec<(String, String)>)
    ensures
        r@.map_values(|p: (String, String)| pair_view(p)) == unsampled_pairs(),
{
    let names = PLACEHOLDERS;
    let mut r: Vec<(String, String)> = Vec::new();
    let mut i: usize = 0;
    while i < 21
        invariant
            i <= 21,
            names@ == PLACEHOLDERS@,
            r@.map_values(|p: (String, String)| pair_view(p)) == names@.map_values(|n: &str| (n@, "-"@)).take(i as int),
        decreases 21 - i,
    {
        let ghost before = r@.map_values(|p: (String, String)| pair_view(p));
        let name = names[i].to_string();
        let dash = "-".to_string();
        r.push((name, dash));
        assert(r@.map_values(|p: (String, String)| pair_view(p)) =~= before.push((names@[i as int]@, "-"@)));
        assert(r@.map_values(|p: (String, String)| pair_view(p)) =~= names@.map_values(|n: &str| (n@, "-"@)).take(
            i + 1,
        ));
        i = i + 1;
    }
    let ghost first = r@.map_values(|p: (String, String)| pair_view(p));
    assert(first =~= names@.map_values(|n: &str| (n@, "-"@)));
    let extra = ["cpu", "mem", "swap", "disk", "net", "gpu", "temp", "load"];
    let ghost want = seq![
        ("cpu"@, "-"@),
        ("mem"@, "-"@),
        ("swap"@, "-"@),
        ("disk"@, "-"@),
        ("net"@, "-"@),
        ("gpu"@, "-"@),
        ("temp"@, "-"@),
        ("load"@, "-"@),
    ];
    assert(extra@.map_values(|n: &str| (n@, "-"@)) =~= want);
    let mut j: usize = 0;
    while j < 8
        invariant
            j <= 8,
            extra@.map_values(|n: &str| (n@, "-"@)) == want,
            r@.map_values(|p: (String, String)| pair_view(p)) == first + want.take(j as int),
        decreases 8 - j,
    {
        let ghost before = r@.map_values(|p: (String, String)| pair_view(p));
        let name = extra[j].to_string();
        let dash = "-".to_string();
        r.push((name, dash));
        assert(r@.map_values(|p: (String, String)| pair_view(p)) =~= before.push((extra@[j as int]@, "-"@)));
        assert(r@.map_values(|p: (String, String)| pair_view(p)) =~= first + want.take(j + 1));
        j = j + 1;
    }
    assert(want.take(8) =~= want);
    r
}

} // verus!
