//! Text as sequences of characters: the classes of characters the
//! parsers look at, lines, whitespace-separated words, trimming and
//! decimal numbers, each with the spec function it computes.
//!
//! Parsers work on `Vec<char>` (a string's characters, see
//! [`chars_of`]) and turn their results back into `String`s with
//! [`string_of`].
use vstd::prelude::*;

verus! {

broadcast use vstd::string::group_string_axioms;

// ---------------------------------------------------------------------
// Characters
// ---------------------------------------------------------------------

/// Unicode `White_Space`, the set `char::is_whitespace` tests.
pub open spec fn is_ws(c: char) -> bool {
    let u = c as u32;
    ||| 0x09 <= u <= 0x0d
    ||| u == 0x20
    ||| u == 0x85
    ||| u == 0xa0
    ||| u == 0x1680
    ||| 0x2000 <= u <= 0x200a
    ||| u == 0x2028
    ||| u == 0x2029
    ||| u == 0x202f
    ||| u == 0x205f
    ||| u == 0x3000
}

/// Whether `c` is whitespace (Unicode `White_Space`).
pub fn is_whitespace(c: char) -> (b: bool)
    ensures
        b == is_ws(c),
{
    let u = c as u32;
    (0x09 <= u && u <= 0x0d) || u == 0x20 || u == 0x85 || u == 0xa0 || u == 0x1680 || (0x2000
        <= u && u <= 0x200a) || u == 0x2028 || u == 0x2029 || u == 0x202f || u == 0x205f || u
        == 0x3000
}

pub open spec fn is_digit(c: char) -> bool {
    '0' <= c <= '9'
}

pub open spec fn is_ascii_upper(c: char) -> bool {
    'A' <= c <= 'Z'
}

pub open spec fn is_ascii_alpha(c: char) -> bool {
    'A' <= c <= 'Z' || 'a' <= c <= 'z'
}

pub open spec fn is_hex_digit(c: char) -> bool {
    '0' <= c <= '9' || 'a' <= c <= 'f' || 'A' <= c <= 'F'
}

/// The value of a hexadecimal digit.
pub open spec fn hex_value(c: char) -> nat {
    if '0' <= c <= '9' {
        (c as u32 - '0' as u32) as nat
    } else if 'a' <= c <= 'f' {
        (c as u32 - 'a' as u32 + 10) as nat
    } else {
        (c as u32 - 'A' as u32 + 10) as nat
    }
}

/// `c` with ASCII upper case letters made lower case, as
/// `char::to_ascii_lowercase`.
pub open spec fn lower_char(c: char) -> char {
    if is_ascii_upper(c) {
        ((c as u32) + 32) as char
    } else {
        c
    }
}

pub fn to_ascii_lower(c: char) -> (r: char)
    ensures
        r == lower_char(c),
{
    if 'A' <= c && c <= 'Z' {
        let u = c as u32 + 32;
        assert(0x61 <= u <= 0x7a);
        char_from_ascii(u)
    } else {
        c
    }
}

/// The character of an ASCII code point.
fn char_from_ascii(u: u32) -> (c: char)
    requires
        u < 0x80,
    ensures
        c == u as char,
        c as u32 == u,
{
    let b = u as u8;
    b as char
}

pub open spec fn lower(s: Seq<char>) -> Seq<char> {
    s.map_values(|c: char| lower_char(c))
}

/// `s` with ASCII letters made lower case, as `str::to_ascii_lowercase`.
pub fn ascii_lowercase(s: &[char]) -> (r: Vec<char>)
    ensures
        r@ == lower(s@),
{
    let mut r: Vec<char> = Vec::new();
    let mut i: usize = 0;
    while i < s.len()
        invariant
            i <= s.len(),
            r@ == lower(s@.take(i as int)),
        decreases s.len() - i,
    {
        let c = to_ascii_lower(s[i]);
        r.push(c);
        i = i + 1;
        assert(lower(s@.take(i as int)) =~= lower(s@.take(i - 1)).push(lower_char(s@[i - 1])));
    }
    assert(s@.take(s.len() as int) =~= s@);
    r
}

// ---------------------------------------------------------------------
// Conversions
// ---------------------------------------------------------------------

/// The characters of `s`, in order.
pub fn chars_of(s: &str) -> (v: Vec<char>)
    ensures
        v@ == s@,
{
    let mut v: Vec<char> = Vec::new();
    for c in it: s.chars()
        invariant
            v@ == it.seq().take(it.index() as int),
    {
        v.push(c);
    }
    v
}

/// `String::push`: appends one character.
#[verifier::external_body]
pub(crate) fn push_char(s: &mut String, c: char)
    ensures
        final(s)@ == old(s)@.push(c),
{
    s.push(c)
}

/// The string made of `v`'s characters.
pub fn string_of(v: &[char]) -> (s: String)
    ensures
        s@ == v@,
{
    let mut s = String::new();
    let mut i: usize = 0;
    while i < v.len()
        invariant
            i <= v.len(),
            s@ == v@.take(i as int),
        decreases v.len() - i,
    {
        push_char(&mut s, v[i]);
        i = i + 1;
        assert(v@.take(i as int) =~= v@.take(i - 1).push(v@[i - 1]));
    }
    assert(v@.take(v.len() as int) =~= v@);
    s
}

/// The string of a `&str`.
pub fn owned(s: &str) -> (r: String)
    ensures
        r@ == s@,
{
    s.to_owned()
}

/// Whether `a` holds the characters of `b`.
pub fn eq_str(a: &[char], b: &str) -> (r: bool)
    ensures
        r == (a@ == b@),
{
    let bv = chars_of(b);
    eq_chars(a, bv.as_slice())
}

/// Whether `a` and `b` hold the same characters.
pub fn eq_chars(a: &[char], b: &[char]) -> (r: bool)
    ensures
        r == (a@ == b@),
{
    if a.len() != b.len() {
        return false;
    }
    let mut i: usize = 0;
    while i < a.len()
        invariant
            i <= a.len(),
            a.len() == b.len(),
            forall|j: int| 0 <= j < i ==> a@[j] == b@[j],
        decreases a.len() - i,
    {
        if a[i] != b[i] {
            return false;
        }
        i = i + 1;
    }
    assert(a@ =~= b@);
    true
}

/// A copy of `s[from..to]`.
pub fn slice_vec(s: &[char], from: usize, to: usize) -> (r: Vec<char>)
    requires
        from <= to <= s.len(),
    ensures
        r@ == s@.subrange(from as int, to as int),
{
    let mut r: Vec<char> = Vec::new();
    let mut i: usize = from;
    while i < to
        invariant
            from <= i <= to <= s.len(),
            r@ == s@.subrange(from as int, i as int),
        decreases to - i,
    {
        r.push(s[i]);
        i = i + 1;
        assert(s@.subrange(from as int, i as int) =~= s@.subrange(from as int, i - 1).push(
            s@[i - 1],
        ));
    }
    r
}


// ---------------------------------------------------------------------
// Searching
// ---------------------------------------------------------------------

/// Index of the first `c` in `s`; `s.len()` when there is none.
pub open spec fn first_index(s: Seq<char>, c: char) -> int
    decreases s.len(),
{
    if s.len() == 0 {
        0
    } else if s[0] == c {
        0
    } else {
        first_index(s.drop_first(), c) + 1
    }
}

pub proof fn lemma_first_index(s: Seq<char>, c: char)
    ensures
        0 <= first_index(s, c) <= s.len(),
        first_index(s, c) < s.len() ==> s[first_index(s, c)] == c,
        forall|j: int| 0 <= j < first_index(s, c) ==> s[j] != c,
    decreases s.len(),
{
    if s.len() > 0 && s[0] != c {
        lemma_first_index(s.drop_first(), c);
        assert forall|j: int| 0 <= j < first_index(s, c) implies s[j] != c by {
            if j > 0 {
                assert(s[j] == s.drop_first()[j - 1]);
            }
        }
    }
}

/// The characterisation above pins the index down.
pub proof fn lemma_first_index_unique(s: Seq<char>, c: char, i: int)
    requires
        0 <= i <= s.len(),
        i < s.len() ==> s[i] == c,
        forall|j: int| 0 <= j < i ==> s[j] != c,
    ensures
        first_index(s, c) == i,
{
    lemma_first_index(s, c);
    let f = first_index(s, c);
    if f < i {
        assert(s[f] != c);
    } else if i < f {
        assert(s[i] != c);
    }
}

/// The first `c` in `s[from..]`, as an index of `s`.
pub fn find_from(s: &[char], from: usize, c: char) -> (r: usize)
    requires
        from <= s.len(),
    ensures
        from <= r <= s.len(),
        r == from + first_index(s@.skip(from as int), c),
        r < s.len() ==> s@[r as int] == c,
        forall|j: int| from <= j < r ==> s@[j] != c,
{
    let mut i = from;
    while i < s.len() && s[i] != c
        invariant
            from <= i <= s.len(),
            forall|j: int| from <= j < i ==> s@[j] != c,
        decreases s.len() - i,
    {
        i = i + 1;
    }
    proof {
        let t = s@.skip(from as int);
        assert forall|j: int| 0 <= j < i - from implies t[j] != c by {
            assert(t[j] == s@[from + j]);
        }
        if i < s.len() {
            assert(t[i - from] == s@[i as int]);
        }
        lemma_first_index_unique(t, c, i - from);
    }
    i
}

/// Index of the last `c` in `s`, if any.
pub open spec fn last_index(s: Seq<char>, c: char) -> Option<int>
    decreases s.len(),
{
    if s.len() == 0 {
        None
    } else if s.last() == c {
        Some(s.len() - 1)
    } else {
        last_index(s.drop_last(), c)
    }
}

pub proof fn lemma_last_index_bound(s: Seq<char>, c: char)
    ensures
        last_index(s, c) matches Some(i) ==> 0 <= i < s.len() && s[i] == c,
    decreases s.len(),
{
    if s.len() > 0 && s.last() != c {
        lemma_last_index_bound(s.drop_last(), c);
    }
}

pub fn rfind(s: &[char], c: char) -> (r: Option<usize>)
    ensures
        r == (match last_index(s@, c) {
            Some(i) => Some(i as usize),
            None => None::<usize>,
        }),
        r matches Some(i) ==> i < s.len() && s@[i as int] == c,
{
    let mut n = s.len();
    assert(s@.take(n as int) =~= s@);
    while n > 0
        invariant
            n <= s.len(),
            last_index(s@, c) == last_index(s@.take(n as int), c),
        decreases n,
    {
        if s[n - 1] == c {
            return Some(n - 1);
        }
        assert(s@.take(n as int).drop_last() =~= s@.take(n - 1));
        n = n - 1;
    }
    None
}

/// Whether `p` is a prefix of `s`.
pub open spec fn starts_with(s: Seq<char>, p: Seq<char>) -> bool {
    p.len() <= s.len() && s.take(p.len() as int) == p
}

pub open spec fn ends_with(s: Seq<char>, p: Seq<char>) -> bool {
    p.len() <= s.len() && s.skip(s.len() - p.len()) == p
}

pub fn has_prefix(s: &[char], p: &str) -> (r: bool)
    ensures
        r == starts_with(s@, p@),
{
    let pv = chars_of(p);
    if pv.len() > s.len() {
        return false;
    }
    let mut i: usize = 0;
    while i < pv.len()
        invariant
            i <= pv.len() <= s.len(),
            pv@ == p@,
            forall|j: int| 0 <= j < i ==> s@[j] == pv@[j],
        decreases pv.len() - i,
    {
        if s[i] != pv[i] {
            assert(s@.take(pv.len() as int)[i as int] != pv@[i as int]);
            assert(s@.take(pv.len() as int) != pv@);
            return false;
        }
        i = i + 1;
    }
    assert(s@.take(pv.len() as int) =~= pv@);
    true
}

pub fn has_suffix(s: &[char], p: &str) -> (r: bool)
    ensures
        r == ends_with(s@, p@),
{
    let pv = chars_of(p);
    if pv.len() > s.len() {
        return false;
    }
    let off = s.len() - pv.len();
    let mut i: usize = 0;
    while i < pv.len()
        invariant
            i <= pv.len() <= s.len(),
            pv@ == p@,
            off == s.len() - pv.len(),
            forall|j: int| 0 <= j < i ==> s@[off + j] == pv@[j],
        decreases pv.len() - i,
    {
        if s[off + i] != pv[i] {
            assert(s@.skip(off as int)[i as int] != pv@[i as int]);
            assert(s@.skip(off as int) != pv@);
            return false;
        }
        i = i + 1;
    }
    assert(s@.skip(off as int) =~= pv@);
    true
}

/// Whether `c` occurs in `s`.
pub fn contains_char(s: &[char], c: char) -> (r: bool)
    ensures
        r == s@.contains(c),
{
    let i = find_from(s, 0, c);
    proof {
        if !(i < s.len()) {
            assert forall|j: int| 0 <= j < s.len() implies s@[j] != c by {}
        }
    }
    i < s.len()
}

// ---------------------------------------------------------------------
// Lines
// ---------------------------------------------------------------------

/// The character sequences of a list of character vectors.
pub open spec fn views(v: Seq<Vec<char>>) -> Seq<Seq<char>> {
    v.map_values(|x: Vec<char>| x@)
}

/// A line without the `\r` of a `\r\n` ending.
pub open spec fn strip_cr(l: Seq<char>) -> Seq<char> {
    if l.len() > 0 && l.last() == '\r' {
        l.drop_last()
    } else {
        l
    }
}

/// The lines of `s`, as `str::lines` splits them: at `\n` or `\r\n`,
/// the final line ending optional.
pub open spec fn lines(s: Seq<char>) -> Seq<Seq<char>>
    decreases s.len(),
{
    if s.len() == 0 {
        seq![]
    } else {
        let i = first_index(s, '\n');
        if i >= s.len() || i < 0 {
            seq![s]
        } else {
            seq![strip_cr(s.take(i))] + lines(s.skip(i + 1))
        }
    }
}

pub fn split_lines(s: &[char]) -> (r: Vec<Vec<char>>)
    ensures
        views(r@) == lines(s@),
{
    let mut r: Vec<Vec<char>> = Vec::new();
    let mut pos: usize = 0;
    assert(s@.skip(0) =~= s@);
    while pos < s.len()
        invariant
            pos <= s.len(),
            lines(s@) == views(r@) + lines(s@.skip(pos as int)),
        decreases s.len() - pos,
    {
        let ghost t = s@.skip(pos as int);
        let i = find_from(s, pos, '\n');
        proof {
            lemma_first_index(t, '\n');
        }
        if i < s.len() {
            let mut end = i;
            if end > pos && s[end - 1] == '\r' {
                end = end - 1;
            }
            let line = slice_vec(s, pos, end);
            let ghost old_r = views(r@);
            r.push(line);
            proof {
                assert(t.take(i - pos) =~= s@.subrange(pos as int, i as int));
                assert(strip_cr(t.take(i - pos)) =~= line@);
                assert(t.skip(i - pos + 1) =~= s@.skip(i + 1));
                assert(views(r@) =~= old_r.push(line@));
                assert(lines(t) == seq![line@] + lines(s@.skip(i + 1)));
                assert(old_r + lines(t) =~= views(r@) + lines(s@.skip(i + 1)));
            }
            pos = i + 1;
        } else {
            let line = slice_vec(s, pos, s.len());
            let ghost old_r = views(r@);
            r.push(line);
            proof {
                assert(t =~= line@);
                assert(views(r@) =~= old_r.push(line@));
                assert(s@.skip(s.len() as int) =~= Seq::<char>::empty());
                assert(old_r + lines(t) =~= views(r@) + lines(s@.skip(s.len() as int)));
            }
            pos = s.len();
        }
    }
    assert(s@.skip(pos as int) =~= Seq::<char>::empty());
    assert(views(r@) + Seq::<Seq<char>>::empty() =~= views(r@));
    r
}


// ---------------------------------------------------------------------
// Splitting
// ---------------------------------------------------------------------

/// The pieces of `s` between the `c`s, as `str::split(c)`: always at
/// least one, possibly empty.
pub open spec fn split_on(s: Seq<char>, c: char) -> Seq<Seq<char>>
    decreases s.len(),
{
    let i = first_index(s, c);
    if i >= s.len() || i < 0 {
        seq![s]
    } else {
        seq![s.take(i)] + split_on(s.skip(i + 1), c)
    }
}

pub fn split_char(s: &[char], c: char) -> (r: Vec<Vec<char>>)
    ensures
        views(r@) == split_on(s@, c),
{
    let mut r: Vec<Vec<char>> = Vec::new();
    let mut pos: usize = 0;
    assert(s@.skip(0) =~= s@);
    loop
        invariant
            pos <= s.len(),
            split_on(s@, c) == views(r@) + split_on(s@.skip(pos as int), c),
        decreases s.len() - pos,
    {
        let ghost t = s@.skip(pos as int);
        let i = find_from(s, pos, c);
        let piece = slice_vec(s, pos, i);
        let ghost old_r = views(r@);
        r.push(piece);
        assert(views(r@) =~= old_r.push(piece@));
        if i < s.len() {
            proof {
                assert(t.take(i - pos) =~= piece@);
                assert(t.skip(i - pos + 1) =~= s@.skip(i + 1));
                assert(old_r + split_on(t, c) =~= views(r@) + split_on(s@.skip(i + 1), c));
            }
            pos = i + 1;
        } else {
            proof {
                assert(t =~= piece@);
                assert(old_r + split_on(t, c) =~= views(r@));
            }
            return r;
        }
    }
}

/// `s` split at its first `c`, as `str::split_once(c)`.
pub open spec fn split_once(s: Seq<char>, c: char) -> Option<(Seq<char>, Seq<char>)> {
    let i = first_index(s, c);
    if 0 <= i < s.len() {
        Some((s.take(i), s.skip(i + 1)))
    } else {
        None
    }
}

pub fn split_once_char(s: &[char], c: char) -> (r: Option<(Vec<char>, Vec<char>)>)
    ensures
        match r {
            Some((a, b)) => split_once(s@, c) == Some((a@, b@)),
            None => split_once(s@, c) is None,
        },
{
    let i = find_from(s, 0, c);
    assert(s@.skip(0) =~= s@);
    if i < s.len() {
        let a = slice_vec(s, 0, i);
        let b = slice_vec(s, i + 1, s.len());
        assert(a@ =~= s@.take(i as int));
        assert(b@ =~= s@.skip(i + 1));
        Some((a, b))
    } else {
        None
    }
}

/// Number of leading characters of `s` that are not whitespace.
pub open spec fn word_len(s: Seq<char>) -> int
    decreases s.len(),
{
    if s.len() == 0 || is_ws(s[0]) {
        0
    } else {
        word_len(s.drop_first()) + 1
    }
}

pub proof fn lemma_word_len(s: Seq<char>)
    ensures
        0 <= word_len(s) <= s.len(),
        word_len(s) < s.len() ==> is_ws(s[word_len(s)]),
        forall|j: int| 0 <= j < word_len(s) ==> !is_ws(s[j]),
    decreases s.len(),
{
    if s.len() > 0 && !is_ws(s[0]) {
        lemma_word_len(s.drop_first());
        assert forall|j: int| 0 <= j < word_len(s) implies !is_ws(s[j]) by {
            if j > 0 {
                assert(s[j] == s.drop_first()[j - 1]);
            }
        }
    }
}

pub proof fn lemma_word_len_unique(s: Seq<char>, n: int)
    requires
        0 <= n <= s.len(),
        n < s.len() ==> is_ws(s[n]),
        forall|j: int| 0 <= j < n ==> !is_ws(s[j]),
    ensures
        word_len(s) == n,
{
    lemma_word_len(s);
    let f = word_len(s);
    if f < n {
        assert(!is_ws(s[f]));
    } else if n < f {
        assert(!is_ws(s[n]));
    }
}

/// The whitespace-separated words of `s`, as `str::split_whitespace`.
pub open spec fn words(s: Seq<char>) -> Seq<Seq<char>>
    decreases s.len(),
{
    if s.len() == 0 {
        seq![]
    } else if is_ws(s[0]) {
        words(s.drop_first())
    } else {
        let n = word_len(s);
        if n <= 0 || n > s.len() {
            seq![]
        } else {
            seq![s.take(n)] + words(s.skip(n))
        }
    }
}

/// Words are never empty.
pub proof fn lemma_words_nonempty(s: Seq<char>)
    ensures
        forall|i: int| 0 <= i < words(s).len() ==> (#[trigger] words(s)[i]).len() > 0,
    decreases s.len(),
{
    if s.len() > 0 {
        if is_ws(s[0]) {
            lemma_words_nonempty(s.drop_first());
            assert(words(s) == words(s.drop_first()));
        } else {
            let n = word_len(s);
            lemma_word_len(s);
            lemma_word_len(s.drop_first());
            assert(n >= 1);
            if n > 0 && n <= s.len() {
                assert(s.take(n).len() == n);
                lemma_words_nonempty(s.skip(n));
                let w = words(s);
                assert(w == seq![s.take(n)] + words(s.skip(n)));
                assert forall|i: int| 0 <= i < w.len() implies (#[trigger] w[i]).len() > 0 by {
                    if i > 0 {
                        assert(w[i] == words(s.skip(n))[i - 1]);
                    }
                }
            }
        }
    }
}

pub fn split_ws(s: &[char]) -> (r: Vec<Vec<char>>)
    ensures
        views(r@) == words(s@),
{
    let mut r: Vec<Vec<char>> = Vec::new();
    let mut pos: usize = 0;
    assert(s@.skip(0) =~= s@);
    while pos < s.len()
        invariant
            pos <= s.len(),
            words(s@) == views(r@) + words(s@.skip(pos as int)),
        decreases s.len() - pos,
    {
        let ghost t = s@.skip(pos as int);
        if is_whitespace(s[pos]) {
            assert(t.drop_first() =~= s@.skip(pos + 1));
            pos = pos + 1;
        } else {
            let mut end = pos;
            while end < s.len() && !is_whitespace(s[end])
                invariant
                    pos <= end <= s.len(),
                    forall|j: int| pos <= j < end ==> !is_ws(s@[j]),
                decreases s.len() - end,
            {
                end = end + 1;
            }
            proof {
                assert forall|j: int| 0 <= j < end - pos implies !is_ws(t[j]) by {
                    assert(t[j] == s@[pos + j]);
                }
                if end < s.len() {
                    assert(t[end - pos] == s@[end as int]);
                }
                lemma_word_len_unique(t, end - pos);
            }
            let w = slice_vec(s, pos, end);
            let ghost old_r = views(r@);
            r.push(w);
            proof {
                assert(views(r@) =~= old_r.push(w@));
                assert(t.take(end - pos) =~= w@);
                assert(t.skip(end - pos) =~= s@.skip(end as int));
                assert(old_r + words(t) =~= views(r@) + words(s@.skip(end as int)));
            }
            pos = end;
        }
    }
    assert(s@.skip(pos as int) =~= Seq::<char>::empty());
    assert(views(r@) + Seq::<Seq<char>>::empty() =~= views(r@));
    r
}

/// `s` without leading whitespace.
pub open spec fn trim_start(s: Seq<char>) -> Seq<char>
    decreases s.len(),
{
    if s.len() > 0 && is_ws(s[0]) {
        trim_start(s.drop_first())
    } else {
        s
    }
}

/// `s` without trailing whitespace.
pub open spec fn trim_end(s: Seq<char>) -> Seq<char>
    decreases s.len(),
{
    if s.len() > 0 && is_ws(s.last()) {
        trim_end(s.drop_last())
    } else {
        s
    }
}

/// `s` without leading and trailing whitespace, as `str::trim`.
pub open spec fn trim(s: Seq<char>) -> Seq<char> {
    trim_end(trim_start(s))
}

pub fn trim_chars(s: &[char]) -> (r: Vec<char>)
    ensures
        r@ == trim(s@),
{
    let mut a: usize = 0;
    assert(s@.skip(0) =~= s@);
    while a < s.len() && is_whitespace(s[a])
        invariant
            a <= s.len(),
            trim_start(s@) == trim_start(s@.skip(a as int)),
        decreases s.len() - a,
    {
        assert(s@.skip(a as int).drop_first() =~= s@.skip(a + 1));
        a = a + 1;
    }
    let ghost ts = s@.skip(a as int);
    assert(trim_start(ts) == ts);
    let mut b: usize = s.len();
    assert(ts =~= s@.subrange(a as int, b as int));
    while b > a && is_whitespace(s[b - 1])
        invariant
            a <= b <= s.len(),
            trim_end(ts) == trim_end(s@.subrange(a as int, b as int)),
        decreases b,
    {
        assert(s@.subrange(a as int, b as int).drop_last() =~= s@.subrange(a as int, b - 1));
        b = b - 1;
    }
    slice_vec(s, a, b)
}


// ---------------------------------------------------------------------
// Numbers
// ---------------------------------------------------------------------

/// Whether `c` is a digit in base `radix` (8, 10 or 16).
pub open spec fn is_radix_digit(c: char, radix: nat) -> bool {
    if radix == 16 {
        is_hex_digit(c)
    } else if radix == 8 {
        '0' <= c <= '7'
    } else {
        is_digit(c)
    }
}

/// The value of the digits `s` in base `radix`.
pub open spec fn digits_value(s: Seq<char>, radix: nat) -> nat
    decreases s.len(),
{
    if s.len() == 0 {
        0
    } else {
        digits_value(s.drop_last(), radix) * radix + hex_value(s.last())
    }
}

pub open spec fn all_radix_digits(s: Seq<char>, radix: nat) -> bool {
    forall|i: int| 0 <= i < s.len() ==> is_radix_digit(#[trigger] s[i], radix)
}

/// The digits of an unsigned number: an optional `+` dropped.
pub open spec fn unsigned_digits(s: Seq<char>) -> Seq<char> {
    if s.len() > 0 && s[0] == '+' {
        s.drop_first()
    } else {
        s
    }
}

/// An unsigned integer no larger than `max` written in base `radix`,
/// as `FromStr` / `from_str_radix` read them: an optional `+`, then at
/// least one digit and nothing else.
pub open spec fn parse_uint(s: Seq<char>, radix: nat, max: nat) -> Option<nat> {
    let d = unsigned_digits(s);
    if d.len() > 0 && all_radix_digits(d, radix) && digits_value(d, radix) <= max {
        Some(digits_value(d, radix))
    } else {
        None
    }
}

/// `str::parse::<u64>()`.
pub open spec fn parse_u64(s: Seq<char>) -> Option<u64> {
    match parse_uint(s, 10, u64::MAX as nat) {
        Some(v) => Some(v as u64),
        None => None,
    }
}

/// `str::parse::<u32>()`.
pub open spec fn parse_u32(s: Seq<char>) -> Option<u32> {
    match parse_uint(s, 10, u32::MAX as nat) {
        Some(v) => Some(v as u32),
        None => None,
    }
}

proof fn lemma_step_bound(acc: nat, radix: nat, v: nat, max: nat)
    requires
        radix >= 1,
        acc > max,
    ensures
        acc * radix + v > max,
{
    assert(acc * radix >= acc) by (nonlinear_arith)
        requires
            radix >= 1,
    ;
}

proof fn lemma_fits(acc: int, radix: int, v: int, max: int)
    requires
        radix >= 1,
        0 <= v < radix,
        0 <= v <= max,
        acc >= 0,
    ensures
        (acc <= (max - v) / radix) <==> (acc * radix + v <= max),
{
    assert((acc <= (max - v) / radix) <==> (acc * radix + v <= max)) by (nonlinear_arith)
        requires
            radix >= 1,
            0 <= v <= max,
            acc >= 0,
    ;
}

fn digit_of(c: char, radix: u64) -> (r: Option<u64>)
    requires
        radix == 8 || radix == 10 || radix == 16,
    ensures
        r is Some <==> is_radix_digit(c, radix as nat),
        r matches Some(v) ==> v == hex_value(c) && v < radix,
{
    if '0' <= c && c <= '9' && (radix != 8 || c <= '7') {
        Some(c as u64 - '0' as u64)
    } else if radix == 16 && 'a' <= c && c <= 'f' {
        Some(c as u64 - 'a' as u64 + 10)
    } else if radix == 16 && 'A' <= c && c <= 'F' {
        Some(c as u64 - 'A' as u64 + 10)
    } else {
        None
    }
}

/// Reads an unsigned number of at most `max` in base `radix` (8, 10
/// or 16), see [`parse_uint`].
pub fn parse_number(s: &[char], radix: u64, max: u64) -> (r: Option<u64>)
    requires
        radix == 8 || radix == 10 || radix == 16,
    ensures
        r == (match parse_uint(s@, radix as nat, max as nat) {
            Some(v) => Some(v as u64),
            None => None::<u64>,
        }),
{
    let start: usize = if s.len() > 0 && s[0] == '+' {
        1
    } else {
        0
    };
    let ghost d = unsigned_digits(s@);
    assert(d =~= s@.skip(start as int));
    if start >= s.len() {
        return None;
    }
    let mut acc: u64 = 0;
    let mut over = false;
    let mut i: usize = start;
    assert(d.take(0) =~= Seq::<char>::empty());
    while i < s.len()
        invariant
            start <= i <= s.len(),
            d == s@.skip(start as int),
            d == unsigned_digits(s@),
            radix == 8 || radix == 10 || radix == 16,
            all_radix_digits(d.take(i - start), radix as nat),
            !over ==> acc == digits_value(d.take(i - start), radix as nat) && acc <= max,
            over ==> digits_value(d.take(i - start), radix as nat) > max,
        decreases s.len() - i,
    {
        let ghost k = i - start;
        let dv = digit_of(s[i], radix);
        assert(d[k] == s@[i as int]);
        match dv {
            None => {
                assert(!is_radix_digit(d[k], radix as nat));
                assert(!all_radix_digits(d, radix as nat));
                return None;
            },
            Some(v) => {
                let ghost prev = digits_value(d.take(k), radix as nat);
                assert(d.take(k + 1).drop_last() =~= d.take(k));
                assert(d.take(k + 1).last() == d[k]);
                assert(digits_value(d.take(k + 1), radix as nat) == prev * radix + v);
                if over {
                    proof {
                        lemma_step_bound(prev, radix as nat, v as nat, max as nat);
                    }
                } else if v > max {
                    proof {
                        assert(prev * radix >= 0) by (nonlinear_arith)
                            requires
                                prev >= 0,
                                radix >= 1,
                        ;
                    }
                    over = true;
                } else {
                    proof {
                        lemma_fits(acc as int, radix as int, v as int, max as int);
                    }
                    if acc > (max - v) / radix {
                        over = true;
                    } else {
                        assert(acc * radix + v <= max);
                        acc = acc * radix + v;
                    }
                }
                assert forall|j: int| 0 <= j < k + 1 implies is_radix_digit(
                    #[trigger] d.take(k + 1)[j],
                    radix as nat,
                ) by {
                    if j < k {
                        assert(d.take(k + 1)[j] == d.take(k)[j]);
                    }
                }
            },
        }
        i = i + 1;
    }
    assert(d.take(s.len() - start) =~= d);
    if over {
        None
    } else {
        Some(acc)
    }
}

pub fn parse_u64_chars(s: &[char]) -> (r: Option<u64>)
    ensures
        r == parse_u64(s@),
{
    parse_number(s, 10, u64::MAX)
}

pub fn parse_u32_chars(s: &[char]) -> (r: Option<u32>)
    ensures
        r == parse_u32(s@),
{
    match parse_number(s, 10, u32::MAX as u64) {
        Some(v) => Some(v as u32),
        None => None,
    }
}


// ---------------------------------------------------------------------
// Ordering
// ---------------------------------------------------------------------

/// `a` sorts before `b`, as `str`'s `Ord` does: character by character,
/// a prefix first.
pub open spec fn seq_lt(a: Seq<char>, b: Seq<char>) -> bool
    decreases a.len(),
{
    if a.len() == 0 {
        b.len() > 0
    } else if b.len() == 0 {
        false
    } else if a[0] != b[0] {
        a[0] < b[0]
    } else {
        seq_lt(a.drop_first(), b.drop_first())
    }
}

pub proof fn lemma_seq_lt_irreflexive(a: Seq<char>)
    ensures
        !seq_lt(a, a),
    decreases a.len(),
{
    if a.len() > 0 {
        lemma_seq_lt_irreflexive(a.drop_first());
    }
}

pub proof fn lemma_seq_lt_total(a: Seq<char>, b: Seq<char>)
    ensures
        a != b ==> seq_lt(a, b) || seq_lt(b, a),
        !(seq_lt(a, b) && seq_lt(b, a)),
    decreases a.len(),
{
    if a.len() > 0 && b.len() > 0 {
        lemma_seq_lt_total(a.drop_first(), b.drop_first());
        if a[0] == b[0] && a != b {
            assert(a.drop_first() != b.drop_first()) by {
                if a.drop_first() == b.drop_first() {
                    assert(a =~= seq![a[0]] + a.drop_first());
                    assert(b =~= seq![b[0]] + b.drop_first());
                }
            }
        }
    } else if a.len() == 0 && b.len() == 0 {
        assert(a =~= b);
    }
}

pub proof fn lemma_seq_lt_transitive(a: Seq<char>, b: Seq<char>, c: Seq<char>)
    requires
        seq_lt(a, b),
        seq_lt(b, c),
    ensures
        seq_lt(a, c),
    decreases a.len(),
{
    if a.len() > 0 && b.len() > 0 && c.len() > 0 {
        if a[0] == b[0] && b[0] == c[0] {
            lemma_seq_lt_transitive(a.drop_first(), b.drop_first(), c.drop_first());
        }
    }
}

/// Whether `a` sorts before `b`.
pub fn chars_lt(a: &[char], b: &[char]) -> (r: bool)
    ensures
        r == seq_lt(a@, b@),
{
    let mut i: usize = 0;
    assert(a@.skip(0) =~= a@);
    assert(b@.skip(0) =~= b@);
    while i < a.len() && i < b.len() && a[i] == b[i]
        invariant
            i <= a.len(),
            i <= b.len(),
            seq_lt(a@, b@) == seq_lt(a@.skip(i as int), b@.skip(i as int)),
        decreases a.len() - i,
    {
        assert(a@.skip(i as int).drop_first() =~= a@.skip(i + 1));
        assert(b@.skip(i as int).drop_first() =~= b@.skip(i + 1));
        i = i + 1;
    }
    if i == a.len() {
        return i < b.len();
    }
    if i == b.len() {
        return false;
    }
    assert(a@.skip(i as int)[0] == a@[i as int]);
    assert(b@.skip(i as int)[0] == b@[i as int]);
    a[i] < b[i]
}

/// Whether `p` is a prefix of `s`.
pub fn has_prefix_chars(s: &[char], p: &[char]) -> (r: bool)
    ensures
        r == starts_with(s@, p@),
{
    if p.len() > s.len() {
        return false;
    }
    let w = slice_vec(s, 0, p.len());
    assert(w@ =~= s@.take(p.len() as int));
    eq_chars(w.as_slice(), p)
}

/// Whether `q` occurs in `s`.
pub open spec fn contains_seq(s: Seq<char>, q: Seq<char>) -> bool {
    exists|i: int| 0 <= i && i + q.len() <= s.len() && #[trigger] s.subrange(i, i + q.len()) == q
}

pub fn contains_chars(s: &[char], q: &[char]) -> (r: bool)
    ensures
        r == contains_seq(s@, q@),
{
    if q.len() > s.len() {
        return false;
    }
    if q.len() == 0 {
        assert(s@.subrange(0, 0int + q@.len()) =~= q@);
        return true;
    }
    let mut i: usize = 0;
    while i <= s.len() - q.len()
        invariant
            0 < q.len() <= s.len(),
            i <= s.len() - q.len() + 1,
            forall|j: int| 0 <= j < i ==> #[trigger] s@.subrange(j, j + q.len()) != q@,
        decreases s.len() - q.len() + 1 - i,
    {
        let w = slice_vec(s, i, i + q.len());
        if eq_chars(w.as_slice(), q) {
            assert(s@.subrange(i as int, i + q.len()) == q@);
            return true;
        }
        i = i + 1;
    }
    false
}


// ---------------------------------------------------------------------
// Decimal
// ---------------------------------------------------------------------

pub open spec fn digit_char(d: nat) -> char {
    (('0' as nat) + d) as char
}

/// `n` in decimal, as `Display` writes an unsigned integer.
pub open spec fn decimal(n: nat) -> Seq<char>
    decreases n,
{
    if n < 10 {
        seq![digit_char(n)]
    } else {
        decimal(n / 10).push(digit_char(n % 10))
    }
}

/// `n` in decimal.
pub fn decimal_of(n: u64) -> (r: String)
    ensures
        r@ == decimal(n as nat),
{
    let mut rev: Vec<char> = Vec::new();
    let mut m = n;
    loop
        invariant_except_break
            decimal(n as nat) == decimal(m as nat) + rev@.reverse(),
        ensures
            decimal(n as nat) == rev@.reverse(),
        decreases m,
    {
        let d = (m % 10) as u32;
        let c = char_of_digit(d);
        let ghost r0 = rev@;
        rev.push(c);
        if m < 10 {
            assert(rev@.reverse() =~= seq![c] + r0.reverse());
            assert(decimal(m as nat) == seq![c]);
            assert(decimal(n as nat) =~= seq![c] + r0.reverse());
            break;
        }
        assert(decimal(m as nat) == decimal((m / 10) as nat).push(c));
        assert(rev@.reverse() =~= seq![c] + r0.reverse());
        assert(decimal((m / 10) as nat).push(c) + r0.reverse() =~= decimal((m / 10) as nat) + rev@.reverse());
        m = m / 10;
    }
    let mut out: Vec<char> = Vec::new();
    let mut k = rev.len();
    while k > 0
        invariant
            k <= rev.len(),
            out@ == rev@.reverse().take(rev.len() - k),
        decreases k,
    {
        out.push(rev[k - 1]);
        assert(rev@.reverse().take(rev.len() - k + 1) =~= rev@.reverse().take(rev.len() - k).push(rev@[k - 1]));
        k = k - 1;
    }
    assert(rev@.reverse().take(rev.len() as int) =~= rev@.reverse());
    string_of(out.as_slice())
}

fn char_of_digit(d: u32) -> (c: char)
    requires
        d < 10,
    ensures
        c == digit_char(d as nat),
{
    if d == 0 { '0' } else if d == 1 { '1' } else if d == 2 { '2' } else if d == 3 { '3' } else if d == 4 { '4' }
    else if d == 5 { '5' } else if d == 6 { '6' } else if d == 7 { '7' } else if d == 8 { '8' } else { '9' }
}


// ---------------------------------------------------------------------
// Building text
// ---------------------------------------------------------------------

/// Append the characters of `s`.
pub fn push_chars(out: &mut Vec<char>, s: &[char])
    ensures
        final(out)@ == old(out)@ + s@,
{
    let ghost o0 = out@;
    let mut i: usize = 0;
    while i < s.len()
        invariant
            i <= s.len(),
            out@ == o0 + s@.take(i as int),
        decreases s.len() - i,
    {
        out.push(s[i]);
        assert(s@.take(i + 1) =~= s@.take(i as int).push(s@[i as int]));
        i = i + 1;
    }
    assert(s@.take(s.len() as int) =~= s@);
}

/// Append the characters of `s`.
pub fn push_str(out: &mut Vec<char>, s: &str)
    ensures
        final(out)@ == old(out)@ + s@,
{
    let v = chars_of(s);
    push_chars(out, v.as_slice());
}

/// The words joined with `sep` between them, as `[..].join(sep)`.
pub open spec fn joined(ws: Seq<Seq<char>>, sep: Seq<char>) -> Seq<char>
    decreases ws.len(),
{
    if ws.len() == 0 {
        seq![]
    } else if ws.len() == 1 {
        ws[0]
    } else {
        joined(ws.drop_last(), sep) + sep + ws.last()
    }
}

/// `ws` joined with `sep`.
pub fn join_with(ws: &Vec<Vec<char>>, sep: &str) -> (r: Vec<char>)
    ensures
        r@ == joined(views(ws@), sep@),
{
    let mut out: Vec<char> = Vec::new();
    let mut i: usize = 0;
    assert(views(ws@).take(0) =~= Seq::<Seq<char>>::empty());
    while i < ws.len()
        invariant
            i <= ws.len(),
            out@ == joined(views(ws@).take(i as int), sep@),
        decreases ws.len() - i,
    {
        assert(views(ws@).take(i + 1).drop_last() =~= views(ws@).take(i as int));
        assert(views(ws@).take(i + 1).last() == ws@[i as int]@);
        if i > 0 {
            push_str(&mut out, sep);
        } else {
            assert(views(ws@).take(1) =~= seq![ws@[0]@]);
        }
        push_chars(&mut out, ws[i].as_slice());
        i = i + 1;
    }
    assert(views(ws@).take(ws.len() as int) =~= views(ws@));
    out
}

} // verus!
