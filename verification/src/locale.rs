//! The UI language: every text the shell shows comes from a catalogue
//! keyed by a stable id (`locker.unlock`, `sysmon.tab.processes`), one
//! catalogue per language. English is a catalogue like the others and
//! the fallback under every other one. Formatting dates in the
//! language, and reading the environment, are the caller's.
use vstd::prelude::*;

use crate::config::{opt_view, str_eq};
use crate::icons::last_value;
use crate::text::{chars_of, string_of};

verus! {

/// The language used when nothing else fits.
pub const DEFAULT: &'static str = "en";

/// The English catalogue: key and text pairs.
pub open spec fn english_catalogue() -> Seq<(Seq<char>, Seq<char>)> {
    seq![
        ("launcher.search"@, "Search applications…"@),
        ("locker.enter_password"@, "Enter password"@),
        ("locker.auth_failed"@, "Authentication failed"@),
        ("locker.unlocking"@, "Unlocking…"@),
        ("locker.unlock"@, "Unlock"@),
        ("locker.show_password"@, "show"@),
        ("locker.hide_password"@, "hide"@),
        ("notifications.title"@, "Notifications"@),
        ("notifications.dnd"@, "Do not disturb"@),
        ("notifications.clear"@, "Clear"@),
        ("notifications.empty"@, "No notifications"@),
        ("notifications.age.now"@, "now"@),
        ("notifications.age.minutes"@, "{n} min"@),
        ("notifications.age.hours"@, "{n} h"@),
        ("notifications.age.yesterday"@, "yesterday"@),
        ("audio.output"@, "Output"@),
        ("audio.input"@, "Input"@),
        ("audio.playing"@, "Playing"@),
        ("audio.mixer"@, "Mixer"@),
        ("audio.empty"@, "No audio devices"@),
        ("sysmon.tab.cpu"@, "CPU"@),
        ("sysmon.tab.memory"@, "Memory"@),
        ("sysmon.tab.disks"@, "Disks"@),
        ("sysmon.tab.network"@, "Network"@),
        ("sysmon.tab.gpu"@, "GPU"@),
        ("sysmon.tab.processes"@, "Processes"@),
        ("sysmon.column.name"@, "Name"@),
        ("sysmon.column.pid"@, "PID"@),
        ("sysmon.column.user"@, "User"@),
        ("sysmon.column.cpu"@, "CPU%"@),
        ("sysmon.column.memory"@, "Memory"@),
        ("sysmon.terminate"@, "Terminate"@),
        ("sysmon.kill"@, "Kill"@),
        ("sysmon.select_help"@, "Select a process to signal it"@),
        ("sysmon.cpu.frequency"@, "Frequency: {freq}"@),
        ("sysmon.cpu.temperature"@, "Temperature: {temp}°C"@),
        ("sysmon.mem.swap"@, "Swap {used} of {total}"@),
        ("sysmon.gpu.vram"@, "VRAM {used} / {total}"@),
        ("themes.light"@, "Light"@),
        ("themes.dark"@, "Dark"@),
        ("themes.base"@, "Base"@),
    ]
}

/// English: the reference catalogue, the fallback under every other.
pub fn english() -> (r: Vec<(&'static str, &'static str)>)
    ensures
        texts_view(r@) == english_catalogue(),
{
    let r = vec![
        ("launcher.search", "Search applications…"),
        ("locker.enter_password", "Enter password"),
        ("locker.auth_failed", "Authentication failed"),
        ("locker.unlocking", "Unlocking…"),
        ("locker.unlock", "Unlock"),
        ("locker.show_password", "show"),
        ("locker.hide_password", "hide"),
        ("notifications.title", "Notifications"),
        ("notifications.dnd", "Do not disturb"),
        ("notifications.clear", "Clear"),
        ("notifications.empty", "No notifications"),
        ("notifications.age.now", "now"),
        ("notifications.age.minutes", "{n} min"),
        ("notifications.age.hours", "{n} h"),
        ("notifications.age.yesterday", "yesterday"),
        ("audio.output", "Output"),
        ("audio.input", "Input"),
        ("audio.playing", "Playing"),
        ("audio.mixer", "Mixer"),
        ("audio.empty", "No audio devices"),
        ("sysmon.tab.cpu", "CPU"),
        ("sysmon.tab.memory", "Memory"),
        ("sysmon.tab.disks", "Disks"),
        ("sysmon.tab.network", "Network"),
        ("sysmon.tab.gpu", "GPU"),
        ("sysmon.tab.processes", "Processes"),
        ("sysmon.column.name", "Name"),
        ("sysmon.column.pid", "PID"),
        ("sysmon.column.user", "User"),
        ("sysmon.column.cpu", "CPU%"),
        ("sysmon.column.memory", "Memory"),
        ("sysmon.terminate", "Terminate"),
        ("sysmon.kill", "Kill"),
        ("sysmon.select_help", "Select a process to signal it"),
        ("sysmon.cpu.frequency", "Frequency: {freq}"),
        ("sysmon.cpu.temperature", "Temperature: {temp}°C"),
        ("sysmon.mem.swap", "Swap {used} of {total}"),
        ("sysmon.gpu.vram", "VRAM {used} / {total}"),
        ("themes.light", "Light"),
        ("themes.dark", "Dark"),
        ("themes.base", "Base"),
    ];
    assert(texts_view(r@) =~= english_catalogue());
    r
}

/// The Italian catalogue: key and text pairs.
pub open spec fn italian_catalogue() -> Seq<(Seq<char>, Seq<char>)> {
    seq![
        ("launcher.search"@, "Cerca applicazioni…"@),
        ("locker.enter_password"@, "Inserisci la password"@),
        ("locker.auth_failed"@, "Autenticazione fallita"@),
        ("locker.unlocking"@, "Sblocco…"@),
        ("locker.unlock"@, "Sblocca"@),
        ("locker.show_password"@, "mostra"@),
        ("locker.hide_password"@, "nascondi"@),
        ("notifications.title"@, "Notifiche"@),
        ("notifications.dnd"@, "Non disturbare"@),
        ("notifications.clear"@, "Cancella"@),
        ("notifications.empty"@, "Nessuna notifica"@),
        ("notifications.age.now"@, "adesso"@),
        ("notifications.age.minutes"@, "{n} min"@),
        ("notifications.age.hours"@, "{n} h"@),
        ("notifications.age.yesterday"@, "ieri"@),
        ("audio.output"@, "Uscita"@),
        ("audio.input"@, "Ingresso"@),
        ("audio.playing"@, "In riproduzione"@),
        ("audio.mixer"@, "Mixer"@),
        ("audio.empty"@, "Nessun dispositivo audio"@),
        ("sysmon.tab.cpu"@, "CPU"@),
        ("sysmon.tab.memory"@, "Memoria"@),
        ("sysmon.tab.disks"@, "Dischi"@),
        ("sysmon.tab.network"@, "Rete"@),
        ("sysmon.tab.gpu"@, "GPU"@),
        ("sysmon.tab.processes"@, "Processi"@),
        ("sysmon.column.name"@, "Nome"@),
        ("sysmon.column.pid"@, "PID"@),
        ("sysmon.column.user"@, "Utente"@),
        ("sysmon.column.cpu"@, "CPU%"@),
        ("sysmon.column.memory"@, "Memoria"@),
        ("sysmon.terminate"@, "Termina"@),
        ("sysmon.kill"@, "Kill"@),
        ("sysmon.cpu.frequency"@, "Frequenza: {freq}"@),
        ("sysmon.cpu.temperature"@, "Temperatura: {temp}°C"@),
        ("sysmon.mem.swap"@, "Swap {used} di {total}"@),
        ("sysmon.gpu.vram"@, "VRAM {used} / {total}"@),
        ("exiter.lock"@, "Blocca"@),
        ("exiter.suspend"@, "Sospendi"@),
        ("exiter.hibernate"@, "Iberna"@),
        ("exiter.logout"@, "Esci"@),
        ("exiter.reboot"@, "Riavvia"@),
        ("exiter.shutdown"@, "Spegni"@),
        ("exiter.confirm"@, "{action}?"@),
        ("exiter.countdown"@, "Automaticamente tra {n} s"@),
        ("exiter.cancel"@, "Annulla"@),
        ("themes.light"@, "Chiaro"@),
        ("themes.dark"@, "Scuro"@),
        ("themes.base"@, "Base"@),
    ]
}

/// Italian.
pub fn italian() -> (r: Vec<(&'static str, &'static str)>)
    ensures
        texts_view(r@) == italian_catalogue(),
{
    let r = vec![
        ("launcher.search", "Cerca applicazioni…"),
        ("locker.enter_password", "Inserisci la password"),
        ("locker.auth_failed", "Autenticazione fallita"),
        ("locker.unlocking", "Sblocco…"),
        ("locker.unlock", "Sblocca"),
        ("locker.show_password", "mostra"),
        ("locker.hide_password", "nascondi"),
        ("notifications.title", "Notifiche"),
        ("notifications.dnd", "Non disturbare"),
        ("notifications.clear", "Cancella"),
        ("notifications.empty", "Nessuna notifica"),
        ("notifications.age.now", "adesso"),
        ("notifications.age.minutes", "{n} min"),
        ("notifications.age.hours", "{n} h"),
        ("notifications.age.yesterday", "ieri"),
        ("audio.output", "Uscita"),
        ("audio.input", "Ingresso"),
        ("audio.playing", "In riproduzione"),
        ("audio.mixer", "Mixer"),
        ("audio.empty", "Nessun dispositivo audio"),
        ("sysmon.tab.cpu", "CPU"),
        ("sysmon.tab.memory", "Memoria"),
        ("sysmon.tab.disks", "Dischi"),
        ("sysmon.tab.network", "Rete"),
        ("sysmon.tab.gpu", "GPU"),
        ("sysmon.tab.processes", "Processi"),
        ("sysmon.column.name", "Nome"),
        ("sysmon.column.pid", "PID"),
        ("sysmon.column.user", "Utente"),
        ("sysmon.column.cpu", "CPU%"),
        ("sysmon.column.memory", "Memoria"),
        ("sysmon.terminate", "Termina"),
        ("sysmon.kill", "Kill"),
        ("sysmon.cpu.frequency", "Frequenza: {freq}"),
        ("sysmon.cpu.temperature", "Temperatura: {temp}°C"),
        ("sysmon.mem.swap", "Swap {used} di {total}"),
        ("sysmon.gpu.vram", "VRAM {used} / {total}"),
        ("exiter.lock", "Blocca"),
        ("exiter.suspend", "Sospendi"),
        ("exiter.hibernate", "Iberna"),
        ("exiter.logout", "Esci"),
        ("exiter.reboot", "Riavvia"),
        ("exiter.shutdown", "Spegni"),
        ("exiter.confirm", "{action}?"),
        ("exiter.countdown", "Automaticamente tra {n} s"),
        ("exiter.cancel", "Annulla"),
        ("themes.light", "Chiaro"),
        ("themes.dark", "Scuro"),
        ("themes.base", "Base"),
    ];
    assert(texts_view(r@) =~= italian_catalogue());
    r
}

/// `s` up to its first `a` or `b`.
pub open spec fn prefix_before(s: Seq<char>, a: char, b: char) -> Seq<char>
    decreases s.len(),
{
    if s.len() == 0 || s[0] == a || s[0] == b {
        seq![]
    } else {
        seq![s[0]] + prefix_before(s.drop_first(), a, b)
    }
}

/// What `str::to_lowercase` makes of a text.
pub uninterp spec fn unicode_lower(s: Seq<char>) -> Seq<char>;

/// `str::to_lowercase`: the Unicode lowercase mapping of the text.
/// Stated here: the result is a function of the text.
#[verifier::external_body]
pub(crate) fn to_lowercase(s: &str) -> (r: String)
    ensures
        r@ == unicode_lower(s@),
{
    s.to_lowercase()
}

fn prefix(s: &[char], a: char, b: char) -> (r: Vec<char>)
    ensures
        r@ == prefix_before(s@, a, b),
{
    let mut r: Vec<char> = Vec::new();
    let mut i: usize = 0;
    assert(s@.skip(0) =~= s@);
    while i < s.len() && s[i] != a && s[i] != b
        invariant
            i <= s.len(),
            prefix_before(s@, a, b) == r@ + prefix_before(s@.skip(i as int), a, b),
        decreases s.len() - i,
    {
        let ghost r0 = r@;
        r.push(s[i]);
        assert(s@.skip(i as int).drop_first() =~= s@.skip(i + 1));
        assert(r0 + prefix_before(s@.skip(i as int), a, b) =~= r@ + prefix_before(s@.skip(i + 1), a, b));
        i = i + 1;
    }
    assert(r@ + prefix_before(s@.skip(i as int), a, b) =~= r@);
    r
}

/// The language and region a locale value asks for: `it_IT.UTF-8`
/// gives `("it", Some("it_IT"))`; `C`, `POSIX` and nothing give English.
pub open spec fn locale_of(value: Seq<char>) -> (Seq<char>, Option<Seq<char>>) {
    let region = prefix_before(value, '.', '@');
    if region.len() == 0 || region == "C"@ || region == "POSIX"@ {
        (DEFAULT@, None)
    } else {
        (unicode_lower(prefix_before(region, '_', '_')), Some(region))
    }
}

pub fn parse_locale(value: &str) -> (r: (String, Option<String>))
    ensures
        (r.0@, opt_view(r.1)) == locale_of(value@),
{
    let v = chars_of(value);
    let region = prefix(v.as_slice(), '.', '@');
    let rs = string_of(region.as_slice());
    if region.len() == 0 || str_eq(rs.as_str(), "C") || str_eq(rs.as_str(), "POSIX") {
        return (crate::text::owned(DEFAULT), None);
    }
    let code = prefix(region.as_slice(), '_', '_');
    let cs = string_of(code.as_slice());
    (to_lowercase(cs.as_str()), Some(rs))
}

pub open spec fn texts_view(v: Seq<(&'static str, &'static str)>) -> Seq<(Seq<char>, Seq<char>)> {
    v.map_values(|p: (&'static str, &'static str)| (p.0@, p.1@))
}

/// The languages with a catalogue: code and the region used for dates
/// when the environment gives none.
pub open spec fn known_language(code: Seq<char>) -> Option<Seq<char>> {
    if code == "en"@ {
        Some("en_US"@)
    } else if code == "it"@ {
        Some("it_IT"@)
    } else {
        None
    }
}

pub struct Locale {
    lang: String,
    /// The region the environment gave, if any.
    region: Option<String>,
    /// The language's own region, for dates.
    default_region: String,
    /// English under the chosen language's texts.
    texts: Vec<(&'static str, &'static str)>,
}

impl Locale {
    pub closed spec fn spec_lang(&self) -> Seq<char> {
        self.lang@
    }

    pub closed spec fn spec_region(&self) -> Option<Seq<char>> {
        opt_view(self.region)
    }

    pub closed spec fn spec_default_region(&self) -> Seq<char> {
        self.default_region@
    }

    /// Key and text pairs, English first: the last pair for a key wins.
    pub closed spec fn spec_texts(&self) -> Seq<(Seq<char>, Seq<char>)> {
        texts_view(self.texts@)
    }

    /// `language` is `[general] language`; empty means the environment's
    /// (`environment`: the first of `LC_ALL`, `LC_MESSAGES`, `LANG`
    /// that is set and not empty, else empty). A language without a
    /// catalogue is English.
    pub fn new(language: &str, environment: &str) -> (r: Locale)
        ensures
            ({
                let (wanted, region) = if language@.len() == 0 {
                    locale_of(environment@)
                } else {
                    (language@, None)
                };
                let lang = if known_language(wanted) is Some { wanted } else { DEFAULT@ };
                &&& r.spec_lang() == lang
                &&& r.spec_region() == region
                &&& Some(r.spec_default_region()) == known_language(lang)
                &&& r.spec_texts() == english_catalogue() + (if lang == "it"@ {
                    italian_catalogue()
                } else {
                    english_catalogue()
                })
            }),
    {
        let (wanted, region) = if language.is_empty() {
            parse_locale(environment)
        } else {
            (crate::text::owned(language), None)
        };
        proof {
            reveal_strlit("en");
            reveal_strlit("it");
            assert("en"@[0] == 'e' && "it"@[0] == 'i');
            assert(DEFAULT@ == "en"@);
        }
        let mut texts = english();
        if str_eq(wanted.as_str(), "it") {
            let mut more = italian();
            texts.append(&mut more);
            Locale { lang: wanted, region, default_region: crate::text::owned("it_IT"), texts }
        } else if str_eq(wanted.as_str(), "en") {
            let mut more = english();
            texts.append(&mut more);
            Locale { lang: wanted, region, default_region: crate::text::owned("en_US"), texts }
        } else {
            let mut more = english();
            texts.append(&mut more);
            Locale { lang: crate::text::owned(DEFAULT), region, default_region: crate::text::owned("en_US"), texts }
        }
    }

    /// The language code in use.
    pub fn lang(&self) -> (r: &str)
        ensures
            r@ == self.spec_lang(),
    {
        self.lang.as_str()
    }

    /// The regions to format dates with, in order of preference: the
    /// environment's, then the language's own.
    pub fn date_regions(&self) -> (r: Vec<String>)
        ensures
            crate::config::strings_view(r@) == (match self.spec_region() {
                Some(g) => seq![g, self.spec_default_region()],
                None => seq![self.spec_default_region()],
            }),
    {
        let mut r: Vec<String> = Vec::new();
        match &self.region {
            Some(g) => r.push(g.clone()),
            None => {},
        }
        r.push(self.default_region.clone());
        assert(crate::config::strings_view(r@) =~= (match self.spec_region() {
            Some(g) => seq![g, self.spec_default_region()],
            None => seq![self.spec_default_region()],
        }));
        r
    }

    /// The text for `key`; the key itself when no catalogue has it.
    pub fn tr<'a>(&self, key: &'a str) -> (r: &'a str)
        ensures
            r@ == (match last_value(self.spec_texts(), key@) {
                Some(t) => t,
                None => key@,
            }),
    {
        let ghost tv = texts_view(self.texts@);
        let mut k = self.texts.len();
        assert(tv.take(k as int) =~= tv);
        while k > 0
            invariant
                k <= self.texts.len(),
                tv == texts_view(self.texts@),
                last_value(tv, key@) == last_value(tv.take(k as int), key@),
            decreases k,
        {
            assert(tv.take(k as int).last() == (self.texts@[k - 1].0@, self.texts@[k - 1].1@));
            if str_eq(self.texts[k - 1].0, key) {
                return text_of(self.texts[k - 1].1);
            }
            assert(tv.take(k as int).drop_last() =~= tv.take(k - 1));
            k = k - 1;
        }
        key
    }

    /// The text for `key` with its `{name}` placeholders filled, in the
    /// order of `args`.
    pub fn fmt(&self, key: &str, args: &[(&str, String)]) -> (r: String)
        ensures
            r@ == fill(
                match last_value(self.spec_texts(), key@) {
                    Some(t) => t,
                    None => key@,
                },
                args_view(args@),
            ),
    {
        let mut text = crate::text::owned(self.tr(key));
        let ghost t0 = text@;
        let mut i: usize = 0;
        assert(args_view(args@).take(0) =~= Seq::<(Seq<char>, Seq<char>)>::empty());
        while i < args.len()
            invariant
                i <= args.len(),
                text@ == fill(t0, args_view(args@).take(i as int)),
            decreases args.len() - i,
        {
            assert(args_view(args@).take(i + 1).drop_last() =~= args_view(args@).take(i as int));
            assert(args_view(args@).take(i + 1).last() == (args@[i as int].0@, args@[i as int].1@));
            let pat = braced(args[i].0);
            text = replace_all(text.as_str(), pat.as_str(), args[i].1.as_str());
            i = i + 1;
        }
        assert(args_view(args@).take(args.len() as int) =~= args_view(args@));
        text
    }
}

fn text_of(s: &'static str) -> (r: &'static str)
    ensures
        r@ == s@,
{
    s
}

pub open spec fn args_view(v: Seq<(&str, String)>) -> Seq<(Seq<char>, Seq<char>)> {
    v.map_values(|p: (&str, String)| (p.0@, p.1@))
}

/// `{name}` for a placeholder name.
pub open spec fn brace(name: Seq<char>) -> Seq<char> {
    seq!['{'] + name + seq!['}']
}

/// The text with each placeholder of `args` replaced, in order.
pub open spec fn fill(text: Seq<char>, args: Seq<(Seq<char>, Seq<char>)>) -> Seq<char>
    decreases args.len(),
{
    if args.len() == 0 {
        text
    } else {
        replaced(fill(text, args.drop_last()), brace(args.last().0), args.last().1)
    }
}

/// Every occurrence of `pat` replaced by `rep`, left to right and not
/// overlapping, as `str::replace` does.
pub open spec fn replaced(s: Seq<char>, pat: Seq<char>, rep: Seq<char>) -> Seq<char>
    decreases s.len(),
{
    if pat.len() == 0 || s.len() < pat.len() {
        s
    } else if s.take(pat.len() as int) == pat {
        rep + replaced(s.skip(pat.len() as int), pat, rep)
    } else {
        seq![s[0]] + replaced(s.drop_first(), pat, rep)
    }
}

fn braced(name: &str) -> (r: String)
    ensures
        r@ == brace(name@),
{
    let mut s = String::new();
    crate::text::push_char(&mut s, '{');
    let n = chars_of(name);
    let mut i: usize = 0;
    while i < n.len()
        invariant
            i <= n.len(),
            s@ == seq!['{'] + n@.take(i as int),
        decreases n.len() - i,
    {
        crate::text::push_char(&mut s, n[i]);
        assert(n@.take(i + 1) =~= n@.take(i as int).push(n@[i as int]));
        i = i + 1;
    }
    crate::text::push_char(&mut s, '}');
    assert(n@.take(n.len() as int) =~= n@);
    assert(s@ =~= brace(name@));
    s
}

/// `s` with every `pat` replaced by `rep`.
pub fn replace_all(s: &str, pat: &str, rep: &str) -> (r: String)
    ensures
        r@ == replaced(s@, pat@, rep@),
{
    let v = chars_of(s);
    let p = chars_of(pat);
    let rv = chars_of(rep);
    let mut out: Vec<char> = Vec::new();
    if p.len() == 0 {
        return crate::text::owned(s);
    }
    let mut i: usize = 0;
    assert(v@.skip(0) =~= v@);
    while i < v.len()
        invariant
            i <= v.len(),
            v@ == s@,
            p@ == pat@,
            rv@ == rep@,
            p.len() > 0,
            replaced(s@, pat@, rep@) == out@ + replaced(v@.skip(i as int), pat@, rep@),
        decreases v.len() - i,
    {
        let ghost t = v@.skip(i as int);
        if v.len() - i < p.len() {
            assert(replaced(t, pat@, rep@) == t);
            let ghost o0 = out@;
            let mut k = i;
            while k < v.len()
                invariant
                    i <= k <= v.len(),
                    out@ == o0 + v@.subrange(i as int, k as int),
                decreases v.len() - k,
            {
                out.push(v[k]);
                assert(v@.subrange(i as int, k + 1) =~= v@.subrange(i as int, k as int).push(v@[k as int]));
                k = k + 1;
            }
            assert(v@.subrange(i as int, v.len() as int) =~= t);
            assert(v@.skip(v.len() as int) =~= Seq::<char>::empty());
            i = v.len();
            assert(out@ + replaced(v@.skip(i as int), pat@, rep@) =~= out@);
        } else {
            let window = crate::text::slice_vec(v.as_slice(), i, i + p.len());
            assert(window@ =~= t.take(p.len() as int));
            if crate::text::eq_chars(window.as_slice(), p.as_slice()) {
                let ghost o0 = out@;
                let mut k: usize = 0;
                while k < rv.len()
                    invariant
                        k <= rv.len(),
                        out@ == o0 + rv@.take(k as int),
                    decreases rv.len() - k,
                {
                    out.push(rv[k]);
                    assert(rv@.take(k + 1) =~= rv@.take(k as int).push(rv@[k as int]));
                    k = k + 1;
                }
                assert(rv@.take(rv.len() as int) =~= rv@);
                assert(t.skip(p.len() as int) =~= v@.skip(i + p.len()));
                assert(o0 + replaced(t, pat@, rep@) =~= out@ + replaced(v@.skip(i + p.len()), pat@, rep@));
                i = i + p.len();
            } else {
                let ghost o0 = out@;
                out.push(v[i]);
                assert(t.drop_first() =~= v@.skip(i + 1));
                assert(o0 + replaced(t, pat@, rep@) =~= out@ + replaced(v@.skip(i + 1), pat@, rep@));
                i = i + 1;
            }
        }
    }
    assert(out@ + replaced(v@.skip(i as int), pat@, rep@) =~= out@);
    string_of(out.as_slice())
}

/// The text a key has in English under another catalogue: the other
/// catalogue's when it has the key, else English's.
pub proof fn overlay_falls_back(
    english: Seq<(Seq<char>, Seq<char>)>,
    other: Seq<(Seq<char>, Seq<char>)>,
    key: Seq<char>,
)
    ensures
        last_value(english + other, key) == (match last_value(other, key) {
            Some(t) => Some(t),
            None => last_value(english, key),
        }),
    decreases other.len(),
{
    if other.len() > 0 {
        assert((english + other).drop_last() =~= english + other.drop_last());
        assert((english + other).last() == other.last());
        overlay_falls_back(english, other.drop_last(), key);
    } else {
        assert(english + other =~= english);
    }
}

} // verus!
