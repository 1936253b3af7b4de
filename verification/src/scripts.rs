//! Programs whose output feeds gadgets: a `[Custom]`'s `exec`. A gadget
//! describes what to run as a [`Spec`]; every distinct spec runs once,
//! however many panels show it, and its last [`Output`] is kept. Running
//! the programs on a timer is the caller's; reading what they print is
//! here.
use vstd::prelude::*;

use crate::config::{opt_view, strings_of, strings_view};
use crate::text::{chars_of, split_ws, string_of, trim, trim_chars, words};

verus! {

#[derive(Debug, Clone, Copy, PartialEq, Eq, Structural, Hash)]
pub enum ReturnType {
    /// The output, trimmed, is the text.
    Text,
    /// A JSON object, waybar's shape: `{"text": .., "class": .. }`, plus
    /// our `icon`. Other fields are ignored.
    Json,
}

/// A program to run, and how to read it. Its identity: two gadgets
/// with the same spec share one run.
#[derive(Debug, Clone, PartialEq, Eq, Hash)]
pub struct Spec {
    /// The program and its arguments.
    pub argv: Vec<String>,
    /// Seconds between runs; 0 runs once (and on `Refresh`).
    pub interval: u64,
    pub return_type: ReturnType,
}

pub struct SpecView {
    pub argv: Seq<Seq<char>>,
    pub interval: u64,
    pub return_type: ReturnType,
}

impl View for Spec {
    type V = SpecView;

    open spec fn view(&self) -> SpecView {
        SpecView { argv: strings_view(self.argv@), interval: self.interval, return_type: self.return_type }
    }
}

/// What a run said. A failed run gives an empty text.
#[derive(Debug, Clone, PartialEq, Eq)]
pub struct Output {
    pub text: String,
    /// An icon name replacing the gadget's.
    pub icon: Option<String>,
    /// CSS classes for the gadget's button.
    pub classes: Vec<String>,
}

pub struct OutputView {
    pub text: Seq<char>,
    pub icon: Option<Seq<char>>,
    pub classes: Seq<Seq<char>>,
}

impl View for Output {
    type V = OutputView;

    open spec fn view(&self) -> OutputView {
        OutputView { text: self.text@, icon: opt_view(self.icon), classes: strings_view(self.classes@) }
    }
}

pub open spec fn empty_output() -> OutputView {
    OutputView { text: seq![], icon: None, classes: seq![] }
}

impl Default for Output {
    fn default() -> (r: Output)
        ensures
            r@ == empty_output(),
    {
        let r = Output { text: String::new(), icon: None, classes: Vec::new() };
        assert(strings_view(r.classes@) =~= Seq::<Seq<char>>::empty());
        r
    }
}

impl Output {
    /// A field-by-field copy.
    pub fn copy(&self) -> (r: Output)
        ensures
            r@ == self@,
    {
        let mut classes: Vec<String> = Vec::new();
        let mut i: usize = 0;
        while i < self.classes.len()
            invariant
                i <= self.classes.len(),
                strings_view(classes@) == strings_view(self.classes@).take(i as int),
            decreases self.classes.len() - i,
        {
            let ghost c0 = strings_view(classes@);
            classes.push(self.classes[i].clone());
            assert(strings_view(classes@) =~= c0.push(self.classes@[i as int]@));
            assert(strings_view(self.classes@).take(i + 1) =~= strings_view(self.classes@).take(i as int).push(self.classes@[i as int]@));
            i = i + 1;
        }
        assert(strings_view(self.classes@).take(self.classes.len() as int) =~= strings_view(self.classes@));
        let icon = match &self.icon {
            Some(s) => Some(s.clone()),
            None => None,
        };
        Output { text: self.text.clone(), icon, classes }
    }
}

// ---------------------------------------------------------------------
// JSON output
// ---------------------------------------------------------------------

/// A field of the printed object, as far as it is read: null, a string,
/// an array (its string items, the others as `None`), or anything else
/// with its JSON text.
#[derive(Debug)]
pub enum JsonItem {
    Null,
    Str(String),
    Array(Vec<Option<String>>),
    Other(String),
}

pub enum JsonItemView {
    Null,
    Str(Seq<char>),
    Array(Seq<Option<Seq<char>>>),
    Other(Seq<char>),
}

pub open spec fn opts_view(v: Seq<Option<String>>) -> Seq<Option<Seq<char>>> {
    v.map_values(|o: Option<String>| opt_view(o))
}

impl View for JsonItem {
    type V = JsonItemView;

    open spec fn view(&self) -> JsonItemView {
        match self {
            JsonItem::Null => JsonItemView::Null,
            JsonItem::Str(s) => JsonItemView::Str(s@),
            JsonItem::Array(v) => JsonItemView::Array(opts_view(v@)),
            JsonItem::Other(t) => JsonItemView::Other(t@),
        }
    }
}

/// A printed JSON document: an object's fields, or something else.
#[derive(Debug)]
pub enum JsonDoc {
    Object(Vec<(String, JsonItem)>),
    NotObject,
}

pub enum JsonDocView {
    Object(Seq<(Seq<char>, JsonItemView)>),
    NotObject,
}

pub open spec fn fields_view(v: Seq<(String, JsonItem)>) -> Seq<(Seq<char>, JsonItemView)> {
    v.map_values(|f: (String, JsonItem)| (f.0@, f.1@))
}

impl View for JsonDoc {
    type V = JsonDocView;

    open spec fn view(&self) -> JsonDocView {
        match self {
            JsonDoc::Object(fs) => JsonDocView::Object(fields_view(fs@)),
            JsonDoc::NotObject => JsonDocView::NotObject,
        }
    }
}

/// What `serde_json` reads in a text: the document, or its error
/// message.
pub uninterp spec fn json_doc(raw: Seq<char>) -> Result<JsonDocView, Seq<char>>;

/// `serde_json::from_str::<serde_json::Value>`, with the value taken
/// apart as far as the output is read. Stated here: the outcome is a
/// function of the text.
#[verifier::external_body]
fn read_json(raw: &str) -> (r: Result<JsonDoc, String>)
    ensures
        match r {
            Ok(d) => json_doc(raw@) == Ok::<JsonDocView, Seq<char>>(d@),
            Err(e) => json_doc(raw@) == Err::<JsonDocView, Seq<char>>(e@),
        },
{
    let value: serde_json::Value = serde_json::from_str(raw).map_err(|e| e.to_string())?;
    let item = |v: serde_json::Value| match v {
        serde_json::Value::Null => JsonItem::Null,
        serde_json::Value::String(s) => JsonItem::Str(s),
        serde_json::Value::Array(a) => JsonItem::Array(a.into_iter().map(|i| match i {
            serde_json::Value::String(s) => Some(s),
            _ => None,
        }).collect()),
        other => JsonItem::Other(other.to_string()),
    };
    Ok(match value {
        serde_json::Value::Object(m) => JsonDoc::Object(m.into_iter().map(|(k, v)| (k, item(v))).collect()),
        _ => JsonDoc::NotObject,
    })
}

/// The first field named `key`.
pub open spec fn field(fs: Seq<(Seq<char>, JsonItemView)>, key: Seq<char>) -> Option<JsonItemView>
    decreases fs.len(),
{
    if fs.len() == 0 {
        None
    } else if fs[0].0 == key {
        Some(fs[0].1)
    } else {
        field(fs.drop_first(), key)
    }
}

/// A string field.
pub open spec fn string_field(fs: Seq<(Seq<char>, JsonItemView)>, key: Seq<char>) -> Option<Seq<char>> {
    match field(fs, key) {
        Some(JsonItemView::Str(s)) => Some(s),
        _ => None,
    }
}

/// The string items of an array, in order.
pub open spec fn strings_in(v: Seq<Option<Seq<char>>>) -> Seq<Seq<char>>
    decreases v.len(),
{
    if v.len() == 0 {
        seq![]
    } else {
        match v.last() {
            Some(s) => strings_in(v.drop_last()).push(s),
            None => strings_in(v.drop_last()),
        }
    }
}

/// The error for a `class` that is neither a string nor an array.
pub open spec fn class_error(text: Seq<char>) -> Seq<char> {
    "class is "@ + text + ", not a string or an array"@
}

/// The output a document gives: `text` and `icon` (an empty icon is
/// none), `class` a string of classes or an array of them.
pub open spec fn output_of(d: JsonDocView) -> Result<OutputView, Seq<char>> {
    match d {
        JsonDocView::NotObject => Err("not an object"@),
        JsonDocView::Object(fs) => {
            let classes: Result<Seq<Seq<char>>, Seq<char>> = match field(fs, "class"@) {
                None => Ok(seq![]),
                Some(JsonItemView::Null) => Ok(seq![]),
                Some(JsonItemView::Str(s)) => Ok(words(s)),
                Some(JsonItemView::Array(items)) => Ok(strings_in(items)),
                Some(JsonItemView::Other(t)) => Err(class_error(t)),
            };
            match classes {
                Err(e) => Err(e),
                Ok(cs) => Ok(OutputView {
                    text: match string_field(fs, "text"@) {
                        Some(t) => t,
                        None => seq![],
                    },
                    icon: match string_field(fs, "icon"@) {
                        Some(i) => if i.len() > 0 { Some(i) } else { None },
                        None => None,
                    },
                    classes: cs,
                }),
            }
        },
    }
}

fn find_field<'a>(fs: &'a Vec<(String, JsonItem)>, key: &str) -> (r: Option<&'a JsonItem>)
    ensures
        match r {
            Some(i) => field(fields_view(fs@), key@) == Some(i@),
            None => field(fields_view(fs@), key@) is None,
        },
{
    let ghost fv = fields_view(fs@);
    let mut i: usize = 0;
    assert(fv.skip(0) =~= fv);
    while i < fs.len()
        invariant
            i <= fs.len(),
            fv == fields_view(fs@),
            field(fv, key@) == field(fv.skip(i as int), key@),
        decreases fs.len() - i,
    {
        assert(fv.skip(i as int)[0] == (fs@[i as int].0@, fs@[i as int].1@));
        if crate::config::str_eq(fs[i].0.as_str(), key) {
            return Some(&fs[i].1);
        }
        assert(fv.skip(i as int).drop_first() =~= fv.skip(i + 1));
        i = i + 1;
    }
    None
}

fn find_string(fs: &Vec<(String, JsonItem)>, key: &str) -> (r: Option<String>)
    ensures
        opt_view(r) == string_field(fields_view(fs@), key@),
{
    match find_field(fs, key) {
        Some(JsonItem::Str(s)) => Some(s.clone()),
        _ => None,
    }
}

fn concat3(a: &str, b: &String, c: &str) -> (r: String)
    ensures
        r@ == a@ + b@ + c@,
{
    let mut v = chars_of(a);
    let bv = chars_of(b.as_str());
    let cv = chars_of(c);
    let mut i: usize = 0;
    let ghost v0 = v@;
    while i < bv.len()
        invariant
            i <= bv.len(),
            v@ == v0 + bv@.take(i as int),
        decreases bv.len() - i,
    {
        v.push(bv[i]);
        assert(bv@.take(i + 1) =~= bv@.take(i as int).push(bv@[i as int]));
        i = i + 1;
    }
    assert(bv@.take(bv.len() as int) =~= bv@);
    let ghost v1 = v@;
    let mut j: usize = 0;
    while j < cv.len()
        invariant
            j <= cv.len(),
            v@ == v1 + cv@.take(j as int),
        decreases cv.len() - j,
    {
        v.push(cv[j]);
        assert(cv@.take(j + 1) =~= cv@.take(j as int).push(cv@[j as int]));
        j = j + 1;
    }
    assert(cv@.take(cv.len() as int) =~= cv@);
    string_of(v.as_slice())
}

/// The output a JSON document gives (see [`output_of`]).
pub fn output_of_doc(doc: &JsonDoc) -> (r: Result<Output, String>)
    ensures
        match r {
            Ok(o) => output_of(doc@) == Ok::<OutputView, Seq<char>>(o@),
            Err(e) => output_of(doc@) == Err::<OutputView, Seq<char>>(e@),
        },
{
    let fs = match doc {
        JsonDoc::NotObject => return Err(crate::text::owned("not an object")),
        JsonDoc::Object(fs) => fs,
    };
    let classes: Vec<String> = match find_field(fs, "class") {
        None => Vec::new(),
        Some(JsonItem::Null) => Vec::new(),
        Some(JsonItem::Str(s)) => {
            let cs = chars_of(s.as_str());
            let ws = split_ws(cs.as_slice());
            strings_of(&ws)
        },
        Some(JsonItem::Array(items)) => {
            let mut r: Vec<String> = Vec::new();
            let mut i: usize = 0;
            assert(opts_view(items@).take(0) =~= Seq::<Option<Seq<char>>>::empty());
            assert(strings_view(r@) =~= Seq::<Seq<char>>::empty());
            while i < items.len()
                invariant
                    i <= items.len(),
                    strings_view(r@) == strings_in(opts_view(items@).take(i as int)),
                decreases items.len() - i,
            {
                assert(opts_view(items@).take(i + 1).drop_last() =~= opts_view(items@).take(i as int));
                assert(opts_view(items@).take(i + 1).last() == opt_view(items@[i as int]));
                match &items[i] {
                    Some(s) => {
                        let ghost r0 = strings_view(r@);
                        r.push(s.clone());
                        assert(strings_view(r@) =~= r0.push(s@));
                    },
                    None => {},
                }
                i = i + 1;
            }
            assert(opts_view(items@).take(items.len() as int) =~= opts_view(items@));
            r
        },
        Some(JsonItem::Other(t)) => {
            return Err(concat3("class is ", t, ", not a string or an array"));
        },
    };
    let ghost fv = fields_view(fs@);
    let ghost cls: Seq<Seq<char>> = strings_view(classes@);
    assert(match field(fv, "class"@) {
        None => cls == Seq::<Seq<char>>::empty(),
        Some(JsonItemView::Null) => cls == Seq::<Seq<char>>::empty(),
        Some(JsonItemView::Str(s)) => cls == words(s),
        Some(JsonItemView::Array(items)) => cls == strings_in(items),
        Some(JsonItemView::Other(t)) => false,
    });
    let text = match find_string(fs, "text") {
        Some(t) => t,
        None => String::new(),
    };
    let icon = match find_string(fs, "icon") {
        Some(i) => if i.as_str().is_empty() { None } else { Some(i) },
        None => None,
    };
    Ok(Output { text, icon, classes })
}

/// `text`, `class` (a string or an array of them) and `icon` of a JSON
/// object; an empty output for an empty text.
pub fn parse_json(raw: &str) -> (r: Result<Output, String>)
    ensures
        raw@.len() == 0 ==> (r matches Ok(o) && o@ == empty_output()),
        raw@.len() > 0 ==> match json_doc(raw@) {
            Err(e) => r matches Err(m) && m@ == e,
            Ok(d) => match r {
                Ok(o) => output_of(d) == Ok::<OutputView, Seq<char>>(o@),
                Err(m) => output_of(d) == Err::<OutputView, Seq<char>>(m@),
            },
        },
{
    if raw.is_empty() {
        return Ok(Output::default());
    }
    match read_json(raw) {
        Err(e) => Err(e),
        Ok(doc) => output_of_doc(&doc),
    }
}

/// What a run's standard output gives: the trimmed text, or for a JSON
/// spec the object's fields, the trimmed text when it is no such
/// object.
pub fn parse(spec: &Spec, raw: &str) -> (r: Output)
    ensures
        ({
            let t = trim(raw@);
            let text = OutputView { text: t, icon: None, classes: seq![] };
            match spec.return_type {
                ReturnType::Text => r@ == text,
                ReturnType::Json => if t.len() == 0 {
                    r@ == empty_output()
                } else {
                    match json_doc(t) {
                        Err(_) => r@ == text,
                        Ok(d) => match output_of(d) {
                            Ok(o) => r@ == o,
                            Err(_) => r@ == text,
                        },
                    }
                },
            }
        }),
{
    let cs = chars_of(raw);
    let t = trim_chars(cs.as_slice());
    let trimmed = string_of(t.as_slice());
    let text = Output { text: trimmed.clone(), icon: None, classes: Vec::new() };
    assert(strings_view(text.classes@) =~= Seq::<Seq<char>>::empty());
    match spec.return_type {
        ReturnType::Text => text,
        ReturnType::Json => match parse_json(trimmed.as_str()) {
            Ok(o) => o,
            Err(_) => text,
        },
    }
}

// ---------------------------------------------------------------------
// The outputs kept
// ---------------------------------------------------------------------

fn same_spec(a: &Spec, b: &Spec) -> (r: bool)
    ensures
        r == (a@ == b@),
{
    if a.interval != b.interval || a.return_type != b.return_type || a.argv.len() != b.argv.len() {
        assert(a.argv.len() != b.argv.len() ==> strings_view(a.argv@).len() != strings_view(b.argv@).len());
        return false;
    }
    let mut i: usize = 0;
    while i < a.argv.len()
        invariant
            i <= a.argv.len(),
            a.argv.len() == b.argv.len(),
            forall|j: int| 0 <= j < i ==> a.argv@[j]@ == b.argv@[j]@,
        decreases a.argv.len() - i,
    {
        if !crate::notifications::str_eq_string(&a.argv[i], &b.argv[i]) {
            assert(strings_view(a.argv@)[i as int] != strings_view(b.argv@)[i as int]);
            return false;
        }
        i = i + 1;
    }
    assert(strings_view(a.argv@) =~= strings_view(b.argv@));
    true
}

pub fn copy_spec(s: &Spec) -> (r: Spec)
    ensures
        r@ == s@,
{
    let mut argv: Vec<String> = Vec::new();
    let mut i: usize = 0;
    while i < s.argv.len()
        invariant
            i <= s.argv.len(),
            strings_view(argv@) == strings_view(s.argv@).take(i as int),
        decreases s.argv.len() - i,
    {
        let ghost a0 = strings_view(argv@);
        argv.push(s.argv[i].clone());
        assert(strings_view(argv@) =~= a0.push(s.argv@[i as int]@));
        assert(strings_view(s.argv@).take(i + 1) =~= strings_view(s.argv@).take(i as int).push(s.argv@[i as int]@));
        i = i + 1;
    }
    assert(strings_view(s.argv@).take(s.argv.len() as int) =~= strings_view(s.argv@));
    Spec { argv, interval: s.interval, return_type: s.return_type }
}

/// What comes back from running a spec.
pub enum Event {
    Ran(Spec, Output),
}

pub enum Command {
    /// Run the spec again now.
    Refresh(Spec),
}

/// Index of the entry for `spec`; the length when there is none.
pub open spec fn spec_index<T>(es: Seq<(SpecView, T)>, spec: SpecView) -> int
    decreases es.len(),
{
    if es.len() == 0 {
        0
    } else if es[0].0 == spec {
        0
    } else {
        spec_index(es.drop_first(), spec) + 1
    }
}

proof fn lemma_spec_index_found<T>(es: Seq<(SpecView, T)>, spec: SpecView)
    ensures
        0 <= spec_index(es, spec) <= es.len(),
        spec_index(es, spec) < es.len() ==> es[spec_index(es, spec)].0 == spec,
        forall|j: int| 0 <= j < spec_index(es, spec) ==> #[trigger] es[j].0 != spec,
    decreases es.len(),
{
    if es.len() > 0 && es[0].0 != spec {
        lemma_spec_index_found(es.drop_first(), spec);
        assert forall|j: int| 0 <= j < spec_index(es, spec) implies #[trigger] es[j].0 != spec by {
            if j > 0 {
                assert(es[j] == es.drop_first()[j - 1]);
            }
        }
    }
}

proof fn lemma_spec_index<T>(es: Seq<(SpecView, T)>, spec: SpecView, i: int)
    requires
        0 <= i <= es.len(),
        i < es.len() ==> es[i].0 == spec,
        forall|j: int| 0 <= j < i ==> #[trigger] es[j].0 != spec,
    ensures
        spec_index(es, spec) == i,
    decreases es.len(),
{
    if es.len() > 0 && i > 0 {
        assert(es[0].0 != spec);
        assert forall|j: int| 0 <= j < i - 1 implies #[trigger] es.drop_first()[j].0 != spec by {
            assert(es.drop_first()[j] == es[j + 1]);
        }
        lemma_spec_index(es.drop_first(), spec, i - 1);
    }
}

/// The outputs after `spec` ran and printed `output`: its entry
/// replaced, or added at the end.
pub open spec fn outputs_after_run(
    outs: Seq<(SpecView, OutputView)>,
    spec: SpecView,
    output: OutputView,
) -> Seq<(SpecView, OutputView)> {
    let i = spec_index(outs, spec);
    if i < outs.len() {
        outs.update(i, (spec, output))
    } else {
        outs.push((spec, output))
    }
}

/// A spec has no output before its first run; once it ran, its output
/// is what that run printed, and no other spec's output changed.
pub proof fn a_run_shows_for_its_spec_alone(
    outs: Seq<(SpecView, OutputView)>,
    spec: SpecView,
    output: OutputView,
    other: SpecView,
)
    ensures
        kept(Seq::<(SpecView, OutputView)>::empty(), spec) is None,
        kept(outputs_after_run(outs, spec, output), spec) == Some(output),
        other != spec ==> kept(outputs_after_run(outs, spec, output), other) == kept(outs, other),
{
    let w = outputs_after_run(outs, spec, output);
    lemma_spec_index_found(outs, spec);
    lemma_spec_index_found(outs, other);
    let i = spec_index(outs, spec);
    assert forall|j: int| 0 <= j < i implies #[trigger] w[j].0 != spec by {
        assert(w[j] == outs[j]);
    }
    lemma_spec_index(w, spec, i);
    if other != spec {
        let k = spec_index(outs, other);
        if k < outs.len() {
            assert(k != i);
            assert forall|j: int| 0 <= j < k implies #[trigger] w[j].0 != other by {
                if j != i {
                    assert(w[j] == outs[j]);
                }
            }
            assert(w[k] == outs[k]);
            lemma_spec_index(w, other, k);
        } else {
            assert forall|j: int| 0 <= j < w.len() implies #[trigger] w[j].0 != other by {
                if j != i {
                    assert(w[j] == outs[j]);
                }
            }
            lemma_spec_index(w, other, w.len() as int);
        }
    }
}

/// The last output of each spec, and how often each was asked to run
/// again.
pub struct Scripts {
    outputs: Vec<(Spec, Output)>,
    generations: Vec<(Spec, u64)>,
}

pub open spec fn outputs_view(v: Seq<(Spec, Output)>) -> Seq<(SpecView, OutputView)> {
    v.map_values(|e: (Spec, Output)| (e.0@, e.1@))
}

pub open spec fn gens_view(v: Seq<(Spec, u64)>) -> Seq<(SpecView, u64)> {
    v.map_values(|e: (Spec, u64)| (e.0@, e.1))
}

/// The value kept for `spec`, if any.
pub open spec fn kept<T>(es: Seq<(SpecView, T)>, spec: SpecView) -> Option<T> {
    let i = spec_index(es, spec);
    if i < es.len() {
        Some(es[i].1)
    } else {
        None
    }
}

impl Default for Scripts {
    fn default() -> (r: Scripts)
        ensures
            r.spec_outputs().len() == 0,
            r.spec_generations().len() == 0,
    {
        let r = Scripts { outputs: Vec::new(), generations: Vec::new() };
        assert(outputs_view(r.outputs@) =~= Seq::<(SpecView, OutputView)>::empty());
        assert(gens_view(r.generations@) =~= Seq::<(SpecView, u64)>::empty());
        r
    }
}

impl Scripts {
    pub closed spec fn spec_outputs(&self) -> Seq<(SpecView, OutputView)> {
        outputs_view(self.outputs@)
    }

    pub closed spec fn spec_generations(&self) -> Seq<(SpecView, u64)> {
        gens_view(self.generations@)
    }

    fn find_output(&self, spec: &Spec) -> (r: usize)
        ensures
            r == spec_index(self.spec_outputs(), spec@),
            r <= self.outputs.len(),
    {
        let ghost ov = outputs_view(self.outputs@);
        let mut i: usize = 0;
        while i < self.outputs.len() && !same_spec(&self.outputs[i].0, spec)
            invariant
                i <= self.outputs.len(),
                ov == outputs_view(self.outputs@),
                forall|j: int| 0 <= j < i ==> #[trigger] ov[j].0 != spec@,
            decreases self.outputs.len() - i,
        {
            assert(ov[i as int].0 == self.outputs@[i as int].0@);
            i = i + 1;
        }
        proof {
            if i < self.outputs.len() {
                assert(ov[i as int].0 == self.outputs@[i as int].0@);
            }
            lemma_spec_index(ov, spec@, i as int);
        }
        i
    }

    fn find_generation(&self, spec: &Spec) -> (r: usize)
        ensures
            r == spec_index(self.spec_generations(), spec@),
            r <= self.generations.len(),
    {
        let ghost gv = gens_view(self.generations@);
        let mut i: usize = 0;
        while i < self.generations.len() && !same_spec(&self.generations[i].0, spec)
            invariant
                i <= self.generations.len(),
                gv == gens_view(self.generations@),
                forall|j: int| 0 <= j < i ==> #[trigger] gv[j].0 != spec@,
            decreases self.generations.len() - i,
        {
            assert(gv[i as int].0 == self.generations@[i as int].0@);
            i = i + 1;
        }
        proof {
            if i < self.generations.len() {
                assert(gv[i as int].0 == self.generations@[i as int].0@);
            }
            lemma_spec_index(gv, spec@, i as int);
        }
        i
    }

    /// The last output of `spec`, `None` before its first run.
    pub fn output(&self, spec: &Spec) -> (r: Option<&Output>)
        ensures
            match r {
                Some(o) => kept(self.spec_outputs(), spec@) == Some(o@),
                None => kept(self.spec_outputs(), spec@) is None,
            },
    {
        let i = self.find_output(spec);
        if i < self.outputs.len() {
            Some(&self.outputs[i].1)
        } else {
            None
        }
    }

    /// How often `spec` was asked to run again.
    pub fn generation(&self, spec: &Spec) -> (r: u64)
        ensures
            r == (match kept(self.spec_generations(), spec@) {
                Some(g) => g,
                None => 0,
            }),
    {
        let i = self.find_generation(spec);
        if i < self.generations.len() {
            self.generations[i].1
        } else {
            0
        }
    }

    /// Icon names the outputs mention, for the caller to resolve.
    pub fn icon_names(&self) -> (r: Vec<String>)
        ensures
            strings_view(r@) == icons_in(self.spec_outputs()),
    {
        let ghost ov = outputs_view(self.outputs@);
        let mut r: Vec<String> = Vec::new();
        let mut i: usize = 0;
        assert(ov.take(0) =~= Seq::<(SpecView, OutputView)>::empty());
        assert(strings_view(r@) =~= Seq::<Seq<char>>::empty());
        while i < self.outputs.len()
            invariant
                i <= self.outputs.len(),
                ov == outputs_view(self.outputs@),
                strings_view(r@) == icons_in(ov.take(i as int)),
            decreases self.outputs.len() - i,
        {
            assert(ov.take(i + 1).drop_last() =~= ov.take(i as int));
            assert(ov.take(i + 1).last() == (self.outputs@[i as int].0@, self.outputs@[i as int].1@));
            match &self.outputs[i].1.icon {
                Some(n) => {
                    let ghost r0 = strings_view(r@);
                    r.push(n.clone());
                    assert(strings_view(r@) =~= r0.push(n@));
                },
                None => {},
            }
            i = i + 1;
        }
        assert(ov.take(self.outputs.len() as int) =~= ov);
        r
    }

    /// A run's output replaces the spec's last one.
    pub fn apply(&mut self, event: Event)
        ensures
            match event {
                Event::Ran(spec, output) => {
                    let i = spec_index(old(self).spec_outputs(), spec@);
                    &&& final(self).spec_generations() == old(self).spec_generations()
                    &&& final(self).spec_outputs() == outputs_after_run(old(self).spec_outputs(), spec@, output@)
                },
            },
    {
        match event {
            Event::Ran(spec, output) => {
                let i = self.find_output(&spec);
                let ghost ov = outputs_view(self.outputs@);
                let ghost e = (spec@, output@);
                if i < self.outputs.len() {
                    self.outputs.set(i, (spec, output));
                    assert(outputs_view(self.outputs@) =~= ov.update(i as int, e));
                } else {
                    self.outputs.push((spec, output));
                    assert(outputs_view(self.outputs@) =~= ov.push(e));
                }
            },
        }
    }

    /// `Refresh` bumps the spec's generation, so its runner starts
    /// again.
    pub fn run(&mut self, command: Command)
        requires
            match command {
                Command::Refresh(spec) => match kept(old(self).spec_generations(), spec@) {
                    Some(g) => g < u64::MAX,
                    None => true,
                },
            },
        ensures
            match command {
                Command::Refresh(spec) => {
                    let i = spec_index(old(self).spec_generations(), spec@);
                    &&& final(self).spec_outputs() == old(self).spec_outputs()
                    &&& final(self).spec_generations() == (if i < old(self).spec_generations().len() {
                        old(self).spec_generations().update(i, (spec@, (old(self).spec_generations()[i].1 + 1) as u64))
                    } else {
                        old(self).spec_generations().push((spec@, 1u64))
                    })
                    &&& kept(final(self).spec_generations(), spec@) == Some(
                        (match kept(old(self).spec_generations(), spec@) {
                            Some(g) => g + 1,
                            None => 1,
                        }) as u64,
                    )
                },
            },
    {
        match command {
            Command::Refresh(spec) => {
                let i = self.find_generation(&spec);
                let ghost gv = gens_view(self.generations@);
                let ghost sv = spec@;
                proof { lemma_spec_index_found(gv, sv); }
                if i < self.generations.len() {
                    let g = self.generations[i].1;
                    self.generations.set(i, (spec, g + 1));
                    assert(gens_view(self.generations@) =~= gv.update(i as int, (sv, (g + 1) as u64)));
                    proof {
                        assert forall|j: int| 0 <= j < i implies #[trigger] gens_view(self.generations@)[j].0 != sv by {
                            assert(gens_view(self.generations@)[j] == gv[j]);
                        }
                        lemma_spec_index(gens_view(self.generations@), sv, i as int);
                    }
                } else {
                    self.generations.push((spec, 1));
                    assert(gens_view(self.generations@) =~= gv.push((sv, 1u64)));
                    proof {
                        assert forall|j: int| 0 <= j < i implies #[trigger] gens_view(self.generations@)[j].0 != sv by {
                            assert(gens_view(self.generations@)[j] == gv[j]);
                        }
                        lemma_spec_index(gens_view(self.generations@), sv, i as int);
                    }
                }
            },
        }
    }

    /// One runner per distinct spec among `specs` (what the panels'
    /// gadgets ask for now), in first-asked order, with its generation.
    pub fn runners(&self, specs: &Vec<Spec>) -> (r: Vec<(Spec, u64)>)
        ensures
            gens_view(r@) == runners_of(strings_specs(specs@), self.spec_generations()),
    {
        let ghost sv = strings_specs(specs@);
        let mut r: Vec<(Spec, u64)> = Vec::new();
        let mut i: usize = 0;
        assert(sv.take(0) =~= Seq::<SpecView>::empty());
        assert(gens_view(r@) =~= Seq::<(SpecView, u64)>::empty());
        while i < specs.len()
            invariant
                i <= specs.len(),
                sv == strings_specs(specs@),
                gens_view(r@) == runners_of(sv.take(i as int), self.spec_generations()),
            decreases specs.len() - i,
        {
            assert(sv.take(i + 1).drop_last() =~= sv.take(i as int));
            assert(sv.take(i + 1).last() == specs@[i as int]@);
            let ghost before = gens_view(r@);
            let mut k: usize = 0;
            let mut seen = false;
            while k < r.len() && !seen
                invariant
                    k <= r.len(),
                    i < specs.len(),
                    before == gens_view(r@),
                    seen ==> (exists|j: int| 0 <= j < before.len() && #[trigger] before[j].0 == specs@[i as int]@),
                    !seen ==> forall|j: int| 0 <= j < k ==> #[trigger] before[j].0 != specs@[i as int]@,
                decreases r.len() - k + (if seen { 0int } else { 1int }),
            {
                assert(before[k as int] == (r@[k as int].0@, r@[k as int].1));
                if same_spec(&r[k].0, &specs[i]) {
                    assert(before[k as int].0 == specs@[i as int]@);
                    seen = true;
                } else {
                    k = k + 1;
                }
            }
            proof {
                lemma_spec_in(before, specs@[i as int]@);
            }
            if !seen {
                let g = self.generation(&specs[i]);
                let s = copy_spec(&specs[i]);
                r.push((s, g));
                assert(gens_view(r@) =~= before.push((specs@[i as int]@, g)));
            }
            i = i + 1;
        }
        assert(sv.take(specs.len() as int) =~= sv);
        r
    }
}

pub open spec fn strings_specs(v: Seq<Spec>) -> Seq<SpecView> {
    v.map_values(|s: Spec| s@)
}

/// Whether some entry is for `spec`.
pub open spec fn has_spec(es: Seq<(SpecView, u64)>, spec: SpecView) -> bool {
    exists|j: int| 0 <= j < es.len() && #[trigger] es[j].0 == spec
}

proof fn lemma_spec_in(es: Seq<(SpecView, u64)>, spec: SpecView)
    ensures
        has_spec(es, spec) == (spec_index(es, spec) < es.len()),
        spec_index(es, spec) <= es.len(),
    decreases es.len(),
{
    if es.len() > 0 {
        lemma_spec_in(es.drop_first(), spec);
        if es[0].0 != spec {
            if has_spec(es, spec) {
                let j = choose|j: int| 0 <= j < es.len() && #[trigger] es[j].0 == spec;
                assert(j > 0);
                assert(es.drop_first()[j - 1].0 == spec);
            }
            if has_spec(es.drop_first(), spec) {
                let j = choose|j: int| 0 <= j < es.drop_first().len() && #[trigger] es.drop_first()[j].0 == spec;
                assert(es[j + 1].0 == spec);
            }
        }
    }
}

/// The distinct specs of a list, first-asked order, each with its
/// generation.
pub open spec fn runners_of(specs: Seq<SpecView>, gens: Seq<(SpecView, u64)>) -> Seq<(SpecView, u64)>
    decreases specs.len(),
{
    if specs.len() == 0 {
        seq![]
    } else {
        let r = runners_of(specs.drop_last(), gens);
        if has_spec(r, specs.last()) {
            r
        } else {
            r.push((
                specs.last(),
                match kept(gens, specs.last()) {
                    Some(g) => g,
                    None => 0,
                },
            ))
        }
    }
}

/// The icon names of the outputs kept, in order.
pub open spec fn icons_in(os: Seq<(SpecView, OutputView)>) -> Seq<Seq<char>>
    decreases os.len(),
{
    if os.len() == 0 {
        seq![]
    } else {
        match os.last().1.icon {
            Some(n) => icons_in(os.drop_last()).push(n),
            None => icons_in(os.drop_last()),
        }
    }
}

} // verus!
