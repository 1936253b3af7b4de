//! The system monitor's configuration and data model: the
//! `[SystemMonitor]` section, the process table's columns, the values a
//! gadget shows, and the raw readings of `/proc` (see
//! [`crate::procfs`]). Sampling on a timer, the rates and percentages
//! (floating point) and signalling processes are the caller's.
use vstd::prelude::*;

use crate::config::{str_eq, strings_view, strs_view, RawSection, Section};
use crate::notifications::usize_of;
use crate::locale::{to_lowercase, unicode_lower};
use crate::text::{chars_lt, chars_of, eq_chars, lemma_seq_lt_irreflexive, lemma_seq_lt_total, lemma_seq_lt_transitive, parse_u64, seq_lt, words};

verus! {

/// A column of the process table.
#[derive(Debug, Clone, Copy, PartialEq, Eq, Structural, Hash)]
pub enum Column {
    Name,
    Pid,
    User,
    Cpu,
    Mem,
}

pub open spec fn column_named(s: Seq<char>) -> Option<Column> {
    if s == "name"@ {
        Some(Column::Name)
    } else if s == "pid"@ {
        Some(Column::Pid)
    } else if s == "user"@ {
        Some(Column::User)
    } else if s == "cpu"@ {
        Some(Column::Cpu)
    } else if s == "mem"@ {
        Some(Column::Mem)
    } else {
        None
    }
}

/// The word a column is written as.
pub open spec fn column_name(c: Column) -> Seq<char> {
    match c {
        Column::Name => "name"@,
        Column::Pid => "pid"@,
        Column::User => "user"@,
        Column::Cpu => "cpu"@,
        Column::Mem => "mem"@,
    }
}

/// A column's name reads back as that column.
pub proof fn column_name_round_trip(c: Column)
    ensures
        column_named(column_name(c)) == Some(c),
{
    reveal_strlit("name");
    assert("name"@[0] == 'n');
    reveal_strlit("pid");
    assert("pid"@[0] == 'p');
    reveal_strlit("user");
    assert("user"@[0] == 'u');
    reveal_strlit("cpu");
    assert("cpu"@[0] == 'c');
    reveal_strlit("mem");
    assert("mem"@[0] == 'm');
}

impl Column {
    /// Every column, in table order.
    pub const ALL: [Column; 5] = [Column::Name, Column::Pid, Column::User, Column::Cpu, Column::Mem];

    pub fn parse(s: &str) -> (r: Option<Column>)
        ensures
            r == column_named(s@),
    {
        if str_eq(s, "name") {
            Some(Column::Name)
        } else if str_eq(s, "pid") {
            Some(Column::Pid)
        } else if str_eq(s, "user") {
            Some(Column::User)
        } else if str_eq(s, "cpu") {
            Some(Column::Cpu)
        } else if str_eq(s, "mem") {
            Some(Column::Mem)
        } else {
            None
        }
    }

    /// The key `sort` takes for this column.
    pub fn name(self) -> (r: &'static str)
        ensures
            r@ == column_name(self),
    {
        match self {
            Column::Name => "name",
            Column::Pid => "pid",
            Column::User => "user",
            Column::Cpu => "cpu",
            Column::Mem => "mem",
        }
    }

    /// The column's header.
    pub fn label(self) -> (r: &'static str)
        ensures
            r@ == (match self {
                Column::Name => "Name"@,
                Column::Pid => "PID"@,
                Column::User => "User"@,
                Column::Cpu => "CPU%"@,
                Column::Mem => "Memory"@,
            }),
    {
        match self {
            Column::Name => "Name",
            Column::Pid => "PID",
            Column::User => "User",
            Column::Cpu => "CPU%",
            Column::Mem => "Memory",
        }
    }

    /// Numbers sort largest first, names smallest first.
    pub fn descending_by_default(self) -> (r: bool)
        ensures
            r == (self == Column::Cpu || self == Column::Mem || self == Column::Pid),
    {
        match self {
            Column::Cpu | Column::Mem | Column::Pid => true,
            _ => false,
        }
    }
}

/// What a gadget instance shows on the bar.
#[derive(Debug, Clone, Copy, PartialEq, Eq, Structural)]
pub enum Value {
    Cpu,
    Mem,
    Swap,
    Disk,
    Net,
    Gpu,
    Temp,
    Load,
}

pub open spec fn value_named(s: Seq<char>) -> Option<Value> {
    if s == "cpu"@ {
        Some(Value::Cpu)
    } else if s == "mem"@ {
        Some(Value::Mem)
    } else if s == "swap"@ {
        Some(Value::Swap)
    } else if s == "disk"@ {
        Some(Value::Disk)
    } else if s == "net"@ {
        Some(Value::Net)
    } else if s == "gpu"@ {
        Some(Value::Gpu)
    } else if s == "temp"@ {
        Some(Value::Temp)
    } else if s == "load"@ {
        Some(Value::Load)
    } else {
        None
    }
}

/// The word a value is written as.
pub open spec fn value_name(v: Value) -> Seq<char> {
    match v {
        Value::Cpu => "cpu"@,
        Value::Mem => "mem"@,
        Value::Swap => "swap"@,
        Value::Disk => "disk"@,
        Value::Net => "net"@,
        Value::Gpu => "gpu"@,
        Value::Temp => "temp"@,
        Value::Load => "load"@,
    }
}

/// A value's name reads back as that value.
pub proof fn value_name_round_trip(v: Value)
    ensures
        value_named(value_name(v)) == Some(v),
{
    reveal_strlit("cpu");
    assert("cpu"@[0] == 'c');
    reveal_strlit("mem");
    assert("mem"@[0] == 'm');
    reveal_strlit("swap");
    assert("swap"@[0] == 's');
    reveal_strlit("disk");
    assert("disk"@[0] == 'd');
    reveal_strlit("net");
    assert("net"@[0] == 'n');
    reveal_strlit("gpu");
    assert("gpu"@[0] == 'g');
    reveal_strlit("temp");
    assert("temp"@[0] == 't');
    reveal_strlit("load");
    assert("load"@[0] == 'l');
}

impl Value {
    pub fn parse(s: &str) -> (r: Option<Value>)
        ensures
            r == value_named(s@),
    {
        if str_eq(s, "cpu") {
            Some(Value::Cpu)
        } else if str_eq(s, "mem") {
            Some(Value::Mem)
        } else if str_eq(s, "swap") {
            Some(Value::Swap)
        } else if str_eq(s, "disk") {
            Some(Value::Disk)
        } else if str_eq(s, "net") {
            Some(Value::Net)
        } else if str_eq(s, "gpu") {
            Some(Value::Gpu)
        } else if str_eq(s, "temp") {
            Some(Value::Temp)
        } else if str_eq(s, "load") {
            Some(Value::Load)
        } else {
            None
        }
    }

    /// The class the bar button carries, which is also the word `show`
    /// takes.
    pub fn name(self) -> (r: &'static str)
        ensures
            r@ == value_name(self),
    {
        match self {
            Value::Cpu => "cpu",
            Value::Mem => "mem",
            Value::Swap => "swap",
            Value::Disk => "disk",
            Value::Net => "net",
            Value::Gpu => "gpu",
            Value::Temp => "temp",
            Value::Load => "load",
        }
    }

    /// The `format` when the config doesn't set one.
    pub fn default_format(self) -> (r: &'static str)
        ensures
            r@ == (match self {
                Value::Cpu => "{cpu}%"@,
                Value::Mem => "{mem}%"@,
                Value::Swap => "{swap}%"@,
                Value::Disk => "{read} {write}"@,
                Value::Net => "{rx} {tx}"@,
                Value::Gpu => "{gpu}%"@,
                Value::Temp => "{temp}°"@,
                Value::Load => "{load1}"@,
            }),
    {
        match self {
            Value::Cpu => "{cpu}%",
            Value::Mem => "{mem}%",
            Value::Swap => "{swap}%",
            Value::Disk => "{read} {write}",
            Value::Net => "{rx} {tx}",
            Value::Gpu => "{gpu}%",
            Value::Temp => "{temp}°",
            Value::Load => "{load1}",
        }
    }
}

/// The `[SystemMonitor]` section: the sampler's keys and the popup's.
#[derive(Debug, Clone, PartialEq, Eq)]
pub struct MonitorConfig {
    /// Seconds between samples.
    pub interval: u64,
    /// Samples kept per series.
    pub history: usize,
    /// Mount points to show; empty: every real filesystem.
    pub disks: Vec<String>,
    /// Interfaces to show; empty: all but `lo`.
    pub interfaces: Vec<String>,
    /// The hwmon `name` for the cpu temperature; empty: the usual cpu
    /// drivers.
    pub temperature: String,
    /// Rows of the popup's process table.
    pub processes: usize,
    /// Its initial sort.
    pub sort: Column,
}

/// A number key of the section, `default` when missing or not one.
pub open spec fn number_or(raw: RawSection, key: Seq<char>, default: u64) -> u64 {
    match raw.value(key) {
        None => default,
        Some(v) => match parse_u64(v) {
            Some(n) => n,
            None => default,
        },
    }
}

pub open spec fn list_of(raw: RawSection, key: Seq<char>) -> Seq<Seq<char>> {
    match raw.value(key) {
        Some(v) => words(v),
        None => seq![],
    }
}

impl MonitorConfig {
    /// The section's keys with their defaults: a sample every 2 s (at
    /// least 1), 60 kept (at least 2), every disk and interface, 10
    /// processes sorted by cpu; an unknown `sort` is the cpu too.
    pub fn from_section(raw: &RawSection) -> (r: MonitorConfig)
        ensures
            r.interval == (if number_or(*raw, "interval"@, 2) < 1 { 1 } else { number_or(*raw, "interval"@, 2) }),
            r.history == (if (number_or(*raw, "history"@, 60) as usize) < 2 { 2 } else { number_or(*raw, "history"@, 60) as usize }),
            strings_view(r.disks@) == list_of(*raw, "disks"@),
            strings_view(r.interfaces@) == list_of(*raw, "interfaces"@),
            r.temperature@ == (match raw.value("temperature"@) {
                Some(v) => v,
                None => ""@,
            }),
            r.processes == number_or(*raw, "processes"@, 10) as usize,
            r.sort == (match raw.value("sort"@) {
                None => Column::Cpu,
                Some(s) => match column_named(s) {
                    Some(c) => c,
                    None => Column::Cpu,
                },
            }),
    {
        let sort = match raw.get("sort") {
            None => Column::Cpu,
            Some(s) => match Column::parse(s) {
                Some(c) => c,
                None => Column::Cpu,
            },
        };
        let interval = raw.u64_or("interval", 2);
        let history = usize_of(raw.u64_or("history", 60));
        let empty: [&str; 0] = [];
        let disks = raw.list_or("disks", &empty);
        let interfaces = raw.list_or("interfaces", &empty);
        assert(strs_view(empty@) =~= Seq::<Seq<char>>::empty());
        MonitorConfig {
            interval: if interval < 1 { 1 } else { interval },
            history: if history < 2 { 2 } else { history },
            disks,
            interfaces,
            temperature: raw.str_or("temperature", ""),
            processes: usize_of(raw.u64_or("processes", 10)),
            sort,
        }
    }
}

impl Section for MonitorConfig {
    open spec fn read_from(raw: &RawSection, r: MonitorConfig) -> bool {
        &&& (r.interval == (if number_or(*raw, "interval"@, 2) < 1 { 1 } else { number_or(*raw, "interval"@, 2) }))
        &&& (r.history == (if (number_or(*raw, "history"@, 60) as usize) < 2 { 2 } else { number_or(*raw, "history"@, 60) as usize }))
        &&& (strings_view(r.disks@) == list_of(*raw, "disks"@))
        &&& (strings_view(r.interfaces@) == list_of(*raw, "interfaces"@))
        &&& (r.temperature@ == (match raw.value("temperature"@) {
            Some(v) => v,
            None => ""@,
        }))
        &&& (r.processes == number_or(*raw, "processes"@, 10) as usize)
        &&& (r.sort == (match raw.value("sort"@) {
            None => Column::Cpu,
            Some(s) => match column_named(s) {
                Some(c) => c,
                None => Column::Cpu,
            },
        }))
    }

    fn section_name() -> &'static str {
        "SystemMonitor"
    }

    fn from_raw(raw: &RawSection) -> (r: MonitorConfig) {
        MonitorConfig::from_section(raw)
    }
}

/// Memory and swap, in bytes.
#[derive(Debug, Clone, Copy, PartialEq, Eq, Structural, Default)]
pub struct Mem {
    pub total: u64,
    pub used: u64,
    pub available: u64,
    pub cached: u64,
    pub swap_total: u64,
    pub swap_used: u64,
}

/// The jiffies of one cpu line of `/proc/stat`: total and idle.
#[derive(Debug, Clone, Copy, PartialEq, Eq, Structural, Default)]
pub struct CpuTimes {
    pub total: u64,
    pub idle: u64,
}

/// A process as read from `/proc`, before the cpu percentage.
#[derive(Debug, Clone)]
pub struct RawProcess {
    pub pid: u32,
    pub name: String,
    pub state: char,
    /// User + system jiffies so far.
    pub ticks: u64,
    pub rss: u64,
    pub uid: u32,
}

/// How to stop a process.
#[derive(Debug, Clone, Copy, PartialEq, Eq, Structural)]
pub enum Signal {
    Terminate,
    Kill,
}

/// Whether a process may be signalled: never the kernel's pid 0 or
/// init.
pub fn may_signal(pid: u32) -> (r: bool)
    ensures
        r == (pid > 1),
{
    pid > 1
}

// ---------------------------------------------------------------------
// The process table's order

/// A row of the process table, as far as its order reads it.
#[derive(Debug, Clone)]
pub struct ProcessRow {
    pub pid: u32,
    pub name: String,
    pub user: String,
    /// Orders the rows as their CPU share does (the caller maps the
    /// share to an integer in the same order).
    pub cpu_key: u64,
    /// Resident memory, in bytes.
    pub rss: u64,
}

pub struct ProcessRowView {
    pub pid: u32,
    pub name: Seq<char>,
    pub user: Seq<char>,
    pub cpu_key: u64,
    pub rss: u64,
}

impl View for ProcessRow {
    type V = ProcessRowView;

    open spec fn view(&self) -> ProcessRowView {
        ProcessRowView { pid: self.pid, name: self.name@, user: self.user@, cpu_key: self.cpu_key, rss: self.rss }
    }
}

pub open spec fn rows_view(rows: Seq<ProcessRow>) -> Seq<ProcessRowView> {
    rows.map_values(|r: ProcessRow| r@)
}

/// Row `a`'s key is below row `b`'s in column `by`: names lowercased,
/// then in `str` order; users in `str` order; numbers as numbers.
pub open spec fn key_lt(a: ProcessRowView, b: ProcessRowView, by: Column) -> bool {
    match by {
        Column::Name => seq_lt(unicode_lower(a.name), unicode_lower(b.name)),
        Column::Pid => a.pid < b.pid,
        Column::User => seq_lt(a.user, b.user),
        Column::Cpu => a.cpu_key < b.cpu_key,
        Column::Mem => a.rss < b.rss,
    }
}

pub open spec fn key_eq(a: ProcessRowView, b: ProcessRowView, by: Column) -> bool {
    match by {
        Column::Name => unicode_lower(a.name) == unicode_lower(b.name),
        Column::Pid => a.pid == b.pid,
        Column::User => a.user == b.user,
        Column::Cpu => a.cpu_key == b.cpu_key,
        Column::Mem => a.rss == b.rss,
    }
}

/// Row `a` shows before row `b` sorted by `by`, largest first when
/// `desc`: by its key, and rows with equal keys in the order they came.
pub open spec fn shows_before(rows: Seq<ProcessRowView>, by: Column, desc: bool, a: int, b: int) -> bool {
    (if desc {
        key_lt(rows[b], rows[a], by)
    } else {
        key_lt(rows[a], rows[b], by)
    }) || (key_eq(rows[a], rows[b], by) && a < b)
}

proof fn lemma_keys_total(x: ProcessRowView, y: ProcessRowView, by: Column)
    ensures
        key_lt(x, y, by) || key_lt(y, x, by) || key_eq(x, y, by),
        !(key_lt(x, y, by) && key_lt(y, x, by)),
        key_eq(x, y, by) ==> !key_lt(x, y, by) && !key_lt(y, x, by),
        key_eq(x, y, by) == key_eq(y, x, by),
{
    lemma_seq_lt_total(unicode_lower(x.name), unicode_lower(y.name));
    lemma_seq_lt_total(x.user, y.user);
    lemma_seq_lt_irreflexive(unicode_lower(x.name));
    lemma_seq_lt_irreflexive(x.user);
}

proof fn lemma_keys_transitive(x: ProcessRowView, y: ProcessRowView, z: ProcessRowView, by: Column)
    ensures
        key_lt(x, y, by) && key_lt(y, z, by) ==> key_lt(x, z, by),
        key_lt(x, y, by) && key_eq(y, z, by) ==> key_lt(x, z, by),
        key_eq(x, y, by) && key_lt(y, z, by) ==> key_lt(x, z, by),
        key_eq(x, y, by) && key_eq(y, z, by) ==> key_eq(x, z, by),
{
    if key_lt(x, y, by) && key_lt(y, z, by) {
        if by == Column::Name {
            lemma_seq_lt_transitive(unicode_lower(x.name), unicode_lower(y.name), unicode_lower(z.name));
        } else if by == Column::User {
            lemma_seq_lt_transitive(x.user, y.user, z.user);
        }
    }
}

proof fn lemma_shows_total(rows: Seq<ProcessRowView>, by: Column, desc: bool, a: int, b: int)
    requires
        a != b,
    ensures
        shows_before(rows, by, desc, a, b) || shows_before(rows, by, desc, b, a),
        !(shows_before(rows, by, desc, a, b) && shows_before(rows, by, desc, b, a)),
{
    lemma_keys_total(rows[a], rows[b], by);
    lemma_keys_total(rows[b], rows[a], by);
}

proof fn lemma_shows_transitive(rows: Seq<ProcessRowView>, by: Column, desc: bool, a: int, b: int, c: int)
    requires
        shows_before(rows, by, desc, a, b),
        shows_before(rows, by, desc, b, c),
    ensures
        shows_before(rows, by, desc, a, c),
{
    lemma_keys_total(rows[a], rows[b], by);
    lemma_keys_total(rows[b], rows[c], by);
    lemma_keys_total(rows[a], rows[c], by);
    lemma_keys_transitive(rows[a], rows[b], rows[c], by);
    lemma_keys_transitive(rows[c], rows[b], rows[a], by);
}

/// `r` is the first `limit` rows of the table sorted by `by`: each row
/// at most once, in order, and no row left out shows before one listed.
pub open spec fn table_order(r: Seq<usize>, rows: Seq<ProcessRowView>, by: Column, desc: bool, limit: nat) -> bool {
    &&& r.len() == (if rows.len() < limit { rows.len() } else { limit })
    &&& forall|k: int| 0 <= k < r.len() ==> (#[trigger] r[k]) < rows.len()
    &&& forall|k: int, l: int| 0 <= k < l < r.len() ==> shows_before(rows, by, desc, #[trigger] r[k] as int, #[trigger] r[l] as int)
    &&& forall|i: int, k: int|
        0 <= i < rows.len() && !r.contains(i as usize) && 0 <= k < r.len() ==> #[trigger] shows_before(
            rows,
            by,
            desc,
            r[k] as int,
            i,
        )
}

/// The keys of the rows the order compares, computed once.
struct Keys {
    names: Vec<Vec<char>>,
    users: Vec<Vec<char>>,
}

fn shows_first(rows: &[ProcessRow], keys: &Keys, by: Column, desc: bool, a: usize, b: usize) -> (r: bool)
    requires
        a < rows@.len(),
        b < rows@.len(),
        keys.names@.len() == rows@.len(),
        keys.users@.len() == rows@.len(),
        forall|j: int| 0 <= j < rows@.len() ==> #[trigger] keys.names@[j]@ == unicode_lower(rows@[j].name@),
        forall|j: int| 0 <= j < rows@.len() ==> #[trigger] keys.users@[j]@ == rows@[j].user@,
    ensures
        r == shows_before(rows_view(rows@), by, desc, a as int, b as int),
{
    let ghost rv = rows_view(rows@);
    assert(rv[a as int] == rows@[a as int]@);
    assert(rv[b as int] == rows@[b as int]@);
    assert(keys.names@[a as int]@ == unicode_lower(rows@[a as int].name@));
    assert(keys.names@[b as int]@ == unicode_lower(rows@[b as int].name@));
    assert(keys.users@[a as int]@ == rows@[a as int].user@);
    assert(keys.users@[b as int]@ == rows@[b as int].user@);
    let (x, y) = if desc { (b, a) } else { (a, b) };
    let lt = match by {
        Column::Name => chars_lt(keys.names[x].as_slice(), keys.names[y].as_slice()),
        Column::Pid => rows[x].pid < rows[y].pid,
        Column::User => chars_lt(keys.users[x].as_slice(), keys.users[y].as_slice()),
        Column::Cpu => rows[x].cpu_key < rows[y].cpu_key,
        Column::Mem => rows[x].rss < rows[y].rss,
    };
    if lt {
        return true;
    }
    let eq = match by {
        Column::Name => eq_chars(keys.names[a].as_slice(), keys.names[b].as_slice()),
        Column::Pid => rows[a].pid == rows[b].pid,
        Column::User => eq_chars(keys.users[a].as_slice(), keys.users[b].as_slice()),
        Column::Cpu => rows[a].cpu_key == rows[b].cpu_key,
        Column::Mem => rows[a].rss == rows[b].rss,
    };
    eq && a < b
}

/// The rows of the process table to show, as indices into `rows`: the
/// first `limit`, sorted by column `by` (largest first when `desc`),
/// rows with equal keys in the order they came.
pub fn process_order(rows: &[ProcessRow], by: Column, desc: bool, limit: usize) -> (r: Vec<usize>)
    ensures
        table_order(r@, rows_view(rows@), by, desc, limit as nat),
{
    let ghost rv = rows_view(rows@);
    let mut keys = Keys { names: Vec::new(), users: Vec::new() };
    let mut r: Vec<usize> = Vec::new();
    let mut i: usize = 0;
    while i < rows.len()
        invariant
            i <= rows@.len(),
            rv == rows_view(rows@),
            keys.names@.len() == i,
            keys.users@.len() == i,
            forall|j: int| 0 <= j < i ==> #[trigger] keys.names@[j]@ == unicode_lower(rows@[j].name@),
            forall|j: int| 0 <= j < i ==> #[trigger] keys.users@[j]@ == rows@[j].user@,
        decreases rows@.len() - i,
    {
        let l = to_lowercase(rows[i].name.as_str());
        keys.names.push(chars_of(l.as_str()));
        keys.users.push(chars_of(rows[i].user.as_str()));
        assert(keys.names@[i as int]@ == unicode_lower(rows@[i as int].name@));
        i += 1;
    }
    let mut i: usize = 0;
    while i < rows.len()
        invariant
            i <= rows@.len(),
            rv == rows_view(rows@),
            rv.len() == rows@.len(),
            keys.names@.len() == rows@.len(),
            keys.users@.len() == rows@.len(),
            forall|j: int| 0 <= j < rows@.len() ==> #[trigger] keys.names@[j]@ == unicode_lower(rows@[j].name@),
            forall|j: int| 0 <= j < rows@.len() ==> #[trigger] keys.users@[j]@ == rows@[j].user@,
            r@.len() == i,
            forall|k: int| 0 <= k < r@.len() ==> (#[trigger] r@[k]) < i,
            forall|j: int| 0 <= j < i ==> #[trigger] r@.contains(j as usize),
            forall|k: int, l: int| 0 <= k < l < r@.len() ==> shows_before(rv, by, desc, #[trigger] r@[k] as int, #[trigger] r@[l] as int),
        decreases rows@.len() - i,
    {
        // the first listed row that `i` shows before
        let mut p: usize = 0;
        let mut found = false;
        while p < r.len() && !found
            invariant
                p <= r.len(),
                i < rows@.len(),
                rv == rows_view(rows@),
                keys.names@.len() == rows@.len(),
                keys.users@.len() == rows@.len(),
                forall|j: int| 0 <= j < rows@.len() ==> #[trigger] keys.names@[j]@ == unicode_lower(rows@[j].name@),
                forall|j: int| 0 <= j < rows@.len() ==> #[trigger] keys.users@[j]@ == rows@[j].user@,
                forall|k: int| 0 <= k < r@.len() ==> (#[trigger] r@[k]) < i,
                found ==> p < r.len() && shows_before(rv, by, desc, i as int, r@[p as int] as int),
                forall|k: int| 0 <= k < p ==> !shows_before(rv, by, desc, i as int, #[trigger] r@[k] as int),
            decreases r.len() - p + (if found { 0int } else { 1int }),
        {
            let b = r[p];
            if shows_first(rows, &keys, by, desc, i, b) {
                found = true;
            } else {
                p = p + 1;
            }
        }
        let ghost r0 = r@;
        proof {
            assert forall|k: int| 0 <= k < p implies shows_before(rv, by, desc, #[trigger] r0[k] as int, i as int) by {
                lemma_shows_total(rv, by, desc, r0[k] as int, i as int);
            }
            assert forall|k: int| p <= k < r0.len() implies shows_before(rv, by, desc, i as int, #[trigger] r0[k] as int) by {
                if k > p {
                    lemma_shows_transitive(rv, by, desc, i as int, r0[p as int] as int, r0[k] as int);
                }
            }
        }
        r.insert(p, i);
        proof {
            assert forall|k: int, l: int| 0 <= k < l < r@.len() implies shows_before(rv, by, desc, #[trigger] r@[k] as int, #[trigger] r@[l] as int) by {
                if l < p {
                    assert(r@[k] == r0[k] && r@[l] == r0[l]);
                } else if l == p {
                    assert(r@[k] == r0[k]);
                } else if k < p {
                    assert(r@[k] == r0[k] && r@[l] == r0[l - 1]);
                    lemma_shows_transitive(rv, by, desc, r0[k] as int, i as int, r0[l - 1] as int);
                } else if k == p {
                    assert(r@[l] == r0[l - 1]);
                } else {
                    assert(r@[k] == r0[k - 1] && r@[l] == r0[l - 1]);
                }
            }
            assert forall|k: int| 0 <= k < r@.len() implies (#[trigger] r@[k]) < i + 1 by {
                if k < p {
                    assert(r@[k] == r0[k]);
                } else if k > p {
                    assert(r@[k] == r0[k - 1]);
                }
            }
            assert forall|j: int| 0 <= j < i + 1 implies #[trigger] r@.contains(j as usize) by {
                if j < i {
                    assert(r0.contains(j as usize));
                    let w = choose|w: int| 0 <= w < r0.len() && r0[w] == j as usize;
                    if w < p {
                        assert(r@[w] == r0[w]);
                    } else {
                        assert(r@[w + 1] == r0[w]);
                    }
                } else {
                    assert(r@[p as int] == i);
                }
            }
        }
        i += 1;
    }
    let ghost full = r@;
    if limit < r.len() {
        r.truncate(limit);
    }
    proof {
        assert(r@ =~= full.take(r@.len() as int));
        assert forall|x: int, k: int|
            0 <= x < rv.len() && !r@.contains(x as usize) && 0 <= k < r@.len() implies #[trigger] shows_before(
            rv,
            by,
            desc,
            r@[k] as int,
            x,
        ) by {
            assert(full.contains(x as usize));
            let w = choose|w: int| 0 <= w < full.len() && full[w] == x as usize;
            if w < r@.len() {
                assert(r@[w] == full[w]);
                assert(r@.contains(x as usize));
            }
            assert(r@[k] == full[k]);
        }
    }
    r
}

} // verus!
