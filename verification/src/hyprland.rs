//! Hyprland backend: what its replies and event lines mean for the
//! desktop. The two sockets, the JSON decoding of the replies and the
//! requests themselves are the caller's; these functions turn what came
//! back into [`Event`]s and say what to fetch again.
use vstd::prelude::*;

use crate::compositor::{win_view, ws_view, Event, Window, WindowView, Workspace, WorkspaceView};
use crate::text::{
    chars_of, decimal, decimal_of, first_index, push_chars, push_str, split_char, split_on, split_once,
    split_once_char, starts_with, string_of,
};

verus! {

/// A workspace as `j/workspaces` lists it.
#[derive(Debug)]
pub struct HyprWorkspace {
    pub id: i64,
    pub name: String,
    pub monitor: String,
}

pub struct HyprWorkspaceView {
    pub id: i64,
    pub name: Seq<char>,
    pub monitor: Seq<char>,
}

impl View for HyprWorkspace {
    type V = HyprWorkspaceView;

    open spec fn view(&self) -> HyprWorkspaceView {
        HyprWorkspaceView { id: self.id, name: self.name@, monitor: self.monitor@ }
    }
}

/// A client (window) as `j/clients` lists it.
#[derive(Debug)]
pub struct HyprClient {
    pub address: String,
    pub mapped: bool,
    pub class: String,
    pub title: String,
    /// The id of its workspace.
    pub workspace: i64,
}

pub struct HyprClientView {
    pub address: Seq<char>,
    pub mapped: bool,
    pub class: Seq<char>,
    pub title: Seq<char>,
    pub workspace: i64,
}

impl View for HyprClient {
    type V = HyprClientView;

    open spec fn view(&self) -> HyprClientView {
        HyprClientView {
            address: self.address@,
            mapped: self.mapped,
            class: self.class@,
            title: self.title@,
            workspace: self.workspace,
        }
    }
}

pub open spec fn hws_view(v: Seq<HyprWorkspace>) -> Seq<HyprWorkspaceView> {
    v.map_values(|w: HyprWorkspace| w@)
}

pub open spec fn clients_view(v: Seq<HyprClient>) -> Seq<HyprClientView> {
    v.map_values(|c: HyprClient| c@)
}

/// `n` in decimal, with a `-` when negative.
pub open spec fn signed_decimal(n: int) -> Seq<char> {
    if n < 0 {
        "-"@ + decimal((-n) as nat)
    } else {
        decimal(n as nat)
    }
}

pub fn signed_decimal_of(n: i64) -> (r: String)
    ensures
        r@ == signed_decimal(n as int),
{
    if n < 0 {
        let m: u64 = (-(n as i128)) as u64;
        let digits = decimal_of(m);
        let mut v: Vec<char> = Vec::new();
        push_str(&mut v, "-");
        push_str(&mut v, digits.as_str());
        proof {
            reveal_strlit("-");
        }
        assert(v@ =~= "-"@ + decimal((-n) as nat));
        string_of(v.as_slice())
    } else {
        decimal_of(n as u64)
    }
}

// ---------------------------------------------------------------------
// Workspaces: by id, without the special ones

/// Where a workspace with `id` goes in a list sorted by id: after every
/// one with an id not greater.
pub open spec fn slot(s: Seq<HyprWorkspaceView>, id: i64) -> int
    decreases s.len(),
{
    if s.len() == 0 {
        0
    } else if s.last().id <= id {
        s.len() as int
    } else {
        slot(s.drop_last(), id)
    }
}

/// `s` sorted by id, equal ids keeping their order.
pub open spec fn sorted_by_id(s: Seq<HyprWorkspaceView>) -> Seq<HyprWorkspaceView>
    decreases s.len(),
{
    if s.len() == 0 {
        s
    } else {
        let r = sorted_by_id(s.drop_last());
        r.insert(slot(r, s.last().id), s.last())
    }
}

pub open spec fn ascending(s: Seq<HyprWorkspaceView>) -> bool {
    forall|i: int, j: int| 0 <= i < j < s.len() ==> #[trigger] s[i].id <= #[trigger] s[j].id
}

/// The workspace shown for a listed one: its id in decimal, not
/// active, not urgent until said so.
pub open spec fn listed_workspace(w: HyprWorkspaceView) -> WorkspaceView {
    WorkspaceView {
        id: signed_decimal(w.id as int),
        name: w.name,
        output: w.monitor,
        active: false,
        urgent: false,
    }
}

/// Hyprland lists workspaces in creation order, special (scratchpad)
/// ones with negative ids among them: those go, the rest are sorted by
/// id.
pub open spec fn workspace_list_of(list: Seq<HyprWorkspaceView>) -> Seq<WorkspaceView> {
    sorted_by_id(list.filter(|w: HyprWorkspaceView| w.id >= 0)).map_values(
        |w: HyprWorkspaceView| listed_workspace(w),
    )
}

proof fn lemma_slot(s: Seq<HyprWorkspaceView>, id: i64)
    ensures
        0 <= slot(s, id) <= s.len(),
        ascending(s) ==> forall|j: int| 0 <= j < slot(s, id) ==> (#[trigger] s[j]).id <= id,
        forall|j: int| slot(s, id) <= j < s.len() ==> (#[trigger] s[j]).id > id,
    decreases s.len(),
{
    if s.len() > 0 {
        let t = s.drop_last();
        if s.last().id <= id {
            if ascending(s) {
                assert forall|j: int| 0 <= j < slot(s, id) implies (#[trigger] s[j]).id <= id by {
                    if j < s.len() - 1 {
                        assert(s[j].id <= s[s.len() - 1].id);
                    }
                }
            }
        } else {
            lemma_slot(t, id);
            if ascending(s) {
                assert(ascending(t)) by {
                    assert forall|i: int, j: int| 0 <= i < j < t.len() implies #[trigger] t[i].id <= #[trigger] t[j].id by {
                        assert(t[i] == s[i] && t[j] == s[j]);
                    }
                }
                assert forall|j: int| 0 <= j < slot(s, id) implies (#[trigger] s[j]).id <= id by {
                    assert(t[j] == s[j]);
                }
            }
            assert forall|j: int| slot(s, id) <= j < s.len() implies (#[trigger] s[j]).id > id by {
                if j < s.len() - 1 {
                    assert(t[j] == s[j]);
                }
            }
        }
    }
}

/// The sorted list is sorted, and holds exactly the workspaces given.
pub proof fn sorting_keeps_every_workspace_in_id_order(s: Seq<HyprWorkspaceView>)
    ensures
        ascending(sorted_by_id(s)),
        sorted_by_id(s).to_multiset() == s.to_multiset(),
        sorted_by_id(s).len() == s.len(),
    decreases s.len(),
{
    broadcast use vstd::seq_lib::to_multiset_build, vstd::seq_lib::to_multiset_insert;

    if s.len() > 0 {
        let t = s.drop_last();
        sorting_keeps_every_workspace_in_id_order(t);
        let r = sorted_by_id(t);
        let x = s.last();
        let p = slot(r, x.id);
        lemma_slot(r, x.id);
        let u = r.insert(p, x);
        assert forall|i: int, j: int| 0 <= i < j < u.len() implies #[trigger] u[i].id <= #[trigger] u[j].id by {
            if i < p && j > p {
                assert(r[i].id <= r[j - 1].id);
            } else if j < p {
                assert(r[i].id <= r[j].id);
            } else if i > p {
                assert(r[i - 1].id <= r[j - 1].id);
            }
        }
        assert(s == t.push(x));
    }
}

proof fn lemma_slot_bound(s: Seq<HyprWorkspaceView>, id: i64)
    ensures
        0 <= slot(s, id) <= s.len(),
    decreases s.len(),
{
    if s.len() > 0 && s.last().id > id {
        lemma_slot_bound(s.drop_last(), id);
    }
}

/// Insert `w` where [`slot`] says, in a list kept sorted.
fn insert_sorted(r: &mut Vec<HyprWorkspace>, w: HyprWorkspace)
    ensures
        hws_view(final(r)@) == hws_view(old(r)@).insert(slot(hws_view(old(r)@), w.id), w@),
{
    let ghost s = hws_view(r@);
    let mut j: usize = r.len();
    assert(s.take(j as int) =~= s);
    while j > 0
        invariant
            j <= r.len(),
            s == hws_view(r@),
            slot(s, w.id) == slot(s.take(j as int), w.id),
        ensures
            j <= r.len(),
            s == hws_view(r@),
            slot(s, w.id) == j,
        decreases j,
    {
        let ghost t = s.take(j as int);
        assert(t.last() == s[j - 1]);
        assert(s[j - 1] == r@[j - 1]@);
        if r[j - 1].id <= w.id {
            assert(slot(t, w.id) == j);
            break;
        }
        assert(t.drop_last() =~= s.take(j - 1));
        j = j - 1;
    }
    proof {
        lemma_slot_bound(s, w.id);
    }
    let ghost wv = w@;
    r.insert(j, w);
    assert(hws_view(r@) =~= s.insert(j as int, wv));
}

impl HyprWorkspace {
    /// A field-by-field copy.
    pub fn copy(&self) -> (r: HyprWorkspace)
        ensures
            r@ == self@,
    {
        HyprWorkspace { id: self.id, name: self.name.clone(), monitor: self.monitor.clone() }
    }
}

/// The `j/workspaces` list as the desktop shows it: without the special
/// ones, sorted by id.
pub fn workspace_list(list: &Vec<HyprWorkspace>) -> (r: Vec<Workspace>)
    ensures
        ws_view(r@) == workspace_list_of(hws_view(list@)),
{
    let ghost all = hws_view(list@);
    let mut sorted: Vec<HyprWorkspace> = Vec::new();
    let mut i: usize = 0;
    assert(all.take(0).filter(|w: HyprWorkspaceView| w.id >= 0) =~= Seq::<HyprWorkspaceView>::empty()) by {
        reveal_with_fuel(Seq::filter, 1);
    }
    assert(hws_view(sorted@) =~= Seq::<HyprWorkspaceView>::empty());
    while i < list.len()
        invariant
            i <= list.len(),
            all == hws_view(list@),
            hws_view(sorted@) == sorted_by_id(all.take(i as int).filter(|w: HyprWorkspaceView| w.id >= 0)),
        decreases list.len() - i,
    {
        let ghost f = all.take(i as int).filter(|w: HyprWorkspaceView| w.id >= 0);
        assert(all.take(i + 1).drop_last() =~= all.take(i as int));
        assert(all[i as int] == list@[i as int]@);
        reveal_with_fuel(Seq::filter, 1);
        if list[i].id >= 0 {
            let w = list[i].copy();
            insert_sorted(&mut sorted, w);
            assert(f.push(all[i as int]).drop_last() =~= f);
        }
        i = i + 1;
    }
    assert(all.take(list.len() as int) =~= all);
    let ghost sv = hws_view(sorted@);
    let mut r: Vec<Workspace> = Vec::new();
    let mut j: usize = 0;
    while j < sorted.len()
        invariant
            j <= sorted.len(),
            sv == hws_view(sorted@),
            ws_view(r@) == sv.map_values(|w: HyprWorkspaceView| listed_workspace(w)).take(j as int),
        decreases sorted.len() - j,
    {
        let w = &sorted[j];
        let ghost before = ws_view(r@);
        r.push(Workspace {
            id: signed_decimal_of(w.id),
            name: w.name.clone(),
            output: w.monitor.clone(),
            active: false,
            urgent: false,
        });
        assert(ws_view(r@) =~= before.push(listed_workspace(sv[j as int])));
        assert(ws_view(r@) =~= sv.map_values(|w: HyprWorkspaceView| listed_workspace(w)).take(j + 1));
        j = j + 1;
    }
    assert(sv.map_values(|w: HyprWorkspaceView| listed_workspace(w)).take(j as int) =~= sv.map_values(
        |w: HyprWorkspaceView| listed_workspace(w),
    ));
    r
}


// ---------------------------------------------------------------------
// Windows

/// Window ids are the client address without the `0x`, which is how the
/// event socket reports them.
pub open spec fn window_id_of(address: Seq<char>) -> Seq<char> {
    if starts_with(address, "0x"@) {
        address.skip(2)
    } else {
        address
    }
}

pub fn window_id(address: &str) -> (r: String)
    ensures
        r@ == window_id_of(address@),
{
    let s = chars_of(address);
    proof {
        reveal_strlit("0x");
    }
    if crate::text::has_prefix(s.as_slice(), "0x") {
        let rest = crate::text::slice_vec(s.as_slice(), 2, s.len());
        assert(rest@ =~= address@.skip(2));
        string_of(rest.as_slice())
    } else {
        address.to_string()
    }
}

/// The window shown for a listed client.
pub open spec fn listed_window(c: HyprClientView) -> WindowView {
    WindowView {
        id: window_id_of(c.address),
        class: c.class,
        title: c.title,
        workspace_id: signed_decimal(c.workspace as int),
        active: false,
        urgent: false,
    }
}

/// The `j/clients` list as the desktop shows it: the mapped clients, in
/// Hyprland's order.
pub open spec fn window_list_of(clients: Seq<HyprClientView>) -> Seq<WindowView> {
    clients.filter(|c: HyprClientView| c.mapped).map_values(|c: HyprClientView| listed_window(c))
}

pub fn window_list(clients: &Vec<HyprClient>) -> (r: Vec<Window>)
    ensures
        win_view(r@) == window_list_of(clients_view(clients@)),
{
    let ghost all = clients_view(clients@);
    let mut r: Vec<Window> = Vec::new();
    let mut i: usize = 0;
    while i < clients.len()
        invariant
            i <= clients.len(),
            all == clients_view(clients@),
            win_view(r@) == window_list_of(all.take(i as int)),
        decreases clients.len() - i,
    {
        let ghost before = win_view(r@);
        assert(all.take(i + 1).drop_last() =~= all.take(i as int));
        assert(all[i as int] == clients@[i as int]@);
        reveal_with_fuel(Seq::filter, 1);
        let c = &clients[i];
        if c.mapped {
            r.push(Window {
                id: window_id(c.address.as_str()),
                class: c.class.clone(),
                title: c.title.clone(),
                workspace_id: signed_decimal_of(c.workspace),
                active: false,
                urgent: false,
            });
            let ghost f = all.take(i as int).filter(|c: HyprClientView| c.mapped);
            assert(all.take(i + 1).filter(|c: HyprClientView| c.mapped) == f.push(all[i as int]));
            assert(f.push(all[i as int]).map_values(|c: HyprClientView| listed_window(c)) =~= f.map_values(
                |c: HyprClientView| listed_window(c),
            ).push(listed_window(all[i as int])));
            assert(win_view(r@) =~= before.push(listed_window(all[i as int])));
        }
        i = i + 1;
    }
    assert(all.take(clients.len() as int) =~= all);
    r
}

/// The active window from `j/activewindow`'s address: none when empty.
pub fn active_window(address: &str) -> (r: Option<String>)
    ensures
        crate::config::opt_view(r) == (if address@.len() == 0 {
            None
        } else {
            Some(window_id_of(address@))
        }),
{
    if address.is_empty() {
        None
    } else {
        Some(window_id(address))
    }
}

/// The workspace shown on each monitor, from `j/monitors`.
pub fn monitor_workspaces(ids: &[i64]) -> (r: Vec<String>)
    ensures
        crate::config::strings_view(r@) == ids@.map_values(|id: i64| signed_decimal(id as int)),
{
    let mut r: Vec<String> = Vec::new();
    let mut i: usize = 0;
    while i < ids.len()
        invariant
            i <= ids.len(),
            crate::config::strings_view(r@) == ids@.map_values(|id: i64| signed_decimal(id as int)).take(i as int),
        decreases ids.len() - i,
    {
        let ghost before = crate::config::strings_view(r@);
        let d = signed_decimal_of(ids[i]);
        r.push(d);
        assert(crate::config::strings_view(r@) =~= before.push(d@));
        assert(crate::config::strings_view(r@) =~= ids@.map_values(|id: i64| signed_decimal(id as int)).take(
            i + 1,
        ));
        i = i + 1;
    }
    assert(ids@.map_values(|id: i64| signed_decimal(id as int)).take(i as int) =~= ids@.map_values(
        |id: i64| signed_decimal(id as int),
    ));
    r
}

// ---------------------------------------------------------------------
// Event lines: `event>>data`

/// Index of the first `>>` in `s`; `s.len()` when there is none.
pub open spec fn arrow_at(s: Seq<char>) -> int
    decreases s.len(),
{
    if s.len() < 2 {
        s.len() as int
    } else if s[0] == '>' && s[1] == '>' {
        0
    } else {
        arrow_at(s.drop_first()) + 1
    }
}

proof fn lemma_arrow_at(s: Seq<char>, i: int)
    requires
        0 <= i <= s.len(),
        i < s.len() ==> i + 1 < s.len() && s[i] == '>' && s[i + 1] == '>',
        i == s.len() ==> forall|j: int| 0 <= j && j + 1 < s.len() ==> !(#[trigger] s[j] == '>' && s[j + 1] == '>'),
        forall|j: int| 0 <= j < i && j + 1 < s.len() ==> !(#[trigger] s[j] == '>' && s[j + 1] == '>'),
    ensures
        arrow_at(s) == i,
    decreases s.len(),
{
    if s.len() >= 2 && i > 0 {
        assert(!(s[0] == '>' && s[1] == '>'));
        let t = s.drop_first();
        assert forall|j: int| 0 <= j < i - 1 && j + 1 < t.len() implies !(#[trigger] t[j] == '>' && t[j + 1] == '>') by {
            assert(t[j] == s[j + 1] && t[j + 1] == s[j + 2]);
        }
        if i == s.len() {
            assert forall|j: int| 0 <= j && j + 1 < t.len() implies !(#[trigger] t[j] == '>' && t[j + 1] == '>') by {
                assert(t[j] == s[j + 1] && t[j + 1] == s[j + 2]);
            }
        } else {
            assert(t[i - 1] == s[i] && t[i] == s[i + 1]);
        }
        lemma_arrow_at(t, i - 1);
    }
}

/// What an event line asks for.
#[derive(Debug)]
pub enum LineEvent {
    /// Not `event>>data`.
    Malformed,
    /// An event that changes nothing shown.
    Ignored,
    ActiveWorkspace(String),
    ActiveWindow(Option<String>),
    Urgent(String),
    /// Fetch these lists again, then the monitors' workspaces when
    /// `monitors`.
    Refetch { workspaces: bool, windows: bool, monitors: bool },
}

pub enum LineEventView {
    Malformed,
    Ignored,
    ActiveWorkspace(Seq<char>),
    ActiveWindow(Option<Seq<char>>),
    Urgent(Seq<char>),
    Refetch(bool, bool, bool),
}

pub open spec fn line_event_view(e: LineEvent) -> LineEventView {
    match e {
        LineEvent::Malformed => LineEventView::Malformed,
        LineEvent::Ignored => LineEventView::Ignored,
        LineEvent::ActiveWorkspace(id) => LineEventView::ActiveWorkspace(id@),
        LineEvent::ActiveWindow(id) => LineEventView::ActiveWindow(crate::config::opt_view(id)),
        LineEvent::Urgent(id) => LineEventView::Urgent(id@),
        LineEvent::Refetch { workspaces, windows, monitors } => LineEventView::Refetch(workspaces, windows, monitors),
    }
}

/// The meaning of `name>>data`: `workspacev2>>ID,NAME` switched the
/// focused monitor to ID; `focusedmonv2>>MONITOR,ID` says that monitor
/// shows ID; `activewindowv2>>ADDR` (empty: none) and `urgent>>ADDR`
/// speak of windows; the window and workspace events that change the
/// lists ask for them again, the monitor ones for the monitors' too.
pub open spec fn event_of(name: Seq<char>, data: Seq<char>) -> LineEventView {
    if name == "workspacev2"@ {
        LineEventView::ActiveWorkspace(split_on(data, ',')[0])
    } else if name == "focusedmonv2"@ {
        LineEventView::ActiveWorkspace(
            match split_once(data, ',') {
                Some((_, id)) => id,
                None => data,
            },
        )
    } else if name == "activewindowv2"@ {
        LineEventView::ActiveWindow(if data.len() == 0 { None } else { Some(data) })
    } else if name == "urgent"@ {
        LineEventView::Urgent(data)
    } else if name == "openwindow"@ || name == "closewindow"@ || name == "movewindowv2"@ || name == "windowtitlev2"@ {
        LineEventView::Refetch(false, true, false)
    } else if name == "createworkspacev2"@ || name == "destroyworkspacev2"@ || name == "renameworkspace"@ {
        LineEventView::Refetch(true, true, false)
    } else if name == "moveworkspacev2"@ || name == "monitoradded"@ || name == "monitorremoved"@ {
        LineEventView::Refetch(true, true, true)
    } else {
        LineEventView::Ignored
    }
}

pub open spec fn line_of(line: Seq<char>) -> LineEventView {
    let p = arrow_at(line);
    if p >= line.len() {
        LineEventView::Malformed
    } else {
        event_of(line.take(p), line.skip(p + 2))
    }
}

fn is(name: &[char], word: &str) -> (r: bool)
    ensures
        r == (name@ == word@),
{
    crate::text::eq_str(name, word)
}

/// What one line of the event socket asks for.
pub fn line_event(line: &str) -> (r: LineEvent)
    ensures
        line_event_view(r) == line_of(line@),
{
    let s = chars_of(line);
    let n = s.len();
    let mut i: usize = 0;
    while n > 0 && i < n - 1 && !(s[i] == '>' && s[i + 1] == '>')
        invariant
            i <= n == s@.len(),
            s@ == line@,
            forall|j: int| 0 <= j < i && j + 1 < n ==> !(#[trigger] s@[j] == '>' && s@[j + 1] == '>'),
        decreases n - i,
    {
        i = i + 1;
    }
    if n == 0 || i >= n - 1 {
        proof {
            assert forall|j: int| 0 <= j && j + 1 < s@.len() implies !(#[trigger] s@[j] == '>' && s@[j + 1] == '>') by {
                assert(j < i);
            }
            lemma_arrow_at(s@, n as int);
        }
        return LineEvent::Malformed;
    }
    proof {
        lemma_arrow_at(s@, i as int);
    }
    let name = crate::text::slice_vec(s.as_slice(), 0, i);
    let data = crate::text::slice_vec(s.as_slice(), i + 2, n);
    assert(name@ =~= line@.take(i as int));
    assert(data@ =~= line@.skip(i + 2));
    let nm = name.as_slice();
    if is(nm, "workspacev2") {
        let fields = split_char(data.as_slice(), ',');
        assert(split_on(data@, ',').len() >= 1);
        assert(fields@[0]@ == split_on(data@, ',')[0]);
        LineEvent::ActiveWorkspace(string_of(fields[0].as_slice()))
    } else if is(nm, "focusedmonv2") {
        match split_once_char(data.as_slice(), ',') {
            Some((_, id)) => LineEvent::ActiveWorkspace(string_of(id.as_slice())),
            None => LineEvent::ActiveWorkspace(string_of(data.as_slice())),
        }
    } else if is(nm, "activewindowv2") {
        if data.len() == 0 {
            LineEvent::ActiveWindow(None)
        } else {
            LineEvent::ActiveWindow(Some(string_of(data.as_slice())))
        }
    } else if is(nm, "urgent") {
        LineEvent::Urgent(string_of(data.as_slice()))
    } else if is(nm, "openwindow") || is(nm, "closewindow") || is(nm, "movewindowv2") || is(nm, "windowtitlev2") {
        LineEvent::Refetch { workspaces: false, windows: true, monitors: false }
    } else if is(nm, "createworkspacev2") || is(nm, "destroyworkspacev2") || is(nm, "renameworkspace") {
        LineEvent::Refetch { workspaces: true, windows: true, monitors: false }
    } else if is(nm, "moveworkspacev2") || is(nm, "monitoradded") || is(nm, "monitorremoved") {
        LineEvent::Refetch { workspaces: true, windows: true, monitors: true }
    } else {
        LineEvent::Ignored
    }
}

/// No `>` in `s`.
pub open spec fn no_gt(s: Seq<char>) -> bool {
    forall|j: int| 0 <= j < s.len() ==> #[trigger] s[j] != '>'
}

proof fn lemma_arrow_after(name: Seq<char>, data: Seq<char>)
    requires
        no_gt(name),
    ensures
        arrow_at(name + ">>"@ + data) == name.len(),
        (name + ">>"@ + data).len() == name.len() + 2 + data.len(),
        (name + ">>"@ + data).take(name.len() as int) == name,
        (name + ">>"@ + data).skip(name.len() as int + 2) == data,
{
    reveal_strlit(">>");
    let line = name + ">>"@ + data;
    assert(line[name.len() as int] == '>' && line[name.len() as int + 1] == '>');
    assert forall|j: int| 0 <= j < name.len() && j + 1 < line.len() implies !(#[trigger] line[j] == '>' && line[j + 1] == '>') by {
        assert(line[j] == name[j]);
    }
    lemma_arrow_at(line, name.len() as int);
    assert(line.take(name.len() as int) =~= name);
    assert(line.skip(name.len() as int + 2) =~= data);
}

proof fn lemma_event_names_plain()
    ensures
        no_gt("openwindow"@),
        no_gt("closewindow"@),
        no_gt("movewindowv2"@),
        no_gt("windowtitlev2"@),
        no_gt("createworkspacev2"@),
        no_gt("destroyworkspacev2"@),
        no_gt("renameworkspace"@),
        no_gt("moveworkspacev2"@),
        no_gt("monitoradded"@),
        no_gt("monitorremoved"@),
{
    reveal_strlit("openwindow");
    reveal_strlit("closewindow");
    reveal_strlit("movewindowv2");
    reveal_strlit("windowtitlev2");
    reveal_strlit("createworkspacev2");
    reveal_strlit("destroyworkspacev2");
    reveal_strlit("renameworkspace");
    reveal_strlit("moveworkspacev2");
    reveal_strlit("monitoradded");
    reveal_strlit("monitorremoved");
}

/// A window opening, closing, moving or retitling asks for the window
/// list again, and only that; a workspace created, destroyed or
/// renamed asks for the workspaces and windows; a workspace moved or a
/// monitor added or removed asks for everything. Whatever the data.
pub proof fn list_changes_ask_for_the_lists(data: Seq<char>)
    ensures
        line_of("openwindow"@ + ">>"@ + data) == LineEventView::Refetch(false, true, false),
        line_of("closewindow"@ + ">>"@ + data) == LineEventView::Refetch(false, true, false),
        line_of("movewindowv2"@ + ">>"@ + data) == LineEventView::Refetch(false, true, false),
        line_of("windowtitlev2"@ + ">>"@ + data) == LineEventView::Refetch(false, true, false),
        line_of("createworkspacev2"@ + ">>"@ + data) == LineEventView::Refetch(true, true, false),
        line_of("destroyworkspacev2"@ + ">>"@ + data) == LineEventView::Refetch(true, true, false),
        line_of("renameworkspace"@ + ">>"@ + data) == LineEventView::Refetch(true, true, false),
        line_of("moveworkspacev2"@ + ">>"@ + data) == LineEventView::Refetch(true, true, true),
        line_of("monitoradded"@ + ">>"@ + data) == LineEventView::Refetch(true, true, true),
        line_of("monitorremoved"@ + ">>"@ + data) == LineEventView::Refetch(true, true, true),
{
    lemma_event_names_plain();
    assert(line_of("openwindow"@ + ">>"@ + data) == LineEventView::Refetch(false, true, false)) by {
        reveal_strlit("openwindow");
        reveal_strlit("workspacev2");
        reveal_strlit("focusedmonv2");
        reveal_strlit("activewindowv2");
        reveal_strlit("urgent");
        assert("openwindow"@.len() != "workspacev2"@.len());
        assert("openwindow"@.len() != "focusedmonv2"@.len());
        assert("openwindow"@.len() != "activewindowv2"@.len());
        assert("openwindow"@.len() != "urgent"@.len());
        assert(event_of("openwindow"@, data) == LineEventView::Refetch(false, true, false));
        lemma_arrow_after("openwindow"@, data);
    }
    assert(line_of("closewindow"@ + ">>"@ + data) == LineEventView::Refetch(false, true, false)) by {
        reveal_strlit("closewindow");
        reveal_strlit("workspacev2");
        reveal_strlit("focusedmonv2");
        reveal_strlit("activewindowv2");
        reveal_strlit("urgent");
        reveal_strlit("openwindow");
        assert("closewindow"@[0] != "workspacev2"@[0]);
        assert("closewindow"@.len() != "focusedmonv2"@.len());
        assert("closewindow"@.len() != "activewindowv2"@.len());
        assert("closewindow"@.len() != "urgent"@.len());
        assert("closewindow"@.len() != "openwindow"@.len());
        assert(event_of("closewindow"@, data) == LineEventView::Refetch(false, true, false));
        lemma_arrow_after("closewindow"@, data);
    }
    assert(line_of("movewindowv2"@ + ">>"@ + data) == LineEventView::Refetch(false, true, false)) by {
        reveal_strlit("movewindowv2");
        reveal_strlit("workspacev2");
        reveal_strlit("focusedmonv2");
        reveal_strlit("activewindowv2");
        reveal_strlit("urgent");
        reveal_strlit("openwindow");
        reveal_strlit("closewindow");
        assert("movewindowv2"@.len() != "workspacev2"@.len());
        assert("movewindowv2"@[0] != "focusedmonv2"@[0]);
        assert("movewindowv2"@.len() != "activewindowv2"@.len());
        assert("movewindowv2"@.len() != "urgent"@.len());
        assert("movewindowv2"@.len() != "openwindow"@.len());
        assert("movewindowv2"@.len() != "closewindow"@.len());
        assert(event_of("movewindowv2"@, data) == LineEventView::Refetch(false, true, false));
        lemma_arrow_after("movewindowv2"@, data);
    }
    assert(line_of("windowtitlev2"@ + ">>"@ + data) == LineEventView::Refetch(false, true, false)) by {
        reveal_strlit("windowtitlev2");
        reveal_strlit("workspacev2");
        reveal_strlit("focusedmonv2");
        reveal_strlit("activewindowv2");
        reveal_strlit("urgent");
        reveal_strlit("openwindow");
        reveal_strlit("closewindow");
        reveal_strlit("movewindowv2");
        assert("windowtitlev2"@.len() != "workspacev2"@.len());
        assert("windowtitlev2"@.len() != "focusedmonv2"@.len());
        assert("windowtitlev2"@.len() != "activewindowv2"@.len());
        assert("windowtitlev2"@.len() != "urgent"@.len());
        assert("windowtitlev2"@.len() != "openwindow"@.len());
        assert("windowtitlev2"@.len() != "closewindow"@.len());
        assert("windowtitlev2"@.len() != "movewindowv2"@.len());
        assert(event_of("windowtitlev2"@, data) == LineEventView::Refetch(false, true, false));
        lemma_arrow_after("windowtitlev2"@, data);
    }
    assert(line_of("createworkspacev2"@ + ">>"@ + data) == LineEventView::Refetch(true, true, false)) by {
        reveal_strlit("createworkspacev2");
        reveal_strlit("workspacev2");
        reveal_strlit("focusedmonv2");
        reveal_strlit("activewindowv2");
        reveal_strlit("urgent");
        reveal_strlit("openwindow");
        reveal_strlit("closewindow");
        reveal_strlit("movewindowv2");
        reveal_strlit("windowtitlev2");
        assert("createworkspacev2"@.len() != "workspacev2"@.len());
        assert("createworkspacev2"@.len() != "focusedmonv2"@.len());
        assert("createworkspacev2"@.len() != "activewindowv2"@.len());
        assert("createworkspacev2"@.len() != "urgent"@.len());
        assert("createworkspacev2"@.len() != "openwindow"@.len());
        assert("createworkspacev2"@.len() != "closewindow"@.len());
        assert("createworkspacev2"@.len() != "movewindowv2"@.len());
        assert("createworkspacev2"@.len() != "windowtitlev2"@.len());
        assert(event_of("createworkspacev2"@, data) == LineEventView::Refetch(true, true, false));
        lemma_arrow_after("createworkspacev2"@, data);
    }
    assert(line_of("destroyworkspacev2"@ + ">>"@ + data) == LineEventView::Refetch(true, true, false)) by {
        reveal_strlit("destroyworkspacev2");
        reveal_strlit("workspacev2");
        reveal_strlit("focusedmonv2");
        reveal_strlit("activewindowv2");
        reveal_strlit("urgent");
        reveal_strlit("openwindow");
        reveal_strlit("closewindow");
        reveal_strlit("movewindowv2");
        reveal_strlit("windowtitlev2");
        reveal_strlit("createworkspacev2");
        assert("destroyworkspacev2"@.len() != "workspacev2"@.len());
        assert("destroyworkspacev2"@.len() != "focusedmonv2"@.len());
        assert("destroyworkspacev2"@.len() != "activewindowv2"@.len());
        assert("destroyworkspacev2"@.len() != "urgent"@.len());
        assert("destroyworkspacev2"@.len() != "openwindow"@.len());
        assert("destroyworkspacev2"@.len() != "closewindow"@.len());
        assert("destroyworkspacev2"@.len() != "movewindowv2"@.len());
        assert("destroyworkspacev2"@.len() != "windowtitlev2"@.len());
        assert("destroyworkspacev2"@.len() != "createworkspacev2"@.len());
        assert(event_of("destroyworkspacev2"@, data) == LineEventView::Refetch(true, true, false));
        lemma_arrow_after("destroyworkspacev2"@, data);
    }
    assert(line_of("renameworkspace"@ + ">>"@ + data) == LineEventView::Refetch(true, true, false)) by {
        reveal_strlit("renameworkspace");
        reveal_strlit("workspacev2");
        reveal_strlit("focusedmonv2");
        reveal_strlit("activewindowv2");
        reveal_strlit("urgent");
        reveal_strlit("openwindow");
        reveal_strlit("closewindow");
        reveal_strlit("movewindowv2");
        reveal_strlit("windowtitlev2");
        reveal_strlit("createworkspacev2");
        reveal_strlit("destroyworkspacev2");
        assert("renameworkspace"@.len() != "workspacev2"@.len());
        assert("renameworkspace"@.len() != "focusedmonv2"@.len());
        assert("renameworkspace"@.len() != "activewindowv2"@.len());
        assert("renameworkspace"@.len() != "urgent"@.len());
        assert("renameworkspace"@.len() != "openwindow"@.len());
        assert("renameworkspace"@.len() != "closewindow"@.len());
        assert("renameworkspace"@.len() != "movewindowv2"@.len());
        assert("renameworkspace"@.len() != "windowtitlev2"@.len());
        assert("renameworkspace"@.len() != "createworkspacev2"@.len());
        assert("renameworkspace"@.len() != "destroyworkspacev2"@.len());
        assert(event_of("renameworkspace"@, data) == LineEventView::Refetch(true, true, false));
        lemma_arrow_after("renameworkspace"@, data);
    }
    assert(line_of("moveworkspacev2"@ + ">>"@ + data) == LineEventView::Refetch(true, true, true)) by {
        reveal_strlit("moveworkspacev2");
        reveal_strlit("workspacev2");
        reveal_strlit("focusedmonv2");
        reveal_strlit("activewindowv2");
        reveal_strlit("urgent");
        reveal_strlit("openwindow");
        reveal_strlit("closewindow");
        reveal_strlit("movewindowv2");
        reveal_strlit("windowtitlev2");
        reveal_strlit("createworkspacev2");
        reveal_strlit("destroyworkspacev2");
        reveal_strlit("renameworkspace");
        assert("moveworkspacev2"@.len() != "workspacev2"@.len());
        assert("moveworkspacev2"@.len() != "focusedmonv2"@.len());
        assert("moveworkspacev2"@.len() != "activewindowv2"@.len());
        assert("moveworkspacev2"@.len() != "urgent"@.len());
        assert("moveworkspacev2"@.len() != "openwindow"@.len());
        assert("moveworkspacev2"@.len() != "closewindow"@.len());
        assert("moveworkspacev2"@.len() != "movewindowv2"@.len());
        assert("moveworkspacev2"@.len() != "windowtitlev2"@.len());
        assert("moveworkspacev2"@.len() != "createworkspacev2"@.len());
        assert("moveworkspacev2"@.len() != "destroyworkspacev2"@.len());
        assert("moveworkspacev2"@[0] != "renameworkspace"@[0]);
        assert(event_of("moveworkspacev2"@, data) == LineEventView::Refetch(true, true, true));
        lemma_arrow_after("moveworkspacev2"@, data);
    }
    assert(line_of("monitoradded"@ + ">>"@ + data) == LineEventView::Refetch(true, true, true)) by {
        reveal_strlit("monitoradded");
        reveal_strlit("workspacev2");
        reveal_strlit("focusedmonv2");
        reveal_strlit("activewindowv2");
        reveal_strlit("urgent");
        reveal_strlit("openwindow");
        reveal_strlit("closewindow");
        reveal_strlit("movewindowv2");
        reveal_strlit("windowtitlev2");
        reveal_strlit("createworkspacev2");
        reveal_strlit("destroyworkspacev2");
        reveal_strlit("renameworkspace");
        reveal_strlit("moveworkspacev2");
        assert("monitoradded"@.len() != "workspacev2"@.len());
        assert("monitoradded"@[0] != "focusedmonv2"@[0]);
        assert("monitoradded"@.len() != "activewindowv2"@.len());
        assert("monitoradded"@.len() != "urgent"@.len());
        assert("monitoradded"@.len() != "openwindow"@.len());
        assert("monitoradded"@.len() != "closewindow"@.len());
        assert("monitoradded"@[2] != "movewindowv2"@[2]);
        assert("monitoradded"@.len() != "windowtitlev2"@.len());
        assert("monitoradded"@.len() != "createworkspacev2"@.len());
        assert("monitoradded"@.len() != "destroyworkspacev2"@.len());
        assert("monitoradded"@.len() != "renameworkspace"@.len());
        assert("monitoradded"@.len() != "moveworkspacev2"@.len());
        assert(event_of("monitoradded"@, data) == LineEventView::Refetch(true, true, true));
        lemma_arrow_after("monitoradded"@, data);
    }
    assert(line_of("monitorremoved"@ + ">>"@ + data) == LineEventView::Refetch(true, true, true)) by {
        reveal_strlit("monitorremoved");
        reveal_strlit("workspacev2");
        reveal_strlit("focusedmonv2");
        reveal_strlit("activewindowv2");
        reveal_strlit("urgent");
        reveal_strlit("openwindow");
        reveal_strlit("closewindow");
        reveal_strlit("movewindowv2");
        reveal_strlit("windowtitlev2");
        reveal_strlit("createworkspacev2");
        reveal_strlit("destroyworkspacev2");
        reveal_strlit("renameworkspace");
        reveal_strlit("moveworkspacev2");
        reveal_strlit("monitoradded");
        assert("monitorremoved"@.len() != "workspacev2"@.len());
        assert("monitorremoved"@.len() != "focusedmonv2"@.len());
        assert("monitorremoved"@[0] != "activewindowv2"@[0]);
        assert("monitorremoved"@.len() != "urgent"@.len());
        assert("monitorremoved"@.len() != "openwindow"@.len());
        assert("monitorremoved"@.len() != "closewindow"@.len());
        assert("monitorremoved"@.len() != "movewindowv2"@.len());
        assert("monitorremoved"@.len() != "windowtitlev2"@.len());
        assert("monitorremoved"@.len() != "createworkspacev2"@.len());
        assert("monitorremoved"@.len() != "destroyworkspacev2"@.len());
        assert("monitorremoved"@.len() != "renameworkspace"@.len());
        assert("monitorremoved"@.len() != "moveworkspacev2"@.len());
        assert("monitorremoved"@.len() != "monitoradded"@.len());
        assert(event_of("monitorremoved"@, data) == LineEventView::Refetch(true, true, true));
        lemma_arrow_after("monitorremoved"@, data);
    }
}

/// The events that name what they speak of: `workspacev2>>ID,NAME`
/// makes ID the active workspace, `focusedmonv2>>MONITOR,ID` too;
/// `activewindowv2>>ADDR` makes ADDR the active window, or none when
/// empty; `urgent>>ADDR` marks ADDR urgent. Whatever follows.
pub proof fn named_events_carry_their_subject(a: Seq<char>, b: Seq<char>)
    requires
        forall|j: int| 0 <= j < a.len() ==> #[trigger] a[j] != ',',
    ensures
        line_of("workspacev2"@ + ">>"@ + (a + seq![','] + b)) == LineEventView::ActiveWorkspace(a),
        line_of("workspacev2"@ + ">>"@ + a) == LineEventView::ActiveWorkspace(a),
        line_of("focusedmonv2"@ + ">>"@ + (a + seq![','] + b)) == LineEventView::ActiveWorkspace(b),
        line_of("activewindowv2"@ + ">>"@ + Seq::<char>::empty()) == LineEventView::ActiveWindow(None),
        b.len() > 0 ==> line_of("activewindowv2"@ + ">>"@ + b) == LineEventView::ActiveWindow(Some(b)),
        line_of("urgent"@ + ">>"@ + b) == LineEventView::Urgent(b),
{
    reveal_strlit("workspacev2");
    reveal_strlit("focusedmonv2");
    reveal_strlit("activewindowv2");
    reveal_strlit("urgent");
    assert(no_gt("workspacev2"@));
    assert(no_gt("focusedmonv2"@));
    assert(no_gt("activewindowv2"@));
    assert(no_gt("urgent"@));
    assert("focusedmonv2"@.len() != "workspacev2"@.len());
    assert("activewindowv2"@.len() != "workspacev2"@.len());
    assert("activewindowv2"@.len() != "focusedmonv2"@.len());
    assert("urgent"@.len() != "workspacev2"@.len());
    assert("urgent"@.len() != "focusedmonv2"@.len());
    assert("urgent"@.len() != "activewindowv2"@.len());
    let d = a + seq![','] + b;
    crate::text::lemma_first_index_unique(d, ',', a.len() as int);
    crate::text::lemma_first_index_unique(a, ',', a.len() as int);
    assert(d.take(a.len() as int) =~= a);
    assert(d.skip(a.len() as int + 1) =~= b);
    assert(split_on(d, ',')[0] == a);
    assert(split_on(a, ',') == seq![a]);
    lemma_arrow_after("workspacev2"@, d);
    lemma_arrow_after("workspacev2"@, a);
    lemma_arrow_after("focusedmonv2"@, d);
    lemma_arrow_after("activewindowv2"@, Seq::<char>::empty());
    lemma_arrow_after("activewindowv2"@, b);
    lemma_arrow_after("urgent"@, b);
}

/// A line without `>>` is malformed; a line whose event the shell does
/// not follow is ignored.
pub proof fn other_lines_are_malformed_or_ignored(line: Seq<char>, name: Seq<char>, data: Seq<char>)
    ensures
        (forall|j: int| 0 <= j && j + 1 < line.len() ==> !(#[trigger] line[j] == '>' && line[j + 1] == '>'))
            ==> line_of(line) == LineEventView::Malformed,
        no_gt(name) && !(name == "workspacev2"@ || name == "focusedmonv2"@ || name == "activewindowv2"@
            || name == "urgent"@ || name == "openwindow"@ || name == "closewindow"@ || name == "movewindowv2"@
            || name == "windowtitlev2"@ || name == "createworkspacev2"@ || name == "destroyworkspacev2"@
            || name == "renameworkspace"@ || name == "moveworkspacev2"@ || name == "monitoradded"@
            || name == "monitorremoved"@) ==> line_of(name + ">>"@ + data) == LineEventView::Ignored,
{
    if forall|j: int| 0 <= j && j + 1 < line.len() ==> !(#[trigger] line[j] == '>' && line[j + 1] == '>') {
        lemma_arrow_at(line, line.len() as int);
    }
    if no_gt(name) {
        lemma_arrow_after(name, data);
    }
}

// ---------------------------------------------------------------------
// Commands

/// The dispatcher line for a command (Lua expressions since Hyprland
/// 0.56).
pub open spec fn dispatch_of(command: Seq<char>, is_window: bool) -> Seq<char> {
    if is_window {
        "dispatch hl.dsp.focus({ window = \"address:0x"@ + command + "\" })"@
    } else {
        "dispatch hl.dsp.focus({ workspace = "@ + command + " })"@
    }
}

pub fn dispatch(command: &crate::compositor::Command) -> (r: String)
    ensures
        r@ == (match command {
            crate::compositor::Command::ActivateWorkspace(id) => dispatch_of(id@, false),
            crate::compositor::Command::ActivateWindow(id) => dispatch_of(id@, true),
        }),
{
    let mut v: Vec<char> = Vec::new();
    match command {
        crate::compositor::Command::ActivateWorkspace(id) => {
            push_str(&mut v, "dispatch hl.dsp.focus({ workspace = ");
            push_str(&mut v, id.as_str());
            push_str(&mut v, " })");
        },
        crate::compositor::Command::ActivateWindow(id) => {
            push_str(&mut v, "dispatch hl.dsp.focus({ window = \"address:0x");
            push_str(&mut v, id.as_str());
            push_str(&mut v, "\" })");
        },
    }
    string_of(v.as_slice())
}

} // verus!
