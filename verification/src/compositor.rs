//! The compositor's view of the desktop: workspaces and windows, which
//! one is active, which need attention.
//!
//! The IPC connection is the caller's: it turns what the backend
//! reports into [`Event`]s for [`Compositor::apply`], and every gadget
//! reads the resulting state.
use vstd::prelude::*;

use crate::notifications::str_eq_string;

verus! {

#[derive(Debug)]
pub struct Workspace {
    pub id: String,
    pub name: String,
    /// Connector name of the output showing it, e.g. `HDMI-A-1`.
    pub output: String,
    /// The one currently shown on its output.
    pub active: bool,
    pub urgent: bool,
}

pub struct WorkspaceView {
    pub id: Seq<char>,
    pub name: Seq<char>,
    pub output: Seq<char>,
    pub active: bool,
    pub urgent: bool,
}

impl Workspace {
    /// A field-by-field copy.
    pub fn copy(&self) -> (r: Workspace)
        ensures
            r@ == self@,
    {
        Workspace {
            id: self.id.clone(),
            name: self.name.clone(),
            output: self.output.clone(),
            active: self.active,
            urgent: self.urgent,
        }
    }
}

impl View for Workspace {
    type V = WorkspaceView;

    open spec fn view(&self) -> WorkspaceView {
        WorkspaceView {
            id: self.id@,
            name: self.name@,
            output: self.output@,
            active: self.active,
            urgent: self.urgent,
        }
    }
}

#[derive(Debug)]
pub struct Window {
    pub id: String,
    /// The app id (X11 "class"): `firefox`, `kitty`, ...
    pub class: String,
    pub title: String,
    pub workspace_id: String,
    pub active: bool,
    pub urgent: bool,
}

pub struct WindowView {
    pub id: Seq<char>,
    pub class: Seq<char>,
    pub title: Seq<char>,
    pub workspace_id: Seq<char>,
    pub active: bool,
    pub urgent: bool,
}

impl Window {
    /// A field-by-field copy.
    pub fn copy(&self) -> (r: Window)
        ensures
            r@ == self@,
    {
        Window {
            id: self.id.clone(),
            class: self.class.clone(),
            title: self.title.clone(),
            workspace_id: self.workspace_id.clone(),
            active: self.active,
            urgent: self.urgent,
        }
    }
}

impl View for Window {
    type V = WindowView;

    open spec fn view(&self) -> WindowView {
        WindowView {
            id: self.id@,
            class: self.class@,
            title: self.title@,
            workspace_id: self.workspace_id@,
            active: self.active,
            urgent: self.urgent,
        }
    }
}

/// What a backend reports. Full-list events replace the current list
/// (keeping the active/urgent flags), the others patch it.
pub enum Event {
    Workspaces(Vec<Workspace>),
    Windows(Vec<Window>),
    /// This workspace is now the one shown on its output.
    ActiveWorkspace(String),
    ActiveWindow(Option<String>),
    UrgentWindow(String),
    /// Keyboard focus moved to this output (connector name).
    FocusedOutput(String),
}

/// What a gadget asks of the compositor.
#[derive(Debug)]
pub enum Command {
    ActivateWorkspace(String),
    ActivateWindow(String),
}

#[derive(Debug, Clone, Copy, PartialEq, Eq, Structural)]
pub enum Backend {
    Hyprland,
}

pub open spec fn ws_view(v: Seq<Workspace>) -> Seq<WorkspaceView> {
    v.map_values(|w: Workspace| w@)
}

pub open spec fn win_view(v: Seq<Window>) -> Seq<WindowView> {
    v.map_values(|w: Window| w@)
}

/// Index of the first workspace with `id`; `s.len()` if none.
pub open spec fn ws_index(s: Seq<WorkspaceView>, id: Seq<char>) -> int
    decreases s.len(),
{
    if s.len() == 0 {
        0
    } else if s[0].id == id {
        0
    } else {
        ws_index(s.drop_first(), id) + 1
    }
}

pub open spec fn win_index(s: Seq<WindowView>, id: Seq<char>) -> int
    decreases s.len(),
{
    if s.len() == 0 {
        0
    } else if s[0].id == id {
        0
    } else {
        win_index(s.drop_first(), id) + 1
    }
}

proof fn lemma_ws_index(s: Seq<WorkspaceView>, id: Seq<char>, i: int)
    requires
        0 <= i <= s.len(),
        i < s.len() ==> s[i].id == id,
        forall|j: int| 0 <= j < i ==> #[trigger] s[j].id != id,
    ensures
        ws_index(s, id) == i,
    decreases s.len(),
{
    if s.len() > 0 && i > 0 {
        assert(s[0].id != id);
        assert forall|j: int| 0 <= j < i - 1 implies #[trigger] s.drop_first()[j].id != id by {
            assert(s.drop_first()[j] == s[j + 1]);
        }
        lemma_ws_index(s.drop_first(), id, i - 1);
    }
}

proof fn lemma_win_index(s: Seq<WindowView>, id: Seq<char>, i: int)
    requires
        0 <= i <= s.len(),
        i < s.len() ==> s[i].id == id,
        forall|j: int| 0 <= j < i ==> #[trigger] s[j].id != id,
    ensures
        win_index(s, id) == i,
    decreases s.len(),
{
    if s.len() > 0 && i > 0 {
        assert(s[0].id != id);
        assert forall|j: int| 0 <= j < i - 1 implies #[trigger] s.drop_first()[j].id != id by {
            assert(s.drop_first()[j] == s[j + 1]);
        }
        lemma_win_index(s.drop_first(), id, i - 1);
    }
}

/// `w` with the flags of the workspace it replaces in `old`, if any.
pub open spec fn carried_ws(w: WorkspaceView, old: Seq<WorkspaceView>) -> WorkspaceView {
    let i = ws_index(old, w.id);
    if 0 <= i < old.len() {
        WorkspaceView { active: old[i].active, urgent: old[i].urgent, ..w }
    } else {
        w
    }
}

pub open spec fn carried_win(w: WindowView, old: Seq<WindowView>) -> WindowView {
    let i = win_index(old, w.id);
    if 0 <= i < old.len() {
        WindowView { active: old[i].active, urgent: old[i].urgent, ..w }
    } else {
        w
    }
}

/// Whether some urgent window sits on workspace `id`.
pub open spec fn has_urgent(windows: Seq<WindowView>, id: Seq<char>) -> bool {
    exists|k: int| 0 <= k < windows.len() && #[trigger] windows[k].urgent && windows[k].workspace_id == id
}

/// Every workspace urgent exactly while one of its windows is.
pub open spec fn urgency_synced(workspaces: Seq<WorkspaceView>, windows: Seq<WindowView>) -> bool {
    forall|j: int| 0 <= j < workspaces.len() ==> #[trigger] workspaces[j].urgent == has_urgent(windows, workspaces[j].id)
}

/// The workspaces with their urgency recomputed from the windows.
pub open spec fn synced(workspaces: Seq<WorkspaceView>, windows: Seq<WindowView>) -> Seq<WorkspaceView> {
    workspaces.map_values(|w: WorkspaceView| WorkspaceView { urgent: has_urgent(windows, w.id), ..w })
}

/// The windows after the active one changed.
pub open spec fn focused(windows: Seq<WindowView>, id: Option<Seq<char>>) -> Seq<WindowView> {
    windows.map_values(|w: WindowView| {
        let active = id == Some(w.id);
        WindowView { active, urgent: if active { false } else { w.urgent }, ..w }
    })
}

/// The workspaces after `id` became the one shown on its output.
pub open spec fn activated(workspaces: Seq<WorkspaceView>, id: Seq<char>) -> Seq<WorkspaceView> {
    let i = ws_index(workspaces, id);
    if 0 <= i < workspaces.len() {
        let output = workspaces[i].output;
        workspaces.map_values(|w: WorkspaceView| if w.output == output {
            WorkspaceView { active: w.id == id, ..w }
        } else {
            w
        })
    } else {
        workspaces
    }
}

/// No two workspaces share an id.
pub open spec fn unique_ids(ws: Seq<WorkspaceView>) -> bool {
    forall|i: int, j: int| 0 <= i < ws.len() && 0 <= j < ws.len() && i != j ==> #[trigger] ws[i].id != #[trigger] ws[j].id
}

/// At most one workspace per output is the one shown.
pub open spec fn one_shown_per_output(ws: Seq<WorkspaceView>) -> bool {
    forall|i: int, j: int|
        0 <= i < ws.len() && 0 <= j < ws.len() && i != j && #[trigger] ws[i].active && #[trigger] ws[j].active
            ==> ws[i].output != ws[j].output
}

/// Activating a known workspace shows it, hides every other workspace
/// of its output, and leaves the other outputs alone; an unknown id
/// changes nothing.
pub proof fn activation_is_per_output(ws: Seq<WorkspaceView>, id: Seq<char>)
    ensures
        ({
            let r = activated(ws, id);
            let k = ws_index(ws, id);
            &&& r.len() == ws.len()
            &&& 0 <= k < ws.len() ==> forall|j: int| 0 <= j < ws.len() ==> {
                &&& #[trigger] r[j].id == ws[j].id
                &&& r[j].output == ws[j].output
                &&& r[j].urgent == ws[j].urgent
                &&& (ws[j].output == ws[k].output ==> r[j].active == (ws[j].id == id))
                &&& (ws[j].output != ws[k].output ==> r[j].active == ws[j].active)
            }
            &&& !(0 <= k < ws.len()) ==> r == ws
        }),
{
}

/// With distinct ids, activation keeps at most one shown workspace per
/// output.
pub proof fn one_shown_per_output_is_kept(ws: Seq<WorkspaceView>, id: Seq<char>)
    requires
        unique_ids(ws),
        one_shown_per_output(ws),
    ensures
        one_shown_per_output(activated(ws, id)),
{
    let r = activated(ws, id);
    let k = ws_index(ws, id);
    if 0 <= k < ws.len() {
        assert forall|i: int, j: int|
            0 <= i < r.len() && 0 <= j < r.len() && i != j && #[trigger] r[i].active && #[trigger] r[j].active
                implies r[i].output != r[j].output by {
            if r[i].output == r[j].output && r[i].output == ws[k].output {
                assert(ws[i].id == id && ws[j].id == id);
                assert(ws[i].id != ws[j].id);
            }
            if r[i].output == r[j].output && r[i].output != ws[k].output {
                assert(ws[i].active && ws[j].active);
            }
        }
    }
}

/// After the urgency is recomputed, every workspace is urgent exactly
/// while one of its windows is.
pub proof fn synced_urgency_holds(ws: Seq<WorkspaceView>, windows: Seq<WindowView>)
    ensures
        urgency_synced(synced(ws, windows), windows),
        synced(ws, windows).len() == ws.len(),
{
}

/// Focusing a window makes it the only active one and clears its
/// urgency; the others keep theirs.
pub proof fn focus_clears_urgency(windows: Seq<WindowView>, id: Option<Seq<char>>)
    ensures
        ({
            let r = focused(windows, id);
            &&& r.len() == windows.len()
            &&& forall|j: int| 0 <= j < windows.len() ==> {
                &&& (#[trigger] r[j]).id == windows[j].id
                &&& r[j].workspace_id == windows[j].workspace_id
                &&& r[j].active == (id == Some(windows[j].id))
                &&& (r[j].active ==> !r[j].urgent)
                &&& (!r[j].active ==> r[j].urgent == windows[j].urgent)
            }
        }),
{
}

/// A refreshed list keeps, for each entry already known by id, the
/// active and urgent flags it had; new entries keep their own.
pub proof fn refresh_keeps_flags(old: Seq<WorkspaceView>, list: Seq<WorkspaceView>)
    ensures
        ({
            let r = list.map_values(|w: WorkspaceView| carried_ws(w, old));
            &&& r.len() == list.len()
            &&& forall|j: int| 0 <= j < list.len() ==> {
                let k = ws_index(old, list[j].id);
                &&& (#[trigger] r[j]).id == list[j].id
                &&& r[j].name == list[j].name
                &&& r[j].output == list[j].output
                &&& (0 <= k < old.len() ==> r[j].active == old[k].active && r[j].urgent == old[k].urgent)
                &&& (!(0 <= k < old.len()) ==> r[j] == list[j])
            }
        }),
{
}

/// The same for windows.
pub proof fn refresh_keeps_window_flags(old: Seq<WindowView>, list: Seq<WindowView>)
    ensures
        ({
            let r = list.map_values(|w: WindowView| carried_win(w, old));
            &&& r.len() == list.len()
            &&& forall|j: int| 0 <= j < list.len() ==> {
                let k = win_index(old, list[j].id);
                &&& (#[trigger] r[j]).id == list[j].id
                &&& r[j].workspace_id == list[j].workspace_id
                &&& (0 <= k < old.len() ==> r[j].active == old[k].active && r[j].urgent == old[k].urgent)
                &&& (!(0 <= k < old.len()) ==> r[j] == list[j])
            }
        }),
{
}

#[derive(Debug)]
pub struct Compositor {
    /// The compositor whose IPC feeds this state, if one was found.
    pub backend: Option<Backend>,
    pub workspaces: Vec<Workspace>,
    pub windows: Vec<Window>,
    /// Connector name of the output with keyboard focus.
    pub focused_output: Option<String>,
}

impl Default for Compositor {
    fn default() -> (r: Compositor)
        ensures
            r.backend is None,
            r.workspaces@.len() == 0,
            r.windows@.len() == 0,
            r.focused_output is None,
    {
        Compositor { backend: None, workspaces: Vec::new(), windows: Vec::new(), focused_output: None }
    }
}

impl Compositor {
    /// No backend: nothing is reported.
    pub fn new() -> (r: Compositor)
        ensures
            r.backend is None,
            ws_view(r.workspaces@) == Seq::<WorkspaceView>::empty(),
            win_view(r.windows@) == Seq::<WindowView>::empty(),
            r.focused_output is None,
    {
        let r = Compositor { backend: None, workspaces: Vec::new(), windows: Vec::new(), focused_output: None };
        assert(ws_view(r.workspaces@) =~= Seq::<WorkspaceView>::empty());
        assert(win_view(r.windows@) =~= Seq::<WindowView>::empty());
        r
    }

    /// The backend the environment offers: Hyprland when its instance
    /// signature is set (the caller looks), else none.
    pub fn detect(hyprland_available: bool) -> (r: Compositor)
        ensures
            r.backend == (if hyprland_available {
                Some(Backend::Hyprland)
            } else {
                None
            }),
            ws_view(r.workspaces@) == Seq::<WorkspaceView>::empty(),
            win_view(r.windows@) == Seq::<WindowView>::empty(),
            r.focused_output is None,
    {
        let mut r = Compositor::new();
        if hyprland_available {
            r.backend = Some(Backend::Hyprland);
        }
        r
    }

    /// Index of the first workspace with `id`.
    fn find_workspace(list: &Vec<Workspace>, id: &String) -> (r: usize)
        ensures
            r == ws_index(ws_view(list@), id@),
            r <= list.len(),
    {
        let mut i: usize = 0;
        while i < list.len() && !str_eq_string(&list[i].id, id)
            invariant
                i <= list.len(),
                forall|j: int| 0 <= j < i ==> #[trigger] ws_view(list@)[j].id != id@,
            decreases list.len() - i,
        {
            assert(ws_view(list@)[i as int] == list@[i as int]@);
            i = i + 1;
        }
        proof {
            if i < list.len() {
                assert(ws_view(list@)[i as int] == list@[i as int]@);
            }
            lemma_ws_index(ws_view(list@), id@, i as int);
        }
        i
    }

    fn find_window(list: &Vec<Window>, id: &String) -> (r: usize)
        ensures
            r == win_index(win_view(list@), id@),
            r <= list.len(),
    {
        let mut i: usize = 0;
        while i < list.len() && !str_eq_string(&list[i].id, id)
            invariant
                i <= list.len(),
                forall|j: int| 0 <= j < i ==> #[trigger] win_view(list@)[j].id != id@,
            decreases list.len() - i,
        {
            assert(win_view(list@)[i as int] == list@[i as int]@);
            i = i + 1;
        }
        proof {
            if i < list.len() {
                assert(win_view(list@)[i as int] == list@[i as int]@);
            }
            lemma_win_index(win_view(list@), id@, i as int);
        }
        i
    }

    /// Whether an urgent window sits on workspace `id`.
    fn any_urgent(windows: &Vec<Window>, id: &String) -> (r: bool)
        ensures
            r == has_urgent(win_view(windows@), id@),
    {
        let mut i: usize = 0;
        while i < windows.len()
            invariant
                i <= windows.len(),
                forall|k: int| 0 <= k < i ==> !(#[trigger] win_view(windows@)[k].urgent && win_view(windows@)[k].workspace_id == id@),
            decreases windows.len() - i,
        {
            assert(win_view(windows@)[i as int] == windows@[i as int]@);
            if windows[i].urgent && str_eq_string(&windows[i].workspace_id, id) {
                assert(win_view(windows@)[i as int].urgent && win_view(windows@)[i as int].workspace_id == id@);
                return true;
            }
            i = i + 1;
        }
        false
    }

    /// A workspace is urgent while any of its windows is.
    fn sync_urgent_workspaces(&mut self)
        ensures
            ws_view(final(self).workspaces@) == synced(ws_view(old(self).workspaces@), win_view(old(self).windows@)),
            win_view(final(self).windows@) == win_view(old(self).windows@),
            final(self).backend == old(self).backend,
            final(self).focused_output == old(self).focused_output,
    {
        let ghost w0 = ws_view(self.workspaces@);
        let ghost target = synced(w0, win_view(self.windows@));
        let mut i: usize = 0;
        while i < self.workspaces.len()
            invariant
                i <= self.workspaces.len(),
                self.workspaces.len() == w0.len(),
                target == synced(w0, win_view(self.windows@)),
                forall|j: int| 0 <= j < i ==> #[trigger] ws_view(self.workspaces@)[j] == target[j],
                forall|j: int| i <= j < w0.len() ==> #[trigger] ws_view(self.workspaces@)[j] == w0[j],
                win_view(self.windows@) == win_view(old(self).windows@),
                self.backend == old(self).backend,
                self.focused_output == old(self).focused_output,
            decreases self.workspaces.len() - i,
        {
            let ghost before = self.workspaces@;
            assert(ws_view(before)[i as int] == w0[i as int]);
            let u = Compositor::any_urgent(&self.windows, &self.workspaces[i].id);
            let mut ws = self.workspaces[i].copy();
            ws.urgent = u;
            self.workspaces.set(i, ws);
            proof {
                assert forall|j: int| 0 <= j < w0.len() && j != i implies #[trigger] ws_view(self.workspaces@)[j] == ws_view(before)[j] by {}
                assert(ws_view(self.workspaces@)[i as int] == target[i as int]);
            }
            i = i + 1;
        }
        assert(ws_view(self.workspaces@) =~= target);
    }

    /// Apply what the backend reported.
    pub fn apply(&mut self, event: Event)
        ensures
            final(self).backend == old(self).backend,
            match event {
                Event::Workspaces(list) => {
                    &&& ws_view(final(self).workspaces@) == ws_view(list@).map_values(
                        |w: WorkspaceView| carried_ws(w, ws_view(old(self).workspaces@)),
                    )
                    &&& win_view(final(self).windows@) == win_view(old(self).windows@)
                    &&& final(self).focused_output == old(self).focused_output
                },
                Event::Windows(list) => {
                    let wins = win_view(list@).map_values(
                        |w: WindowView| carried_win(w, win_view(old(self).windows@)),
                    );
                    &&& win_view(final(self).windows@) == wins
                    &&& ws_view(final(self).workspaces@) == synced(ws_view(old(self).workspaces@), wins)
                    &&& final(self).focused_output == old(self).focused_output
                },
                Event::ActiveWorkspace(id) => {
                    &&& ws_view(final(self).workspaces@) == activated(ws_view(old(self).workspaces@), id@)
                    &&& win_view(final(self).windows@) == win_view(old(self).windows@)
                    &&& final(self).focused_output == old(self).focused_output
                },
                Event::ActiveWindow(id) => {
                    let wins = focused(win_view(old(self).windows@), match id {
                        Some(s) => Some(s@),
                        None => None,
                    });
                    &&& win_view(final(self).windows@) == wins
                    &&& ws_view(final(self).workspaces@) == synced(ws_view(old(self).workspaces@), wins)
                    &&& final(self).focused_output == old(self).focused_output
                },
                Event::UrgentWindow(id) => {
                    let old_wins = win_view(old(self).windows@);
                    let i = win_index(old_wins, id@);
                    let wins = if 0 <= i < old_wins.len() {
                        old_wins.update(i, WindowView { urgent: true, ..old_wins[i] })
                    } else {
                        old_wins
                    };
                    &&& win_view(final(self).windows@) == wins
                    &&& ws_view(final(self).workspaces@) == synced(ws_view(old(self).workspaces@), wins)
                    &&& final(self).focused_output == old(self).focused_output
                },
                Event::FocusedOutput(name) => {
                    &&& final(self).focused_output matches Some(o) && o@ == name@
                    &&& ws_view(final(self).workspaces@) == ws_view(old(self).workspaces@)
                    &&& win_view(final(self).windows@) == win_view(old(self).windows@)
                },
            },
    {
        match event {
            Event::Workspaces(list) => self.set_workspaces(list),
            Event::Windows(list) => {
                self.set_windows(list);
                self.sync_urgent_workspaces();
            },
            Event::ActiveWorkspace(id) => self.activate_workspace(&id),
            Event::ActiveWindow(id) => {
                self.activate_window(&id);
                self.sync_urgent_workspaces();
            },
            Event::UrgentWindow(id) => {
                let i = Compositor::find_window(&self.windows, &id);
                if i < self.windows.len() {
                    let ghost before = self.windows@;
                    let mut w = self.windows[i].copy();
                    w.urgent = true;
                    self.windows.set(i, w);
                    assert(win_view(self.windows@) =~= win_view(before).update(
                        i as int,
                        WindowView { urgent: true, ..win_view(before)[i as int] },
                    ));
                }
                self.sync_urgent_workspaces();
            },
            Event::FocusedOutput(name) => self.focused_output = Some(name),
        }
    }

    fn set_workspaces(&mut self, list: Vec<Workspace>)
        ensures
            ws_view(final(self).workspaces@) == ws_view(list@).map_values(
                |w: WorkspaceView| carried_ws(w, ws_view(old(self).workspaces@)),
            ),
            win_view(final(self).windows@) == win_view(old(self).windows@),
            final(self).backend == old(self).backend,
            final(self).focused_output == old(self).focused_output,
    {
        let mut list = list;
        let ghost l0 = ws_view(list@);
        let ghost old_ws = ws_view(self.workspaces@);
        let ghost target = l0.map_values(|w: WorkspaceView| carried_ws(w, old_ws));
        let mut i: usize = 0;
        while i < list.len()
            invariant
                i <= list.len(),
                list.len() == l0.len(),
                old_ws == ws_view(self.workspaces@),
                target == l0.map_values(|w: WorkspaceView| carried_ws(w, old_ws)),
                forall|j: int| 0 <= j < i ==> #[trigger] ws_view(list@)[j] == target[j],
                forall|j: int| i <= j < l0.len() ==> #[trigger] ws_view(list@)[j] == l0[j],
            decreases list.len() - i,
        {
            let ghost before = list@;
            assert(ws_view(before)[i as int] == l0[i as int]);
            let k = Compositor::find_workspace(&self.workspaces, &list[i].id);
            if k < self.workspaces.len() {
                assert(old_ws[k as int] == self.workspaces@[k as int]@);
                let mut ws = list[i].copy();
                ws.active = self.workspaces[k].active;
                ws.urgent = self.workspaces[k].urgent;
                list.set(i, ws);
            }
            proof {
                assert forall|j: int| 0 <= j < l0.len() && j != i implies #[trigger] ws_view(list@)[j] == ws_view(before)[j] by {}
                assert(ws_view(list@)[i as int] == target[i as int]);
            }
            i = i + 1;
        }
        assert(ws_view(list@) =~= target);
        self.workspaces = list;
    }

    fn set_windows(&mut self, list: Vec<Window>)
        ensures
            win_view(final(self).windows@) == win_view(list@).map_values(
                |w: WindowView| carried_win(w, win_view(old(self).windows@)),
            ),
            ws_view(final(self).workspaces@) == ws_view(old(self).workspaces@),
            final(self).backend == old(self).backend,
            final(self).focused_output == old(self).focused_output,
    {
        let mut list = list;
        let ghost l0 = win_view(list@);
        let ghost old_w = win_view(self.windows@);
        let ghost target = l0.map_values(|w: WindowView| carried_win(w, old_w));
        let mut i: usize = 0;
        while i < list.len()
            invariant
                i <= list.len(),
                list.len() == l0.len(),
                old_w == win_view(self.windows@),
                target == l0.map_values(|w: WindowView| carried_win(w, old_w)),
                forall|j: int| 0 <= j < i ==> #[trigger] win_view(list@)[j] == target[j],
                forall|j: int| i <= j < l0.len() ==> #[trigger] win_view(list@)[j] == l0[j],
            decreases list.len() - i,
        {
            let ghost before = list@;
            assert(win_view(before)[i as int] == l0[i as int]);
            let k = Compositor::find_window(&self.windows, &list[i].id);
            if k < self.windows.len() {
                assert(old_w[k as int] == self.windows@[k as int]@);
                let mut w = list[i].copy();
                w.active = self.windows[k].active;
                w.urgent = self.windows[k].urgent;
                list.set(i, w);
            }
            proof {
                assert forall|j: int| 0 <= j < l0.len() && j != i implies #[trigger] win_view(list@)[j] == win_view(before)[j] by {}
                assert(win_view(list@)[i as int] == target[i as int]);
            }
            i = i + 1;
        }
        assert(win_view(list@) =~= target);
        self.windows = list;
    }

    fn activate_workspace(&mut self, id: &String)
        ensures
            ws_view(final(self).workspaces@) == activated(ws_view(old(self).workspaces@), id@),
            win_view(final(self).windows@) == win_view(old(self).windows@),
            final(self).backend == old(self).backend,
            final(self).focused_output == old(self).focused_output,
    {
        let k = Compositor::find_workspace(&self.workspaces, id);
        if k >= self.workspaces.len() {
            return;
        }
        let ghost w0 = ws_view(self.workspaces@);
        assert(w0[k as int] == self.workspaces@[k as int]@);
        let output = self.workspaces[k].output.clone();
        let ghost target = activated(w0, id@);
        let mut i: usize = 0;
        while i < self.workspaces.len()
            invariant
                i <= self.workspaces.len(),
                self.workspaces.len() == w0.len(),
                0 <= k < w0.len(),
                ws_index(w0, id@) == k,
                output@ == w0[k as int].output,
                target == activated(w0, id@),
                forall|j: int| 0 <= j < i ==> #[trigger] ws_view(self.workspaces@)[j] == target[j],
                forall|j: int| i <= j < w0.len() ==> #[trigger] ws_view(self.workspaces@)[j] == w0[j],
                win_view(self.windows@) == win_view(old(self).windows@),
                self.backend == old(self).backend,
                self.focused_output == old(self).focused_output,
            decreases self.workspaces.len() - i,
        {
            let ghost before = self.workspaces@;
            assert(ws_view(before)[i as int] == w0[i as int]);
            if str_eq_string(&self.workspaces[i].output, &output) {
                let mut ws = self.workspaces[i].copy();
                ws.active = str_eq_string(&ws.id, id);
                self.workspaces.set(i, ws);
            }
            proof {
                assert forall|j: int| 0 <= j < w0.len() && j != i implies #[trigger] ws_view(self.workspaces@)[j] == ws_view(before)[j] by {}
                assert(ws_view(self.workspaces@)[i as int] == target[i as int]);
            }
            i = i + 1;
        }
        assert(ws_view(self.workspaces@) =~= target);
    }

    fn activate_window(&mut self, id: &Option<String>)
        ensures
            win_view(final(self).windows@) == focused(win_view(old(self).windows@), match id {
                Some(s) => Some(s@),
                None => None,
            }),
            ws_view(final(self).workspaces@) == ws_view(old(self).workspaces@),
            final(self).backend == old(self).backend,
            final(self).focused_output == old(self).focused_output,
    {
        let ghost w0 = win_view(self.windows@);
        let ghost sid: Option<Seq<char>> = match id {
            Some(s) => Some(s@),
            None => None,
        };
        let ghost target = focused(w0, sid);
        let mut i: usize = 0;
        while i < self.windows.len()
            invariant
                i <= self.windows.len(),
                self.windows.len() == w0.len(),
                sid == (match id {
                    Some(s) => Some(s@),
                    None => None::<Seq<char>>,
                }),
                target == focused(w0, sid),
                forall|j: int| 0 <= j < i ==> #[trigger] win_view(self.windows@)[j] == target[j],
                forall|j: int| i <= j < w0.len() ==> #[trigger] win_view(self.windows@)[j] == w0[j],
                ws_view(self.workspaces@) == ws_view(old(self).workspaces@),
                self.backend == old(self).backend,
                self.focused_output == old(self).focused_output,
            decreases self.windows.len() - i,
        {
            let ghost before = self.windows@;
            assert(win_view(before)[i as int] == w0[i as int]);
            let mut w = self.windows[i].copy();
            w.active = match id {
                Some(s) => str_eq_string(s, &w.id),
                None => false,
            };
            if w.active {
                w.urgent = false;
            }
            self.windows.set(i, w);
            proof {
                assert forall|j: int| 0 <= j < w0.len() && j != i implies #[trigger] win_view(self.windows@)[j] == win_view(before)[j] by {}
                assert(win_view(self.windows@)[i as int] == target[i as int]);
            }
            i = i + 1;
        }
        assert(win_view(self.windows@) =~= target);
    }

    /// Windows on the given workspace, in the backend's order.
    pub fn windows_of(&self, workspace: &Workspace) -> (r: Vec<Window>)
        ensures
            win_view(r@) == win_view(self.windows@).filter(
                |w: WindowView| w.workspace_id == workspace.id@,
            ),
    {
        let mut r: Vec<Window> = Vec::new();
        let ghost all = win_view(self.windows@);
        let mut i: usize = 0;
        while i < self.windows.len()
            invariant
                i <= self.windows.len(),
                all == win_view(self.windows@),
                win_view(r@) == all.take(i as int).filter(|w: WindowView| w.workspace_id == workspace.id@),
            decreases self.windows.len() - i,
        {
            let ghost old_r = win_view(r@);
            assert(all.take(i + 1).drop_last() =~= all.take(i as int));
            reveal_with_fuel(Seq::filter, 1);
            assert(all[i as int] == self.windows@[i as int]@);
            if str_eq_string(&self.windows[i].workspace_id, &workspace.id) {
                let w = self.windows[i].copy();
                r.push(w);
                assert(win_view(r@) =~= old_r.push(all[i as int]));
            }
            i = i + 1;
        }
        assert(all.take(self.windows.len() as int) =~= all);
        r
    }
}

} // verus!
