//! The shell's bookkeeping of its surfaces and what it decides from it:
//! which window is a panel (on which output, for which section), a popup
//! (of which panel), the launcher and the click-catching surfaces under
//! it; what a launcher command, a click while the launcher is open, a
//! surface going away or an output being unplugged leads to. Windows are
//! numbered by the caller, outputs by their global name; opening and
//! closing the surfaces is the caller's.
use vstd::prelude::*;

use crate::commands::LauncherCommand;
use crate::notifications::str_is;

verus! {

/// What a launcher command comes to.
#[derive(Debug, Clone, Copy, PartialEq, Eq, Structural)]
pub enum LauncherStep {
    Open,
    Close,
    Nothing,
}

/// `show` and `toggle` open a hidden launcher, `hide` and `toggle`
/// close a shown one; anything else is nothing.
pub fn launcher_step(cmd: LauncherCommand, shown: bool) -> (r: LauncherStep)
    ensures
        r == (match (cmd, shown) {
            (LauncherCommand::Show, false) | (LauncherCommand::Toggle, false) => LauncherStep::Open,
            (LauncherCommand::Hide, true) | (LauncherCommand::Toggle, true) => LauncherStep::Close,
            _ => LauncherStep::Nothing,
        }),
{
    match (cmd, shown) {
        (LauncherCommand::Show, false) | (LauncherCommand::Toggle, false) => LauncherStep::Open,
        (LauncherCommand::Hide, true) | (LauncherCommand::Toggle, true) => LauncherStep::Close,
        _ => LauncherStep::Nothing,
    }
}

/// Whether an output's name is `f`.
pub open spec fn named(o: Option<String>, f: Seq<char>) -> bool {
    match o {
        Some(n) => n@ == f,
        None => false,
    }
}

/// Output `i` is the first named `f`.
pub open spec fn first_named(names: Seq<Option<String>>, f: Seq<char>, i: int) -> bool {
    &&& named(names[i], f)
    &&& forall|j: int| 0 <= j < i ==> !#[trigger] named(names[j], f)
}

/// The output new toasts and the launcher go to, given the outputs'
/// names in order: the first named as the focused output, else the
/// first; `None` with no output at all.
pub fn focused_output(names: &[Option<String>], focused: Option<&str>) -> (r: Option<usize>)
    ensures
        names@.len() == 0 <==> r is None,
        r matches Some(i) ==> i < names@.len(),
        r matches Some(i) ==> match focused {
            Some(f) => if exists|k: int| 0 <= k < names@.len() && #[trigger] named(names@[k], f@) {
                first_named(names@, f@, i as int)
            } else {
                i == 0
            },
            None => i == 0,
        },
{
    if names.len() == 0 {
        return None;
    }
    if let Some(f) = focused {
        let mut i: usize = 0;
        while i < names.len()
            invariant
                i <= names@.len(),
                names@.len() > 0,
                focused == Some(f),
                forall|j: int| 0 <= j < i ==> !#[trigger] named(names@[j], f@),
            decreases names@.len() - i,
        {
            if let Some(n) = &names[i] {
                if str_is(n, f) {
                    assert(named(names@[i as int], f@));
                    return Some(i);
                }
            }
            i += 1;
        }
    }
    Some(0)
}

/// A panel surface: its window, its output and its section.
#[derive(Debug)]
pub struct PanelSurface {
    pub window: u64,
    pub output: u32,
    pub section: String,
}

/// What went away when a surface closed.
#[derive(Debug, PartialEq, Eq)]
pub enum Closed {
    /// One of the launcher's surfaces: these are to close as well.
    Launcher(Vec<u64>),
    /// A panel: its popups are forgotten.
    Panel,
    /// A popup of the panel in this window (which is told).
    Popup(u64),
    /// A popup whose panel is gone already.
    Orphan,
    /// Not one of these.
    Other,
}

/// The pointer was last seen over a window other than `l`.
pub open spec fn elsewhere(cursor: Option<u64>, l: u64) -> bool {
    match cursor {
        Some(c) => c != l,
        None => false,
    }
}

/// The surfaces the shell has open, but for the notifications'.
pub struct Surfaces {
    panels: Vec<PanelSurface>,
    /// (popup window, its panel's window), in the order they opened.
    popups: Vec<(u64, u64)>,
    /// The launcher's window and output, while shown.
    launcher: Option<(u64, u32)>,
    /// One surface per output under the launcher, so that a click
    /// anywhere else closes it.
    grabs: Vec<(u64, u32)>,
    /// The window the pointer was last seen over.
    cursor: Option<u64>,
}

pub open spec fn panel_view(p: PanelSurface) -> (u64, u32, Seq<char>) {
    (p.window, p.output, p.section@)
}

pub open spec fn windows_of(s: Seq<(u64, u32)>) -> Seq<u64> {
    s.map_values(|g: (u64, u32)| g.0)
}

impl Surfaces {
    pub closed spec fn spec_panels(&self) -> Seq<(u64, u32, Seq<char>)> {
        self.panels@.map_values(|p: PanelSurface| panel_view(p))
    }

    pub closed spec fn spec_popups(&self) -> Seq<(u64, u64)> {
        self.popups@
    }

    pub closed spec fn spec_launcher(&self) -> Option<(u64, u32)> {
        self.launcher
    }

    pub closed spec fn spec_grabs(&self) -> Seq<(u64, u32)> {
        self.grabs@
    }

    pub closed spec fn spec_cursor(&self) -> Option<u64> {
        self.cursor
    }

    /// Nothing open.
    pub fn new() -> (r: Surfaces)
        ensures
            r.spec_panels().len() == 0,
            r.spec_popups().len() == 0,
            r.spec_launcher() is None,
            r.spec_grabs().len() == 0,
            r.spec_cursor() is None,
    {
        let r = Surfaces { panels: Vec::new(), popups: Vec::new(), launcher: None, grabs: Vec::new(), cursor: None };
        assert(r.spec_panels() =~= Seq::empty());
        r
    }

    pub fn panels(&self) -> (r: &[PanelSurface])
        ensures
            r@.map_values(|p: PanelSurface| panel_view(p)) == self.spec_panels(),
    {
        self.panels.as_slice()
    }

    pub fn popups(&self) -> (r: &[(u64, u64)])
        ensures
            r@ == self.spec_popups(),
    {
        self.popups.as_slice()
    }

    pub fn launcher(&self) -> (r: Option<(u64, u32)>)
        ensures
            r == self.spec_launcher(),
    {
        self.launcher
    }

    pub fn grabs(&self) -> (r: &[(u64, u32)])
        ensures
            r@ == self.spec_grabs(),
    {
        self.grabs.as_slice()
    }

    pub fn cursor(&self) -> (r: Option<u64>)
        ensures
            r == self.spec_cursor(),
    {
        self.cursor
    }

    /// The pointer moved over `window`.
    pub fn cursor_moved(&mut self, window: u64)
        ensures
            final(self).spec_cursor() == Some(window),
            final(self).spec_panels() == old(self).spec_panels(),
            final(self).spec_popups() == old(self).spec_popups(),
            final(self).spec_launcher() == old(self).spec_launcher(),
            final(self).spec_grabs() == old(self).spec_grabs(),
    {
        self.cursor = Some(window);
    }

    /// Whether section `section`'s panel is shown on `output` already
    /// (an output may be announced more than once).
    pub fn shown(&self, output: u32, section: &str) -> (r: bool)
        ensures
            r == exists|i: int|
                0 <= i < self.spec_panels().len() && (#[trigger] self.spec_panels()[i]).1 == output
                    && self.spec_panels()[i].2 == section@,
    {
        let mut i: usize = 0;
        while i < self.panels.len()
            invariant
                i <= self.panels@.len(),
                forall|j: int|
                    0 <= j < i ==> !((#[trigger] self.panels@[j]).output == output && self.panels@[j].section@
                        == section@),
            decreases self.panels@.len() - i,
        {
            if self.panels[i].output == output && str_is(&self.panels[i].section, section) {
                assert(self.spec_panels()[i as int].1 == output && self.spec_panels()[i as int].2 == section@);
                return true;
            }
            i += 1;
        }
        assert forall|j: int| 0 <= j < self.spec_panels().len() implies !((#[trigger] self.spec_panels()[j]).1 == output
            && self.spec_panels()[j].2 == section@) by {
            assert(self.spec_panels()[j] == panel_view(self.panels@[j]));
        }
        false
    }

    /// Section `section`'s panel opened as `window` on `output`.
    pub fn panel_opened(&mut self, window: u64, output: u32, section: String)
        ensures
            final(self).spec_panels() == old(self).spec_panels().push((window, output, section@)),
            final(self).spec_popups() == old(self).spec_popups(),
            final(self).spec_launcher() == old(self).spec_launcher(),
            final(self).spec_grabs() == old(self).spec_grabs(),
            final(self).spec_cursor() == old(self).spec_cursor(),
    {
        let ghost before = self.panels@;
        self.panels.push(PanelSurface { window, output, section });
        assert(self.panels@.map_values(|p: PanelSurface| panel_view(p)) =~= before.map_values(
            |p: PanelSurface| panel_view(p),
        ).push((window, output, section@)));
    }

    fn panel_index(&self, window: u64) -> (r: usize)
        ensures
            r <= self.panels@.len(),
            r < self.panels@.len() ==> self.panels@[r as int].window == window,
            forall|j: int| 0 <= j < r ==> (#[trigger] self.panels@[j]).window != window,
    {
        let mut i: usize = 0;
        while i < self.panels.len()
            invariant
                i <= self.panels@.len(),
                forall|j: int| 0 <= j < i ==> (#[trigger] self.panels@[j]).window != window,
            decreases self.panels@.len() - i,
        {
            if self.panels[i].window == window {
                return i;
            }
            i += 1;
        }
        i
    }

    /// Whether `window` is a panel's.
    pub fn is_panel(&self, window: u64) -> (r: bool)
        ensures
            r == exists|i: int| 0 <= i < self.spec_panels().len() && (#[trigger] self.spec_panels()[i]).0 == window,
    {
        let i = self.panel_index(window);
        if i < self.panels.len() {
            assert(self.spec_panels()[i as int].0 == window);
            true
        } else {
            assert forall|j: int| 0 <= j < self.spec_panels().len() implies (#[trigger] self.spec_panels()[j]).0
                != window by {
                assert(self.spec_panels()[j] == panel_view(self.panels@[j]));
            }
            false
        }
    }

    /// The popup `popup` of the panel in `panel` found its anchor: it
    /// is recorded, unless the panel is gone (then nothing opens).
    pub fn popup_anchored(&mut self, popup: u64, panel: u64) -> (r: bool)
        ensures
            r == exists|i: int| 0 <= i < old(self).spec_panels().len() && (#[trigger] old(self).spec_panels()[i]).0 == panel,
            final(self).spec_popups() == (if r {
                old(self).spec_popups().push((popup, panel))
            } else {
                old(self).spec_popups()
            }),
            final(self).spec_panels() == old(self).spec_panels(),
            final(self).spec_launcher() == old(self).spec_launcher(),
            final(self).spec_grabs() == old(self).spec_grabs(),
            final(self).spec_cursor() == old(self).spec_cursor(),
    {
        if self.is_panel(panel) {
            self.popups.push((popup, panel));
            true
        } else {
            false
        }
    }

    /// A gadget closed its popup `popup`.
    pub fn popup_removed(&mut self, popup: u64)
        ensures
            final(self).spec_popups() == old(self).spec_popups().filter(|p: (u64, u64)| p.0 != popup),
            final(self).spec_panels() == old(self).spec_panels(),
            final(self).spec_launcher() == old(self).spec_launcher(),
            final(self).spec_grabs() == old(self).spec_grabs(),
            final(self).spec_cursor() == old(self).spec_cursor(),
    {
        self.popups = keep_pairs(&self.popups, popup, true);
    }

    /// Record the launcher shown as `window` on `output`, over the
    /// click-catching `grabs`.
    pub fn launcher_opened(&mut self, window: u64, output: u32, grabs: Vec<(u64, u32)>)
        ensures
            final(self).spec_launcher() == Some((window, output)),
            final(self).spec_grabs() == old(self).spec_grabs() + grabs@,
            final(self).spec_panels() == old(self).spec_panels(),
            final(self).spec_popups() == old(self).spec_popups(),
            final(self).spec_cursor() == old(self).spec_cursor(),
    {
        let mut grabs = grabs;
        self.grabs.append(&mut grabs);
        self.launcher = Some((window, output));
    }

    /// Hide the launcher: its window and the grabs are to close.
    pub fn close_launcher(&mut self) -> (r: Vec<u64>)
        ensures
            r@ == (match old(self).spec_launcher() {
                Some((w, _)) => seq![w],
                None => Seq::empty(),
            }) + windows_of(old(self).spec_grabs()),
            final(self).spec_launcher() is None,
            final(self).spec_grabs().len() == 0,
            final(self).spec_panels() == old(self).spec_panels(),
            final(self).spec_popups() == old(self).spec_popups(),
            final(self).spec_cursor() == old(self).spec_cursor(),
    {
        let mut r: Vec<u64> = Vec::new();
        if let Some((w, _)) = self.launcher {
            r.push(w);
        }
        let ghost first = r@;
        let mut i: usize = 0;
        while i < self.grabs.len()
            invariant
                i <= self.grabs@.len(),
                r@ == first + windows_of(self.grabs@.take(i as int)),
            decreases self.grabs@.len() - i,
        {
            r.push(self.grabs[i].0);
            assert(windows_of(self.grabs@.take(i + 1)) =~= windows_of(self.grabs@.take(i as int)).push(
                self.grabs@[i as int].0,
            ));
            i += 1;
        }
        assert(self.grabs@.take(i as int) =~= self.grabs@);
        self.launcher = None;
        self.grabs = Vec::new();
        r
    }

    /// Whether the launcher's own events from `window` are for it.
    pub fn is_launcher(&self, window: u64) -> (r: bool)
        ensures
            r == (self.spec_launcher() matches Some((w, _)) && w == window),
    {
        match self.launcher {
            Some((w, _)) => w == window,
            None => false,
        }
    }

    fn is_grab(&self, window: u64) -> (r: bool)
        ensures
            r == exists|i: int| 0 <= i < self.spec_grabs().len() && (#[trigger] self.spec_grabs()[i]).0 == window,
    {
        let mut i: usize = 0;
        while i < self.grabs.len()
            invariant
                i <= self.grabs@.len(),
                forall|j: int| 0 <= j < i ==> (#[trigger] self.grabs@[j]).0 != window,
            decreases self.grabs@.len() - i,
        {
            if self.grabs[i].0 == window {
                assert(self.spec_grabs()[i as int].0 == window);
                return true;
            }
            i += 1;
        }
        false
    }

    /// A mouse button was released on `window` while the launcher may
    /// be open: whether that closes it. It does on a grab, and on the
    /// launcher's own window while the pointer was last seen over
    /// another (some compositors report a press on the button that
    /// opened the launcher as on the launcher, until the pointer moves).
    pub fn click_closes_launcher(&self, window: u64) -> (r: bool)
        ensures
            r == (match self.spec_launcher() {
                Some((l, _)) => (exists|i: int| 0 <= i < self.spec_grabs().len() && (#[trigger] self.spec_grabs()[i]).0 == window)
                    || (window == l && elsewhere(self.spec_cursor(), l)),
                None => false,
            }),
    {
        match self.launcher {
            None => false,
            Some((l, _)) => {
                let on_grab = self.is_grab(window);
                let elsewhere = window == l && match self.cursor {
                    Some(c) => c != l,
                    None => false,
                };
                on_grab || elsewhere
            },
        }
    }

    /// Surface `window` went away (on request or not). One of the
    /// launcher's: the rest of them is to close. A panel: it and its
    /// popups are forgotten. A popup: forgotten, and its panel is named
    /// to be told.
    pub fn closed(&mut self, window: u64) -> (r: Closed)
        ensures
            ({
                let on_launcher = old(self).spec_launcher() matches Some((l, _)) && l == window;
                let on_grab = exists|i: int|
                    0 <= i < old(self).spec_grabs().len() && (#[trigger] old(self).spec_grabs()[i]).0 == window;
                let on_panel = exists|i: int|
                    0 <= i < old(self).spec_panels().len() && (#[trigger] old(self).spec_panels()[i]).0 == window;
                let on_popup = exists|i: int|
                    0 <= i < old(self).spec_popups().len() && (#[trigger] old(self).spec_popups()[i]).0 == window;
                if on_launcher || on_grab {
                    let grabs = old(self).spec_grabs().filter(|g: (u64, u32)| g.0 != window);
                    &&& r matches Closed::Launcher(rest) && rest@ == (if on_launcher {
                        Seq::empty()
                    } else {
                        match old(self).spec_launcher() {
                            Some((w, _)) => seq![w],
                            None => Seq::empty(),
                        }
                    }) + windows_of(grabs)
                    &&& final(self).spec_launcher() is None
                    &&& final(self).spec_grabs().len() == 0
                    &&& final(self).spec_panels() == old(self).spec_panels()
                    &&& final(self).spec_popups() == old(self).spec_popups()
                } else if on_panel {
                    &&& r == Closed::Panel
                    &&& final(self).spec_panels() == old(self).spec_panels().filter(
                        |p: (u64, u32, Seq<char>)| p.0 != window,
                    )
                    &&& final(self).spec_popups() == old(self).spec_popups().filter(|p: (u64, u64)| p.1 != window)
                    &&& final(self).spec_launcher() == old(self).spec_launcher()
                    &&& final(self).spec_grabs() == old(self).spec_grabs()
                } else if on_popup {
                    let owner = old(self).spec_popups()[first_popup(old(self).spec_popups(), window)].1;
                    let has_owner = exists|i: int|
                        0 <= i < old(self).spec_panels().len() && (#[trigger] old(self).spec_panels()[i]).0 == owner;
                    &&& r == (if has_owner {
                        Closed::Popup(owner)
                    } else {
                        Closed::Orphan
                    })
                    &&& final(self).spec_popups() == old(self).spec_popups().filter(|p: (u64, u64)| p.0 != window)
                    &&& final(self).spec_panels() == old(self).spec_panels()
                    &&& final(self).spec_launcher() == old(self).spec_launcher()
                    &&& final(self).spec_grabs() == old(self).spec_grabs()
                } else {
                    &&& r == Closed::Other
                    &&& final(self).spec_panels() == old(self).spec_panels()
                    &&& final(self).spec_popups() == old(self).spec_popups()
                    &&& final(self).spec_launcher() == old(self).spec_launcher()
                    &&& final(self).spec_grabs() == old(self).spec_grabs()
                }
            }),
            final(self).spec_cursor() == old(self).spec_cursor(),
    {
        let on_launcher = self.is_launcher(window);
        if on_launcher || self.is_grab(window) {
            self.grabs = keep_grabs(&self.grabs, window);
            if on_launcher {
                self.launcher = None;
            }
            let rest = self.close_launcher();
            return Closed::Launcher(rest);
        }
        let p = self.panel_index(window);
        if p < self.panels.len() {
            assert(self.spec_panels()[p as int] == panel_view(self.panels@[p as int]));
            assert(self.spec_panels()[p as int].0 == window);
            let ghost before = self.panels@;
            self.panels = keep_panels(&self.panels, window);
            proof {
                lemma_filter_map_panels(before, window);
            }
            self.popups = keep_pairs(&self.popups, window, false);
            return Closed::Panel;
        }
        proof {
            assert forall|j: int| 0 <= j < self.spec_panels().len() implies (#[trigger] self.spec_panels()[j]).0
                != window by {
                assert(self.spec_panels()[j] == panel_view(self.panels@[j]));
            }
        }
        let q = popup_index(&self.popups, window);
        if q < self.popups.len() {
            assert(self.spec_popups()[q as int].0 == window);
            let owner = self.popups[q].1;
            self.popups = keep_pairs(&self.popups, window, true);
            assert(self.spec_panels() == old(self).spec_panels());
            if self.is_panel(owner) {
                return Closed::Popup(owner);
            } else {
                return Closed::Orphan;
            }
        }
        Closed::Other
    }

    /// Output `output` was unplugged: its panels are forgotten, their
    /// windows to close.
    pub fn output_removed(&mut self, output: u32) -> (r: Vec<u64>)
        ensures
            final(self).spec_panels() == old(self).spec_panels().filter(|p: (u64, u32, Seq<char>)| p.1 != output),
            r@ == old(self).spec_panels().filter(|p: (u64, u32, Seq<char>)| p.1 == output).map_values(
                |p: (u64, u32, Seq<char>)| p.0,
            ),
            final(self).spec_popups() == old(self).spec_popups(),
            final(self).spec_launcher() == old(self).spec_launcher(),
            final(self).spec_grabs() == old(self).spec_grabs(),
            final(self).spec_cursor() == old(self).spec_cursor(),
    {
        let ghost all = self.panels@;
        let ghost v = all.map_values(|p: PanelSurface| panel_view(p));
        let mut kept: Vec<PanelSurface> = Vec::new();
        let mut gone: Vec<u64> = Vec::new();
        let mut rest = Vec::new();
        std::mem::swap(&mut rest, &mut self.panels);
        let mut i: usize = 0;
        while i < rest.len()
            invariant
                i <= rest@.len(),
                rest@ == all,
                v == all.map_values(|p: PanelSurface| panel_view(p)),
                kept@.map_values(|p: PanelSurface| panel_view(p)) == v.take(i as int).filter(
                    |p: (u64, u32, Seq<char>)| p.1 != output,
                ),
                gone@ == v.take(i as int).filter(|p: (u64, u32, Seq<char>)| p.1 == output).map_values(
                    |p: (u64, u32, Seq<char>)| p.0,
                ),
            decreases rest@.len() - i,
        {
            reveal_with_fuel(Seq::filter, 1);
            assert(v.take(i + 1).drop_last() =~= v.take(i as int));
            let ghost pv = v[i as int];
            assert(pv == panel_view(rest@[i as int]));
            let ghost g0 = v.take(i as int).filter(|p: (u64, u32, Seq<char>)| p.1 == output);
            let ghost k0 = kept@;
            if rest[i].output == output {
                gone.push(rest[i].window);
                assert(g0.push(pv).map_values(|p: (u64, u32, Seq<char>)| p.0) =~= g0.map_values(
                    |p: (u64, u32, Seq<char>)| p.0,
                ).push(pv.0));
            } else {
                let p = PanelSurface {
                    window: rest[i].window,
                    output: rest[i].output,
                    section: rest[i].section.clone(),
                };
                kept.push(p);
                assert(kept@.map_values(|p: PanelSurface| panel_view(p)) =~= k0.map_values(
                    |p: PanelSurface| panel_view(p),
                ).push(pv));
            }
            i += 1;
        }
        assert(v.take(i as int) =~= v);
        self.panels = kept;
        gone
    }

    /// The configuration changed: every popup and panel is to close
    /// (popups first), and the launcher with them; nothing is open after.
    pub fn reset(&mut self) -> (r: Vec<u64>)
        ensures
            r@ == old(self).spec_popups().map_values(|p: (u64, u64)| p.0) + old(self).spec_panels().map_values(
                |p: (u64, u32, Seq<char>)| p.0,
            ) + (match old(self).spec_launcher() {
                Some((w, _)) => seq![w],
                None => Seq::empty(),
            }) + windows_of(old(self).spec_grabs()),
            final(self).spec_panels().len() == 0,
            final(self).spec_popups().len() == 0,
            final(self).spec_launcher() is None,
            final(self).spec_grabs().len() == 0,
            final(self).spec_cursor() is None,
    {
        let mut r: Vec<u64> = Vec::new();
        let mut i: usize = 0;
        while i < self.popups.len()
            invariant
                i <= self.popups@.len(),
                r@ == self.popups@.take(i as int).map_values(|p: (u64, u64)| p.0),
            decreases self.popups@.len() - i,
        {
            r.push(self.popups[i].0);
            assert(self.popups@.take(i + 1).map_values(|p: (u64, u64)| p.0) =~= self.popups@.take(
                i as int,
            ).map_values(|p: (u64, u64)| p.0).push(self.popups@[i as int].0));
            i += 1;
        }
        assert(self.popups@.take(i as int) =~= self.popups@);
        let ghost first = r@;
        let mut j: usize = 0;
        while j < self.panels.len()
            invariant
                j <= self.panels@.len(),
                r@ == first + self.spec_panels().take(j as int).map_values(|p: (u64, u32, Seq<char>)| p.0),
            decreases self.panels@.len() - j,
        {
            r.push(self.panels[j].window);
            assert(self.spec_panels()[j as int] == panel_view(self.panels@[j as int]));
            assert(self.spec_panels().take(j + 1).map_values(|p: (u64, u32, Seq<char>)| p.0) =~= self.spec_panels().take(
                j as int,
            ).map_values(|p: (u64, u32, Seq<char>)| p.0).push(self.panels@[j as int].window));
            j += 1;
        }
        assert(self.spec_panels().take(j as int) =~= self.spec_panels());
        let mut rest = self.close_launcher();
        r.append(&mut rest);
        self.popups = Vec::new();
        self.panels = Vec::new();
        self.cursor = None;
        assert(self.spec_panels() =~= Seq::empty());
        r
    }
}

/// The first popup in `window`; `s.len()` if none.
pub open spec fn first_popup(s: Seq<(u64, u64)>, window: u64) -> int
    decreases s.len(),
{
    if s.len() == 0 {
        0
    } else if s[0].0 == window {
        0
    } else {
        first_popup(s.drop_first(), window) + 1
    }
}

proof fn lemma_first_popup(s: Seq<(u64, u64)>, window: u64, i: int)
    requires
        0 <= i <= s.len(),
        i < s.len() ==> s[i].0 == window,
        forall|j: int| 0 <= j < i ==> (#[trigger] s[j]).0 != window,
    ensures
        first_popup(s, window) == i,
    decreases s.len(),
{
    if s.len() > 0 && i > 0 {
        assert forall|j: int| 0 <= j < i - 1 implies (#[trigger] s.drop_first()[j]).0 != window by {
            assert(s.drop_first()[j] == s[j + 1]);
        }
        lemma_first_popup(s.drop_first(), window, i - 1);
    }
}

fn popup_index(s: &Vec<(u64, u64)>, window: u64) -> (r: usize)
    ensures
        r == first_popup(s@, window),
        r <= s@.len(),
        r < s@.len() ==> s@[r as int].0 == window,
        r == s@.len() ==> forall|j: int| 0 <= j < s@.len() ==> (#[trigger] s@[j]).0 != window,
{
    let mut i: usize = 0;
    while i < s.len()
        invariant
            i <= s@.len(),
            forall|j: int| 0 <= j < i ==> (#[trigger] s@[j]).0 != window,
        decreases s@.len() - i,
    {
        if s[i].0 == window {
            proof {
                lemma_first_popup(s@, window, i as int);
            }
            return i;
        }
        i += 1;
    }
    proof {
        lemma_first_popup(s@, window, i as int);
    }
    i
}

/// The pairs whose first (`by_popup`) or second member is not `window`.
fn keep_pairs(s: &Vec<(u64, u64)>, window: u64, by_popup: bool) -> (r: Vec<(u64, u64)>)
    ensures
        r@ == (if by_popup {
            s@.filter(|p: (u64, u64)| p.0 != window)
        } else {
            s@.filter(|p: (u64, u64)| p.1 != window)
        }),
{
    let ghost f = if by_popup {
        |p: (u64, u64)| p.0 != window
    } else {
        |p: (u64, u64)| p.1 != window
    };
    let mut r: Vec<(u64, u64)> = Vec::new();
    let mut i: usize = 0;
    while i < s.len()
        invariant
            i <= s@.len(),
            f == (if by_popup {
                |p: (u64, u64)| p.0 != window
            } else {
                |p: (u64, u64)| p.1 != window
            }),
            r@ == s@.take(i as int).filter(f),
        decreases s@.len() - i,
    {
        reveal_with_fuel(Seq::filter, 1);
        assert(s@.take(i + 1).drop_last() =~= s@.take(i as int));
        let p = s[i];
        let keep = if by_popup {
            p.0 != window
        } else {
            p.1 != window
        };
        assert(keep == f(p));
        if keep {
            r.push(p);
        }
        i += 1;
    }
    assert(s@.take(i as int) =~= s@);
    r
}

fn keep_grabs(s: &Vec<(u64, u32)>, window: u64) -> (r: Vec<(u64, u32)>)
    ensures
        r@ == s@.filter(|g: (u64, u32)| g.0 != window),
{
    let mut r: Vec<(u64, u32)> = Vec::new();
    let mut i: usize = 0;
    while i < s.len()
        invariant
            i <= s@.len(),
            r@ == s@.take(i as int).filter(|g: (u64, u32)| g.0 != window),
        decreases s@.len() - i,
    {
        reveal_with_fuel(Seq::filter, 1);
        assert(s@.take(i + 1).drop_last() =~= s@.take(i as int));
        if s[i].0 != window {
            r.push(s[i]);
        }
        i += 1;
    }
    assert(s@.take(i as int) =~= s@);
    r
}

fn keep_panels(s: &Vec<PanelSurface>, window: u64) -> (r: Vec<PanelSurface>)
    ensures
        r@.map_values(|p: PanelSurface| panel_view(p)) == s@.filter(|p: PanelSurface| p.window != window).map_values(
            |p: PanelSurface| panel_view(p),
        ),
{
    let mut r: Vec<PanelSurface> = Vec::new();
    let mut i: usize = 0;
    while i < s.len()
        invariant
            i <= s@.len(),
            r@.map_values(|p: PanelSurface| panel_view(p)) == s@.take(i as int).filter(
                |p: PanelSurface| p.window != window,
            ).map_values(|p: PanelSurface| panel_view(p)),
        decreases s@.len() - i,
    {
        reveal_with_fuel(Seq::filter, 1);
        assert(s@.take(i + 1).drop_last() =~= s@.take(i as int));
        let ghost f0 = s@.take(i as int).filter(|p: PanelSurface| p.window != window);
        let ghost r0 = r@;
        if s[i].window != window {
            let p = PanelSurface { window: s[i].window, output: s[i].output, section: s[i].section.clone() };
            assert(panel_view(p) == panel_view(s@[i as int]));
            r.push(p);
            assert(r@.map_values(|p: PanelSurface| panel_view(p)) =~= r0.map_values(|p: PanelSurface| panel_view(p)).push(
                panel_view(s@[i as int]),
            ));
            assert(f0.push(s@[i as int]).map_values(|p: PanelSurface| panel_view(p)) =~= f0.map_values(
                |p: PanelSurface| panel_view(p),
            ).push(panel_view(s@[i as int])));
        }
        i += 1;
    }
    assert(s@.take(i as int) =~= s@);
    r
}

/// Filtering the panels by window, then viewing them, is viewing them,
/// then filtering.
proof fn lemma_filter_map_panels(s: Seq<PanelSurface>, window: u64)
    ensures
        s.filter(|p: PanelSurface| p.window != window).map_values(|p: PanelSurface| panel_view(p)) == s.map_values(
            |p: PanelSurface| panel_view(p),
        ).filter(|p: (u64, u32, Seq<char>)| p.0 != window),
    decreases s.len(),
{
    reveal_with_fuel(Seq::filter, 1);
    if s.len() > 0 {
        let t = s.drop_last();
        lemma_filter_map_panels(t, window);
        assert(s.map_values(|p: PanelSurface| panel_view(p)).drop_last() =~= t.map_values(
            |p: PanelSurface| panel_view(p),
        ));
        let ft = t.filter(|p: PanelSurface| p.window != window);
        if s.last().window != window {
            assert(ft.push(s.last()).map_values(|p: PanelSurface| panel_view(p)) =~= ft.map_values(
                |p: PanelSurface| panel_view(p),
            ).push(panel_view(s.last())));
        }
    }
    assert(s.filter(|p: PanelSurface| p.window != window).map_values(|p: PanelSurface| panel_view(p)) =~= s.map_values(
        |p: PanelSurface| panel_view(p),
    ).filter(|p: (u64, u32, Seq<char>)| p.0 != window));
}

} // verus!
