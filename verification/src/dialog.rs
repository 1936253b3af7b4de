//! A modal surface (the launcher, the exit menu): its window on one
//! output, a click-catching window on every output under it, and when a
//! click closes it. A press that no widget took, on one of the dialog's
//! windows (its click-catching surfaces, or the dialog past its
//! content), is outside; it is noted on the press and acted on at the
//! release, so that the surface outlives the release. Windows are
//! numbered by the caller, outputs by their global name; the surfaces
//! themselves are the caller's.
use vstd::prelude::*;

verus! {

/// A pointer event on one of the windows.
#[derive(Debug, Clone, Copy, PartialEq, Eq, Structural)]
pub enum PointerEvent {
    /// A mouse button was pressed and no widget took it.
    PressedOutside,
    /// A mouse button was released.
    Released,
}

/// Whether a press landed outside, waiting for its release.
pub struct Dismissal {
    pressed_outside: bool,
}

/// The next state and whether the dialog closes, for an event on the
/// dialog's own windows (`owned`) or elsewhere.
pub open spec fn dismissal_step(pressed: bool, owned: bool, event: PointerEvent) -> (bool, bool) {
    if !owned {
        (pressed, false)
    } else {
        match event {
            PointerEvent::PressedOutside => (true, false),
            PointerEvent::Released => (false, pressed),
        }
    }
}

impl Dismissal {
    pub closed spec fn spec_pressed(&self) -> bool {
        self.pressed_outside
    }

    /// Nothing pressed yet.
    pub fn new() -> (r: Dismissal)
        ensures
            !r.spec_pressed(),
    {
        Dismissal { pressed_outside: false }
    }

    /// A pointer event, on one of the dialog's windows (`owned`) or not;
    /// whether the dialog closes: a release after a press outside.
    pub fn pointer(&mut self, owned: bool, event: PointerEvent) -> (r: bool)
        ensures
            (final(self).spec_pressed(), r) == dismissal_step(old(self).spec_pressed(), owned, event),
    {
        if !owned {
            return false;
        }
        match event {
            PointerEvent::PressedOutside => {
                self.pressed_outside = true;
                false
            },
            PointerEvent::Released => {
                let r = self.pressed_outside;
                self.pressed_outside = false;
                r
            },
        }
    }
}

/// A press outside followed by its release closes the dialog, and only
/// once: the next release alone closes nothing. Events on other windows
/// change nothing.
pub proof fn a_click_outside_closes_once(pressed: bool, other: PointerEvent)
    ensures
        ({
            let (p1, c1) = dismissal_step(pressed, true, PointerEvent::PressedOutside);
            let (p2, c2) = dismissal_step(p1, true, PointerEvent::Released);
            let (p3, c3) = dismissal_step(p2, true, PointerEvent::Released);
            !c1 && c2 && !c3 && !p3
        }),
        dismissal_step(pressed, false, other) == (pressed, false),
{
}

/// A layer surface is at least one pixel each way.
pub open spec fn surface_size_of(size: (u32, u32)) -> (u32, u32) {
    (if size.0 >= 1 { size.0 } else { 1 }, if size.1 >= 1 { size.1 } else { 1 })
}

/// The size to ask of the dialog's surface for content of `size`.
pub fn surface_size(size: (u32, u32)) -> (r: (u32, u32))
    ensures
        r == surface_size_of(size),
{
    (if size.0 >= 1 { size.0 } else { 1 }, if size.1 >= 1 { size.1 } else { 1 })
}

/// An open dialog: its window, output and size, and the click-catching
/// windows, one per output.
pub struct Dialog {
    pub window: u64,
    pub output: u32,
    pub size: (u32, u32),
    pub grabs: Vec<(u64, u32)>,
    /// Whether a press outside waits for its release.
    pub dismissal: Dismissal,
}

impl Dialog {
    pub open spec fn spec_pressed(&self) -> bool {
        self.dismissal.spec_pressed()
    }

    /// Whether `id` is one of the dialog's windows.
    pub open spec fn spec_owns(&self, id: u64) -> bool {
        id == self.window || exists|i: int| 0 <= i < self.grabs@.len() && (#[trigger] self.grabs@[i]).0 == id
    }

    /// The dialog as `window` on `output`, its content sized `size`, over
    /// the click-catching `grabs`.
    pub fn open(window: u64, output: u32, size: (u32, u32), grabs: Vec<(u64, u32)>) -> (r: Dialog)
        ensures
            r.window == window,
            r.output == output,
            r.size == size,
            r.grabs@ == grabs@,
            !r.spec_pressed(),
    {
        Dialog { window, output, size, grabs, dismissal: Dismissal::new() }
    }

    /// Every window of the dialog, to remove: its own, then the grabs.
    pub fn windows(&self) -> (r: Vec<u64>)
        ensures
            r@ == seq![self.window] + self.grabs@.map_values(|g: (u64, u32)| g.0),
    {
        let mut r: Vec<u64> = vec![self.window];
        let mut i: usize = 0;
        while i < self.grabs.len()
            invariant
                i <= self.grabs@.len(),
                r@ == seq![self.window] + self.grabs@.take(i as int).map_values(|g: (u64, u32)| g.0),
            decreases self.grabs@.len() - i,
        {
            r.push(self.grabs[i].0);
            assert(self.grabs@.take(i + 1).map_values(|g: (u64, u32)| g.0) =~= self.grabs@.take(i as int).map_values(
                |g: (u64, u32)| g.0,
            ).push(self.grabs@[i as int].0));
            i += 1;
        }
        assert(self.grabs@.take(i as int) =~= self.grabs@);
        r
    }

    /// The content changed size: the size to ask of the surface now.
    pub fn resize(&mut self, size: (u32, u32)) -> (r: (u32, u32))
        ensures
            r == surface_size_of(size),
            final(self).size == size,
            final(self).window == old(self).window,
            final(self).output == old(self).output,
            final(self).grabs == old(self).grabs,
            final(self).spec_pressed() == old(self).spec_pressed(),
    {
        self.size = size;
        surface_size(size)
    }

    pub fn is_window(&self, id: u64) -> (r: bool)
        ensures
            r == (id == self.window),
    {
        self.window == id
    }

    pub fn is_grab(&self, id: u64) -> (r: bool)
        ensures
            r == exists|i: int| 0 <= i < self.grabs@.len() && (#[trigger] self.grabs@[i]).0 == id,
    {
        let mut i: usize = 0;
        while i < self.grabs.len()
            invariant
                i <= self.grabs@.len(),
                forall|j: int| 0 <= j < i ==> (#[trigger] self.grabs@[j]).0 != id,
            decreases self.grabs@.len() - i,
        {
            if self.grabs[i].0 == id {
                assert(self.grabs@[i as int].0 == id);
                return true;
            }
            i += 1;
        }
        false
    }

    pub fn owns(&self, id: u64) -> (r: bool)
        ensures
            r == self.spec_owns(id),
    {
        self.is_window(id) || self.is_grab(id)
    }

    /// A pointer event on `window`; whether the dialog closes: a press
    /// no widget took on one of its windows, followed by a release on
    /// one of them.
    pub fn pointer(&mut self, window: u64, event: PointerEvent) -> (r: bool)
        ensures
            (final(self).spec_pressed(), r) == dismissal_step(old(self).spec_pressed(), old(self).spec_owns(window), event),
            final(self).window == old(self).window,
            final(self).output == old(self).output,
            final(self).size == old(self).size,
            final(self).grabs == old(self).grabs,
    {
        let owned = self.owns(window);
        self.dismissal.pointer(owned, event)
    }
}

} // verus!
