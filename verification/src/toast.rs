//! Notification toasts: how long ago a notification came, as the
//! history popup shows it, and where each toast's surface goes, stacked
//! from the configured corner of its output. Drawing the notifications,
//! formatting dates and the surfaces themselves are the caller's.
use vstd::prelude::*;

use crate::text::{decimal, decimal_of, push_str, string_of};

verus! {

/// What the popup says of an age in seconds: "now", "5 min", "2 h",
/// "yesterday", or `None` when the date should be shown instead.
pub open spec fn age_text(elapsed: nat) -> Option<Seq<char>> {
    if elapsed < 60 {
        Some("now"@)
    } else if elapsed < 3600 {
        Some(decimal(elapsed / 60) + " min"@)
    } else if elapsed < 86400 {
        Some(decimal(elapsed / 3600) + " h"@)
    } else if elapsed < 172800 {
        Some("yesterday"@)
    } else {
        None
    }
}

/// The age of a notification received at `received` seen at `now`
/// (seconds since the epoch; a clock that went back counts as no time);
/// `None`: show the date.
pub fn age(received: u64, now: u64) -> (r: Option<String>)
    ensures
        crate::config::opt_view(r) == age_text(if now >= received { (now - received) as nat } else { 0 }),
{
    let elapsed = if now >= received { now - received } else { 0 };
    if elapsed < 60 {
        Some(crate::text::owned("now"))
    } else if elapsed < 3600 {
        let mut v: Vec<char> = Vec::new();
        let n = decimal_of(elapsed / 60);
        push_str(&mut v, n.as_str());
        push_str(&mut v, " min");
        Some(string_of(v.as_slice()))
    } else if elapsed < 86400 {
        let mut v: Vec<char> = Vec::new();
        let n = decimal_of(elapsed / 3600);
        push_str(&mut v, n.as_str());
        push_str(&mut v, " h");
        Some(string_of(v.as_slice()))
    } else if elapsed < 172800 {
        Some(crate::text::owned("yesterday"))
    } else {
        None
    }
}


/// A click on a notification, on its surface or in the history popup.
#[derive(Debug)]
pub enum Message {
    /// A left click on the notification itself.
    Activate(u32),
    /// A right click: close without invoking anything.
    Dismiss(u32),
    /// A click on an action button, with the action's key.
    Invoke(u32, String),
}

// ---------------------------------------------------------------------
// The toast surfaces: one per notification shown, stacked from the
// configured corner of its output.

/// Distances from the four edges, in pixels: the `notifications`
/// root's padding, or a toast's margins.
#[derive(Debug, Clone, Copy, PartialEq, Eq, Structural)]
pub struct Edges {
    pub top: i32,
    pub right: i32,
    pub bottom: i32,
    pub left: i32,
}

/// A surface's size in pixels.
#[derive(Debug, Clone, Copy, PartialEq, Eq, Structural)]
pub struct Size {
    pub width: u32,
    pub height: u32,
}

pub open spec fn no_edges() -> Edges {
    Edges { top: 0, right: 0, bottom: 0, left: 0 }
}

/// A notification's surface. `W` names the window.
#[derive(Debug, Clone, Copy)]
pub struct Toast<W> {
    pub window: W,
    /// The notification's id.
    pub id: u32,
    /// The output it is on (its global name).
    pub output: u32,
    pub size: Size,
    /// From the edges of its output.
    pub margin: Edges,
    /// Its surface was asked for.
    pub placed: bool,
}

/// What to ask of the surfaces after a layout.
#[derive(Debug, Clone, Copy)]
pub enum Change<W> {
    /// A new surface, this size, this far from the corner.
    Open { window: W, output: u32, size: Size, margin: Edges },
    Resize { window: W, size: Size },
    Move { window: W, margin: Edges },
}

/// Index of the first toast of notification `id`; `ts.len()` if none.
pub open spec fn toast_pos<W>(ts: Seq<Toast<W>>, id: u32) -> int
    decreases ts.len(),
{
    if ts.len() == 0 {
        0
    } else if ts[0].id == id {
        0
    } else {
        toast_pos(ts.drop_first(), id) + 1
    }
}

proof fn lemma_toast_pos_bounds<W>(ts: Seq<Toast<W>>, id: u32)
    ensures
        0 <= toast_pos(ts, id) <= ts.len(),
    decreases ts.len(),
{
    if ts.len() > 0 && ts[0].id != id {
        lemma_toast_pos_bounds(ts.drop_first(), id);
    }
}

proof fn lemma_toast_pos_at<W>(ts: Seq<Toast<W>>, id: u32, i: int)
    requires
        0 <= i <= ts.len(),
        i < ts.len() ==> ts[i].id == id,
        forall|j: int| 0 <= j < i ==> (#[trigger] ts[j]).id != id,
    ensures
        toast_pos(ts, id) == i,
    decreases ts.len(),
{
    if ts.len() > 0 && i > 0 {
        assert(ts[0].id != id);
        assert forall|j: int| 0 <= j < i - 1 implies (#[trigger] ts.drop_first()[j]).id != id by {
            assert(ts.drop_first()[j] == ts[j + 1]);
        }
        lemma_toast_pos_at(ts.drop_first(), id, i - 1);
    }
}

/// The output each laid-out item's toast is on; `None` for an item
/// with no toast.
pub open spec fn outputs_of<W>(ts: Seq<Toast<W>>, items: Seq<(u32, Size)>) -> Seq<Option<u32>> {
    Seq::new(
        items.len(),
        |k: int|
            if toast_pos(ts, items[k].0) < ts.len() {
                Some(ts[toast_pos(ts, items[k].0)].output)
            } else {
                None
            },
    )
}

/// How far from the corner the `k`th item starts on output `o`: the
/// heights of the items before it there, each with the gap after it.
pub open spec fn along(outs: Seq<Option<u32>>, items: Seq<(u32, Size)>, gap: int, o: u32, k: int) -> int
    decreases k,
{
    if k <= 0 {
        0
    } else {
        along(outs, items, gap, o, k - 1) + if outs[k - 1] == Some(o) {
            items[k - 1].1.height + gap
        } else {
            0
        }
    }
}

/// The margins of a toast `a` pixels along from its corner: from the
/// top edge for a top corner, else from the bottom; the side paddings
/// either way.
pub open spec fn margin_for(top: bool, edge: Edges, a: int) -> Edges {
    if top {
        Edges { top: (edge.top + a) as i32, right: edge.right, bottom: 0, left: edge.left }
    } else {
        Edges { top: 0, right: edge.right, bottom: (edge.bottom + a) as i32, left: edge.left }
    }
}

pub open spec fn in_i32(x: int) -> bool {
    i32::MIN <= x <= i32::MAX
}

/// The `k`th item's place stays within the margins' integer range.
pub open spec fn item_fits<W>(ts: Seq<Toast<W>>, items: Seq<(u32, Size)>, top: bool, edge: Edges, gap: i32, k: int) -> bool {
    let outs = outputs_of(ts, items);
    outs[k] is Some ==> {
        let a = along(outs, items, gap as int, outs[k]->0, k);
        &&& items[k].1.height <= i32::MAX
        &&& in_i32(a + items[k].1.height + gap)
        &&& in_i32((if top { edge.top } else { edge.bottom }) + a)
    }
}

/// The stacking stays within the margins' integer range.
pub open spec fn stack_fits<W>(ts: Seq<Toast<W>>, items: Seq<(u32, Size)>, top: bool, edge: Edges, gap: i32) -> bool {
    forall|k: int| 0 <= k < items.len() ==> #[trigger] item_fits(ts, items, top, edge, gap, k)
}

/// One item laid out: its toast (if any) gets its place; a new one is
/// opened there, a known one resized and moved as far as it changed.
pub open spec fn lay_one<W>(
    t: Seq<Toast<W>>,
    ch: Seq<Change<W>>,
    item: (u32, Size),
    m: Edges,
) -> (Seq<Toast<W>>, Seq<Change<W>>) {
    let i = toast_pos(t, item.0);
    let size = item.1;
    if i >= t.len() {
        (t, ch)
    } else {
        let old = t[i];
        if !old.placed {
            (
                t.update(i, Toast { size, margin: m, placed: true, ..old }),
                ch.push(Change::Open { window: old.window, output: old.output, size, margin: m }),
            )
        } else {
            let ch1 = if old.size != size {
                ch.push(Change::Resize { window: old.window, size })
            } else {
                ch
            };
            let ch2 = if old.margin != m {
                ch1.push(Change::Move { window: old.window, margin: m })
            } else {
                ch1
            };
            (t.update(i, Toast { size, margin: m, ..old }), ch2)
        }
    }
}

/// The first `k` items laid out, in order.
pub open spec fn laid<W>(
    ts: Seq<Toast<W>>,
    items: Seq<(u32, Size)>,
    top: bool,
    edge: Edges,
    gap: i32,
    k: int,
) -> (Seq<Toast<W>>, Seq<Change<W>>)
    decreases k,
{
    if k <= 0 {
        (ts, Seq::empty())
    } else {
        let (t, ch) = laid(ts, items, top, edge, gap, k - 1);
        let outs = outputs_of(ts, items);
        let m = match outs[k - 1] {
            Some(o) => margin_for(top, edge, along(outs, items, gap as int, o, k - 1)),
            None => no_edges(),
        };
        lay_one(t, ch, items[k - 1], m)
    }
}

/// Laying out changes no toast's notification, output or window.
proof fn lemma_laid_keeps<W>(
    ts: Seq<Toast<W>>,
    items: Seq<(u32, Size)>,
    top: bool,
    edge: Edges,
    gap: i32,
    k: int,
)
    ensures
        laid(ts, items, top, edge, gap, k).0.len() == ts.len(),
        forall|i: int|
            0 <= i < ts.len() ==> (#[trigger] laid(ts, items, top, edge, gap, k).0[i]).id == ts[i].id
                && laid(ts, items, top, edge, gap, k).0[i].output == ts[i].output
                && laid(ts, items, top, edge, gap, k).0[i].window == ts[i].window,
    decreases k,
{
    if k > 0 {
        lemma_laid_keeps(ts, items, top, edge, gap, k - 1);
        let t = laid(ts, items, top, edge, gap, k - 1).0;
        let ch = laid(ts, items, top, edge, gap, k - 1).1;
        let outs = outputs_of(ts, items);
        let m = match outs[k - 1] {
            Some(o) => margin_for(top, edge, along(outs, items, gap as int, o, k - 1)),
            None => no_edges(),
        };
        assert(laid(ts, items, top, edge, gap, k) == lay_one(t, ch, items[k - 1], m));
        let r = laid(ts, items, top, edge, gap, k).0;
        lemma_toast_pos_bounds(t, items[k - 1].0);
        assert(r.len() == t.len());
        assert forall|x: int| 0 <= x < ts.len() implies (#[trigger] r[x]).id == ts[x].id && r[x].output
            == ts[x].output && r[x].window == ts[x].window by {
            assert(t[x].id == ts[x].id && t[x].output == ts[x].output && t[x].window == ts[x].window);
        }
    }
}

proof fn lemma_toast_pos_same_ids<W>(a: Seq<Toast<W>>, b: Seq<Toast<W>>, id: u32)
    requires
        a.len() == b.len(),
        forall|i: int| 0 <= i < a.len() ==> (#[trigger] a[i]).id == b[i].id,
    ensures
        toast_pos(a, id) == toast_pos(b, id),
    decreases a.len(),
{
    if a.len() > 0 {
        assert(a[0].id == b[0].id);
        assert forall|i: int| 0 <= i < a.drop_first().len() implies (#[trigger] a.drop_first()[i]).id
            == b.drop_first()[i].id by {
            assert(a.drop_first()[i] == a[i + 1]);
            assert(b.drop_first()[i] == b[i + 1]);
        }
        lemma_toast_pos_same_ids(a.drop_first(), b.drop_first(), id);
    }
}

/// Where the `k`th item goes: its margins from its output's corner.
pub open spec fn margin_at<W>(ts: Seq<Toast<W>>, items: Seq<(u32, Size)>, top: bool, edge: Edges, gap: i32, k: int) -> Edges {
    let outs = outputs_of(ts, items);
    match outs[k] {
        Some(o) => margin_for(top, edge, along(outs, items, gap as int, o, k)),
        None => no_edges(),
    }
}

/// No two items are of the same notification.
pub open spec fn distinct_ids(items: Seq<(u32, Size)>) -> bool {
    forall|a: int, b: int| 0 <= a < b < items.len() ==> #[trigger] items[a].0 != #[trigger] items[b].0
}

proof fn lemma_toast_pos_found<W>(ts: Seq<Toast<W>>, id: u32)
    ensures
        toast_pos(ts, id) < ts.len() ==> ts[toast_pos(ts, id)].id == id,
    decreases ts.len(),
{
    if ts.len() > 0 && ts[0].id != id {
        lemma_toast_pos_found(ts.drop_first(), id);
        lemma_toast_pos_bounds(ts.drop_first(), id);
        let p = toast_pos(ts.drop_first(), id);
        if p < ts.drop_first().len() {
            assert(ts.drop_first()[p] == ts[p + 1]);
        }
    }
}

/// The same outputs for the items, before and after a layout.
proof fn lemma_laid_same_outputs<W>(ts: Seq<Toast<W>>, items: Seq<(u32, Size)>, top: bool, edge: Edges, gap: i32, j: int)
    ensures
        outputs_of(laid(ts, items, top, edge, gap, j).0, items) == outputs_of(ts, items),
{
    let t = laid(ts, items, top, edge, gap, j).0;
    lemma_laid_keeps(ts, items, top, edge, gap, j);
    assert forall|k: int| 0 <= k < items.len() implies #[trigger] outputs_of(t, items)[k] == outputs_of(ts, items)[k] by {
        lemma_toast_pos_same_ids(t, ts, items[k].0);
        lemma_toast_pos_bounds(ts, items[k].0);
        let p = toast_pos(ts, items[k].0);
        if p < ts.len() {
            assert(t[p].output == ts[p].output);
        }
    }
    assert(outputs_of(t, items) =~= outputs_of(ts, items));
}

/// After the first `j` items are laid out, each one's toast holds its
/// size and place.
proof fn lemma_laid_places<W>(ts: Seq<Toast<W>>, items: Seq<(u32, Size)>, top: bool, edge: Edges, gap: i32, j: int)
    requires
        distinct_ids(items),
        0 <= j <= items.len(),
    ensures
        forall|k: int|
            0 <= k < j && toast_pos(ts, items[k].0) < ts.len() ==> #[trigger] laid(ts, items, top, edge, gap, j).0[toast_pos(
                ts,
                items[k].0,
            )] == (Toast {
                size: items[k].1,
                margin: margin_at(ts, items, top, edge, gap, k),
                placed: true,
                ..ts[toast_pos(ts, items[k].0)]
            }),
    decreases j,
{
    if j > 0 {
        lemma_laid_places(ts, items, top, edge, gap, j - 1);
        lemma_laid_keeps(ts, items, top, edge, gap, j - 1);
        let t = laid(ts, items, top, edge, gap, j - 1).0;
        let ch = laid(ts, items, top, edge, gap, j - 1).1;
        let item = items[j - 1];
        let m = margin_at(ts, items, top, edge, gap, j - 1);
        assert(laid(ts, items, top, edge, gap, j) == lay_one(t, ch, item, m));
        lemma_toast_pos_same_ids(t, ts, item.0);
        lemma_toast_pos_bounds(ts, item.0);
        lemma_toast_pos_found(ts, item.0);
        let i = toast_pos(ts, item.0);
        let r = laid(ts, items, top, edge, gap, j).0;
        assert forall|k: int|
            0 <= k < j && toast_pos(ts, items[k].0) < ts.len() implies #[trigger] r[toast_pos(ts, items[k].0)] == (Toast {
                size: items[k].1,
                margin: margin_at(ts, items, top, edge, gap, k),
                placed: true,
                ..ts[toast_pos(ts, items[k].0)]
            }) by {
            lemma_toast_pos_found(ts, items[k].0);
            lemma_toast_pos_bounds(ts, items[k].0);
            let p = toast_pos(ts, items[k].0);
            if k < j - 1 {
                assert(items[k].0 != items[j - 1].0);
                assert(p != i);
            } else {
                assert(t[i].window == ts[i].window && t[i].id == ts[i].id && t[i].output == ts[i].output);
            }
        }
    }
}

/// With the first layout done, laying the same items out again leaves
/// every toast as it is and asks nothing.
proof fn lemma_relaid_is_still<W>(ts: Seq<Toast<W>>, items: Seq<(u32, Size)>, top: bool, edge: Edges, gap: i32, j: int)
    requires
        distinct_ids(items),
        0 <= j <= items.len(),
    ensures
        laid(laid(ts, items, top, edge, gap, items.len() as int).0, items, top, edge, gap, j) == (
            laid(ts, items, top, edge, gap, items.len() as int).0,
            Seq::<Change<W>>::empty(),
        ),
    decreases j,
{
    let n = items.len() as int;
    let t1 = laid(ts, items, top, edge, gap, n).0;
    if j > 0 {
        lemma_relaid_is_still(ts, items, top, edge, gap, j - 1);
        lemma_laid_same_outputs(ts, items, top, edge, gap, n);
        lemma_laid_places(ts, items, top, edge, gap, n);
        lemma_laid_keeps(ts, items, top, edge, gap, n);
        let item = items[j - 1];
        let m = margin_at(ts, items, top, edge, gap, j - 1);
        assert(margin_at(t1, items, top, edge, gap, j - 1) == m);
        assert(laid(t1, items, top, edge, gap, j) == lay_one(t1, Seq::<Change<W>>::empty(), item, m));
        lemma_toast_pos_same_ids(t1, ts, item.0);
        lemma_toast_pos_bounds(ts, item.0);
        let i = toast_pos(ts, item.0);
        if i < t1.len() {
            assert(t1[i] == (Toast { size: item.1, margin: m, placed: true, ..ts[i] }));
            assert(t1.update(i, Toast { size: item.1, margin: m, ..t1[i] }) =~= t1);
        }
    }
}

/// Laying the same toasts out a second time, the notifications and the
/// sizes their content wants unchanged, changes no toast and asks
/// nothing of the surfaces: sizes and places are kept where they were.
pub proof fn a_second_layout_changes_nothing<W>(
    ts: Seq<Toast<W>>,
    items: Seq<(u32, Size)>,
    top: bool,
    edge: Edges,
    gap: i32,
)
    requires
        distinct_ids(items),
    ensures
        ({
            let first = laid(ts, items, top, edge, gap, items.len() as int).0;
            laid(first, items, top, edge, gap, items.len() as int) == (first, Seq::<Change<W>>::empty())
        }),
{
    lemma_relaid_is_still(ts, items, top, edge, gap, items.len() as int);
}

/// The toast surfaces, in the order they were opened.
pub struct Toasts<W> {
    list: Vec<Toast<W>>,
}

impl<W: Copy> Toasts<W> {
    pub closed spec fn spec_list(&self) -> Seq<Toast<W>> {
        self.list@
    }

    /// None yet.
    pub fn new() -> (r: Toasts<W>)
        ensures
            r.spec_list() == Seq::<Toast<W>>::empty(),
    {
        Toasts { list: Vec::new() }
    }

    pub fn list(&self) -> (r: &[Toast<W>])
        ensures
            r@ == self.spec_list(),
    {
        self.list.as_slice()
    }

    fn position(&self, id: u32) -> (r: usize)
        ensures
            r == toast_pos(self.spec_list(), id),
    {
        let mut i: usize = 0;
        while i < self.list.len()
            invariant
                i <= self.list.len(),
                forall|j: int| 0 <= j < i ==> (#[trigger] self.list@[j]).id != id,
            decreases self.list.len() - i,
        {
            if self.list[i].id == id {
                proof {
                    lemma_toast_pos_at(self.list@, id, i as int);
                }
                return i;
            }
            i = i + 1;
        }
        proof {
            lemma_toast_pos_at(self.list@, id, i as int);
        }
        i
    }

    /// Whether notification `id` has a toast.
    pub fn has(&self, id: u32) -> (r: bool)
        ensures
            r == (toast_pos(self.spec_list(), id) < self.spec_list().len()),
    {
        self.position(id) < self.list.len()
    }

    /// A toast for notification `id` on `output`, its surface not yet
    /// asked for.
    pub fn add(&mut self, window: W, id: u32, output: u32)
        ensures
            final(self).spec_list() == old(self).spec_list().push(
                Toast { window, id, output, size: Size { width: 0, height: 0 }, margin: Edges { top: 0, right: 0, bottom: 0, left: 0 }, placed: false },
            ),
    {
        self.list.push(Toast { window, id, output, size: Size { width: 0, height: 0 }, margin: Edges { top: 0, right: 0, bottom: 0, left: 0 }, placed: false });
    }

    /// The toasts whose notification is no longer in `live` go; their
    /// windows, in order, are to be closed.
    pub fn remove_gone(&mut self, live: &[u32]) -> (r: Vec<W>)
        ensures
            final(self).spec_list() == old(self).spec_list().filter(|t: Toast<W>| live@.contains(t.id)),
            r@ == old(self).spec_list().filter(|t: Toast<W>| !live@.contains(t.id)).map_values(
                |t: Toast<W>| t.window,
            ),
    {
        let ghost all = self.list@;
        let mut kept: Vec<Toast<W>> = Vec::new();
        let mut gone: Vec<W> = Vec::new();
        let mut i: usize = 0;
        while i < self.list.len()
            invariant
                i <= self.list.len(),
                all == self.list@,
                kept@ == all.take(i as int).filter(|t: Toast<W>| live@.contains(t.id)),
                gone@ == all.take(i as int).filter(|t: Toast<W>| !live@.contains(t.id)).map_values(
                    |t: Toast<W>| t.window,
                ),
            decreases self.list.len() - i,
        {
            let t = self.list[i];
            assert(all.take(i + 1).drop_last() =~= all.take(i as int));
            reveal_with_fuel(Seq::filter, 1);
            let mut found = false;
            let mut j: usize = 0;
            while j < live.len()
                invariant
                    j <= live.len(),
                    found == live@.take(j as int).contains(t.id),
                decreases live.len() - j,
            {
                assert(live@.take(j + 1) =~= live@.take(j as int).push(live@[j as int]));
                if live[j] == t.id {
                    found = true;
                    assert(live@.take(j + 1)[j as int] == t.id);
                } else {
                    assert(live@.take(j + 1).contains(t.id) ==> live@.take(j as int).contains(t.id)) by {
                        if live@.take(j + 1).contains(t.id) {
                            let x = choose|x: int| 0 <= x < j + 1 && #[trigger] live@.take(j + 1)[x] == t.id;
                            assert(x < j);
                            assert(live@.take(j as int)[x] == t.id);
                        }
                    }
                }
                j = j + 1;
            }
            assert(live@.take(live.len() as int) =~= live@);
            let ghost g0 = all.take(i as int).filter(|t: Toast<W>| !live@.contains(t.id));
            if found {
                kept.push(t);
            } else {
                gone.push(t.window);
                assert(g0.push(t).map_values(|t: Toast<W>| t.window) =~= g0.map_values(|t: Toast<W>| t.window).push(
                    t.window,
                ));
            }
            i = i + 1;
        }
        assert(all.take(self.list.len() as int) =~= all);
        self.list = kept;
        gone
    }

    /// Output `output` went away: its toasts go (their notifications get
    /// new ones elsewhere at the next layout); their windows, in order,
    /// are to be closed.
    pub fn remove_on_output(&mut self, output: u32) -> (r: Vec<W>)
        ensures
            final(self).spec_list() == old(self).spec_list().filter(|t: Toast<W>| t.output != output),
            r@ == old(self).spec_list().filter(|t: Toast<W>| t.output == output).map_values(|t: Toast<W>| t.window),
    {
        let ghost all = self.list@;
        let mut kept: Vec<Toast<W>> = Vec::new();
        let mut gone: Vec<W> = Vec::new();
        let mut i: usize = 0;
        while i < self.list.len()
            invariant
                i <= self.list.len(),
                all == self.list@,
                kept@ == all.take(i as int).filter(|t: Toast<W>| t.output != output),
                gone@ == all.take(i as int).filter(|t: Toast<W>| t.output == output).map_values(|t: Toast<W>| t.window),
            decreases self.list.len() - i,
        {
            let t = self.list[i];
            assert(all.take(i + 1).drop_last() =~= all.take(i as int));
            reveal_with_fuel(Seq::filter, 1);
            let ghost g0 = all.take(i as int).filter(|t: Toast<W>| t.output == output);
            if t.output == output {
                gone.push(t.window);
                assert(g0.push(t).map_values(|t: Toast<W>| t.window) =~= g0.map_values(|t: Toast<W>| t.window).push(
                    t.window,
                ));
            } else {
                kept.push(t);
            }
            i = i + 1;
        }
        assert(all.take(self.list.len() as int) =~= all);
        self.list = kept;
        gone
    }

    /// Whether laying `items` out stays within the margins' range.
    pub fn fits(&self, items: &[(u32, Size)], top: bool, edge: Edges, gap: i32) -> (r: bool)
        ensures
            r == stack_fits(self.spec_list(), items@, top, edge, gap),
    {
        let outs = self.outputs(items);
        let ghost os = outputs_of(self.list@, items@);
        let mut k: usize = 0;
        while k < items.len()
            invariant
                k <= items.len(),
                outs@ == os,
                os == outputs_of(self.list@, items@),
                os.len() == items@.len(),
                forall|q: int| 0 <= q < k ==> #[trigger] item_fits(self.list@, items@, top, edge, gap, q),
            decreases items.len() - k,
        {
            match outs[k] {
                Some(o) => {
                    let a = along_of(&outs, items, gap, o, k);
                    let h = items[k].1.height;
                    let corner: i128 = if top { edge.top as i128 } else { edge.bottom as i128 };
                    let next = a + h as i128 + gap as i128;
                    if h > 2147483647 || next < -2147483648 || next > 2147483647 || corner + a < -2147483648 || corner + a
                        > 2147483647 {
                        proof {
                            let q = k as int;
                            assert(os[q] == Some(o));
                            let aa = along(os, items@, gap as int, os[q]->0, q);
                            assert(aa == a);
                            assert(!(items@[q].1.height <= i32::MAX && in_i32(aa + items@[q].1.height + gap)
                                && in_i32((if top { edge.top } else { edge.bottom }) + aa)));
                            assert(!item_fits(self.list@, items@, top, edge, gap, q));
                        }
                        return false;
                    }
                },
                None => {},
            }
            assert(item_fits(self.list@, items@, top, edge, gap, k as int));
            k = k + 1;
        }
        true
    }

    fn outputs(&self, items: &[(u32, Size)]) -> (r: Vec<Option<u32>>)
        ensures
            r@ == outputs_of(self.spec_list(), items@),
    {
        let mut r: Vec<Option<u32>> = Vec::new();
        let mut k: usize = 0;
        while k < items.len()
            invariant
                k <= items.len(),
                r@ == outputs_of(self.list@, items@).take(k as int),
            decreases items.len() - k,
        {
            let i = self.position(items[k].0);
            if i < self.list.len() {
                r.push(Some(self.list[i].output));
            } else {
                r.push(None);
            }
            assert(r@ =~= outputs_of(self.list@, items@).take(k + 1));
            k = k + 1;
        }
        assert(outputs_of(self.list@, items@).take(k as int) =~= outputs_of(self.list@, items@));
        r
    }

    /// Size and place the toasts of `items` (notification id and the
    /// size its content wants, in notification order): per output, each
    /// stacked past the ones before it with `gap` between, from the top
    /// or bottom edge by `edge`. New surfaces are opened; known ones
    /// resized and moved as far as they changed.
    pub fn layout(&mut self, items: &[(u32, Size)], top: bool, edge: Edges, gap: i32) -> (r: Vec<Change<W>>)
        requires
            stack_fits(old(self).spec_list(), items@, top, edge, gap),
        ensures
            (final(self).spec_list(), r@) == laid(old(self).spec_list(), items@, top, edge, gap, items@.len() as int),
    {
        let ghost ts = self.list@;
        let outs = self.outputs(items);
        let mut changes: Vec<Change<W>> = Vec::new();
        let mut k: usize = 0;
        while k < items.len()
            invariant
                k <= items.len(),
                outs@ == outputs_of(ts, items@),
                stack_fits(ts, items@, top, edge, gap),
                (self.list@, changes@) == laid(ts, items@, top, edge, gap, k as int),
            decreases items.len() - k,
        {
            proof {
                lemma_laid_keeps(ts, items@, top, edge, gap, k as int);
                lemma_toast_pos_same_ids(self.list@, ts, items@[k as int].0);
            }
            let ghost os = outputs_of(ts, items@);
            let i = self.position(items[k].0);
            if i < self.list.len() {
                let o = self.list[i].output;
                assert(os[k as int] == Some(o));
                let a = along_of(&outs, items, gap, o, k);
                let size = items[k].1;
                let m = if top {
                    Edges { top: (edge.top as i128 + a) as i32, right: edge.right, bottom: 0, left: edge.left }
                } else {
                    Edges { top: 0, right: edge.right, bottom: (edge.bottom as i128 + a) as i32, left: edge.left }
                };
                let old = self.list[i];
                if !old.placed {
                    self.list.set(i, Toast { size, margin: m, placed: true, ..old });
                    changes.push(Change::Open { window: old.window, output: old.output, size, margin: m });
                } else {
                    if old.size != size {
                        changes.push(Change::Resize { window: old.window, size });
                    }
                    if old.margin != m {
                        changes.push(Change::Move { window: old.window, margin: m });
                    }
                    self.list.set(i, Toast { size, margin: m, ..old });
                }
            }
            k = k + 1;
        }
        changes
    }
}

impl Toasts<u64> {
    /// The surface `window` went away: its toast is forgotten (its
    /// notification, if still there, gets a new one at the next
    /// layout). Whether it was a toast's.
    pub fn remove_window(&mut self, window: u64) -> (r: bool)
        ensures
            r == exists|i: int| 0 <= i < old(self).spec_list().len() && (#[trigger] old(self).spec_list()[i]).window == window,
            r ==> exists|i: int|
                0 <= i < old(self).spec_list().len() && old(self).spec_list()[i].window == window && (forall|j: int|
                    0 <= j < i ==> (#[trigger] old(self).spec_list()[j]).window != window) && final(self).spec_list()
                    == old(self).spec_list().remove(i),
            !r ==> final(self).spec_list() == old(self).spec_list(),
    {
        let mut i: usize = 0;
        while i < self.list.len()
            invariant
                i <= self.list@.len(),
                self.list@ == old(self).list@,
                forall|j: int| 0 <= j < i ==> (#[trigger] self.list@[j]).window != window,
            decreases self.list@.len() - i,
        {
            if self.list[i].window == window {
                let ghost before = self.list@;
                self.list.remove(i);
                assert(before[i as int].window == window);
                assert(old(self).spec_list()[i as int].window == window);
                return true;
            }
            i += 1;
        }
        false
    }
}

/// `along`, computed.
fn along_of(outs: &Vec<Option<u32>>, items: &[(u32, Size)], gap: i32, o: u32, k: usize) -> (r: i128)
    requires
        outs@.len() == items@.len(),
        k <= items@.len(),
    ensures
        r == along(outs@, items@, gap as int, o, k as int),
        -(k as int) * 0x1_0000_0000 <= r <= (k as int) * 0x2_0000_0000,
{
    let mut sum: i128 = 0;
    let mut j: usize = 0;
    while j < k
        invariant
            j <= k <= items@.len(),
            outs@.len() == items@.len(),
            sum == along(outs@, items@, gap as int, o, j as int),
            -(j as int) * 0x1_0000_0000 <= sum <= (j as int) * 0x2_0000_0000,
        decreases k - j,
    {
        if outs[j] == Some(o) {
            sum = sum + items[j].1.height as i128 + gap as i128;
        }
        j = j + 1;
    }
    sum
}

} // verus!
