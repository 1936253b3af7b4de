//! What a `Notify` call on the `org.freedesktop.Notifications` object
//! becomes: the notification's id and serial, its fields, and the
//! pixels of an `image-data` hint. The bus itself, and taking the hints
//! apart, are the caller's.
use vstd::prelude::*;

use crate::notifications::{
    icon_source_of, opt_icon_view, pairs_of, plain, plain_text, IconSource, IconView, Notification,
    NotificationView, Timeout, Urgency,
};

verus! {

// ---------------------------------------------------------------------
// Ids

/// Hands out notification ids and serials, both counting from 1 (and
/// wrapping around, as the atomic counters they stand for do).
pub struct Ids {
    next_id: u32,
    next_serial: u64,
}

pub open spec fn next_after_u32(n: u32) -> u32 {
    if n == u32::MAX {
        0
    } else {
        (n + 1) as u32
    }
}

pub open spec fn next_after_u64(n: u64) -> u64 {
    if n == u64::MAX {
        0
    } else {
        (n + 1) as u64
    }
}

impl Ids {
    pub closed spec fn spec_next_id(&self) -> u32 {
        self.next_id
    }

    pub closed spec fn spec_next_serial(&self) -> u64 {
        self.next_serial
    }

    pub fn new() -> (r: Ids)
        ensures
            r.spec_next_id() == 1,
            r.spec_next_serial() == 1,
    {
        Ids { next_id: 1, next_serial: 1 }
    }

    /// The id and serial of a `Notify` replacing `replaces_id` (0: none):
    /// the replaced one's id, else a new one; a new serial either way.
    pub fn assign(&mut self, replaces_id: u32) -> (r: (u32, u64))
        ensures
            r.0 == (if replaces_id > 0 {
                replaces_id
            } else {
                old(self).spec_next_id()
            }),
            r.1 == old(self).spec_next_serial(),
            final(self).spec_next_id() == (if replaces_id > 0 {
                old(self).spec_next_id()
            } else {
                next_after_u32(old(self).spec_next_id())
            }),
            final(self).spec_next_serial() == next_after_u64(old(self).spec_next_serial()),
    {
        let id = if replaces_id > 0 {
            replaces_id
        } else {
            let id = self.next_id;
            self.next_id = if self.next_id == u32::MAX { 0 } else { self.next_id + 1 };
            id
        };
        let serial = self.next_serial;
        self.next_serial = if self.next_serial == u64::MAX { 0 } else { self.next_serial + 1 };
        (id, serial)
    }
}

// ---------------------------------------------------------------------
// Notify

/// The `actions` argument read in pairs: key, then label (empty when
/// the list ends on a key).
pub open spec fn action_pairs(a: Seq<Seq<char>>) -> Seq<(Seq<char>, Seq<char>)>
    decreases a.len(),
{
    if a.len() == 0 {
        seq![]
    } else if a.len() == 1 {
        seq![(a[0], Seq::empty())]
    } else {
        seq![(a[0], a[1])] + action_pairs(a.skip(2))
    }
}

/// The `urgency` hint: 0 low, 2 critical, anything else (or none)
/// normal.
pub open spec fn urgency_of(hint: Option<u8>) -> Urgency {
    match hint {
        Some(0) => Urgency::Low,
        Some(2) => Urgency::Critical,
        _ => Urgency::Normal,
    }
}

/// The icon: the `image-path` hint when it names one, else `app_icon`.
pub open spec fn icon_of(image_path: Option<Seq<char>>, app_icon: Seq<char>) -> Option<IconView> {
    match image_path {
        Some(p) => match icon_source_of(p) {
            Some(i) => Some(i),
            None => icon_source_of(app_icon),
        },
        None => icon_source_of(app_icon),
    }
}

/// The arguments of a `Notify` call, its hints taken apart: the
/// `image-path` hint (or `image_path`) when it is a non-empty string,
/// the `urgency` hint when it is a byte.
pub struct NotifyCall {
    pub app_name: String,
    pub replaces_id: u32,
    pub app_icon: String,
    pub summary: String,
    pub body: String,
    pub actions: Vec<String>,
    pub image_path: Option<String>,
    pub urgency: Option<u8>,
    pub expire_timeout: i32,
}

fn actions_of(a: &Vec<String>) -> (r: Vec<(String, String)>)
    ensures
        pairs_of(r@) == action_pairs(crate::config::strings_view(a@)),
{
    let ghost av = crate::config::strings_view(a@);
    let mut r: Vec<(String, String)> = Vec::new();
    let mut i: usize = 0;
    assert(av.skip(0) =~= av);
    while i < a.len()
        invariant
            i <= a.len(),
            av == crate::config::strings_view(a@),
            action_pairs(av) == pairs_of(r@) + action_pairs(av.skip(i as int)),
        decreases a.len() - i,
    {
        let ghost rest = av.skip(i as int);
        let ghost before = pairs_of(r@);
        assert(rest[0] == a@[i as int]@);
        if a.len() - i == 1 {
            r.push((a[i].clone(), String::new()));
            assert(pairs_of(r@) =~= before.push((rest[0], Seq::empty())));
            assert(action_pairs(rest) =~= seq![(rest[0], Seq::<char>::empty())]);
            assert(av.skip(i + 1) =~= Seq::<Seq<char>>::empty());
            assert(before + action_pairs(rest) =~= pairs_of(r@) + action_pairs(av.skip(i + 1)));
            i = i + 1;
        } else {
            assert(rest[1] == a@[i + 1]@);
            r.push((a[i].clone(), a[i + 1].clone()));
            assert(pairs_of(r@) =~= before.push((rest[0], rest[1])));
            assert(rest.skip(2) =~= av.skip(i + 2));
            assert(before + action_pairs(rest) =~= pairs_of(r@) + action_pairs(av.skip(i + 2)));
            i = i + 2;
        }
    }
    assert(av.skip(a.len() as int) =~= Seq::<Seq<char>>::empty());
    assert(pairs_of(r@) + Seq::<(Seq<char>, Seq<char>)>::empty() =~= pairs_of(r@));
    r
}

/// The notification a `Notify` call makes, with the id and serial it
/// was given: the body as plain text, the icon from the `image-path`
/// hint or `app_icon`, the actions in pairs.
pub fn notification_of(call: &NotifyCall, id: u32, serial: u64) -> (r: Notification)
    ensures
        r@ == (NotificationView {
            id,
            serial,
            app_name: call.app_name@,
            summary: call.summary@,
            body: plain(call.body@),
            icon: icon_of(crate::config::opt_view(call.image_path), call.app_icon@),
            urgency: urgency_of(call.urgency),
            actions: action_pairs(crate::config::strings_view(call.actions@)),
            timeout: if call.expire_timeout < 0 {
                Timeout::Default
            } else if call.expire_timeout == 0 {
                Timeout::Never
            } else {
                Timeout::After(call.expire_timeout as u64)
            },
        }),
{
    let icon = match &call.image_path {
        Some(p) => match IconSource::parse(p.as_str()) {
            Some(i) => Some(i),
            None => IconSource::parse(call.app_icon.as_str()),
        },
        None => IconSource::parse(call.app_icon.as_str()),
    };
    let urgency = match call.urgency {
        Some(0) => Urgency::Low,
        Some(2) => Urgency::Critical,
        _ => Urgency::Normal,
    };
    Notification {
        id,
        serial,
        app_name: call.app_name.clone(),
        summary: call.summary.clone(),
        body: plain_text(call.body.as_str()),
        icon,
        urgency,
        actions: actions_of(&call.actions),
        timeout: Timeout::parse(call.expire_timeout),
    }
}

// ---------------------------------------------------------------------
// image-data

/// Images larger than this on a side are dropped (a wallpaper as an
/// `image-data` hint would be uploaded to the GPU at full size).
pub const IMAGE_MAX: i32 = 1024;

/// Pixels as RGBA, 8 bits per sample, rows one after the other.
#[derive(Debug)]
pub struct Image {
    pub width: u32,
    pub height: u32,
    pub rgba: Vec<u8>,
}

/// The channels of an `image-data` hint: RGB without alpha, RGBA with;
/// 0 for anything else.
pub open spec fn channels_of(alpha: bool, channels: i32) -> int {
    if !alpha && channels == 3 {
        3
    } else if alpha && channels == 4 {
        4
    } else {
        0
    }
}

/// Whether a hint is usable as far as its header tells: a size within
/// [`IMAGE_MAX`], 8 bits per sample, RGB or RGBA.
pub open spec fn image_header_ok(width: i32, height: i32, bps: i32, alpha: bool, channels: i32) -> bool {
    0 < width <= IMAGE_MAX && 0 < height <= IMAGE_MAX && bps == 8 && channels_of(alpha, channels) > 0
}

/// One pixel at `at` as RGBA: opaque without alpha.
pub open spec fn pixel(data: Seq<u8>, at: int, c: int) -> Seq<u8> {
    seq![data[at], data[at + 1], data[at + 2], if c == 4 { data[at + 3] } else { 255 }]
}

/// The first `n` pixels of a row starting at `at`.
pub open spec fn row_pixels(data: Seq<u8>, at: int, c: int, n: nat) -> Seq<u8>
    decreases n,
{
    if n == 0 {
        seq![]
    } else {
        row_pixels(data, at, c, (n - 1) as nat) + pixel(data, at + (n - 1) * c, c)
    }
}

/// The first `rows` rows, `stride` bytes apart.
pub open spec fn rows_pixels(data: Seq<u8>, stride: int, width: nat, c: int, rows: nat) -> Seq<u8>
    decreases rows,
{
    if rows == 0 {
        seq![]
    } else {
        rows_pixels(data, stride, width, c, (rows - 1) as nat) + row_pixels(data, (rows - 1) * stride, c, width)
    }
}

/// The `image-data` hint `(iiibiiay)`: width, height, row stride, has
/// alpha, bits per sample, channels, pixels (rows padded to the
/// stride); as RGBA when the header is usable and the data holds every
/// row, else none.
pub open spec fn image_of(
    width: i32,
    height: i32,
    stride: i32,
    alpha: bool,
    bps: i32,
    channels: i32,
    data: Seq<u8>,
) -> Option<Seq<u8>> {
    let c = channels_of(alpha, channels);
    if !image_header_ok(width, height, bps, alpha, channels) {
        None
    } else if (stride >= 0 && stride < width * c) || data.len() < (if height > 1 { stride * (height - 1) } else { 0 })
        + width * c {
        None
    } else {
        Some(rows_pixels(data, stride as int, width as nat, c, height as nat))
    }
}

proof fn lemma_row_bounds(y: int, h: int, stride: int, x: int, w: int, c: int)
    requires
        0 <= y < h,
        0 <= x < w,
        0 <= stride,
        1 <= c <= 4,
        w * c <= stride || h == 1,
    ensures
        y * stride + x * c + c <= (if h > 1 { stride * (h - 1) } else { 0 }) + w * c,
        0 <= y * stride,
{
    assert(x * c + c <= w * c) by (nonlinear_arith)
        requires
            0 <= x < w,
            1 <= c,
    ;
    if h > 1 {
        assert(y * stride <= stride * (h - 1)) by (nonlinear_arith)
            requires
                0 <= y <= h - 1,
                0 <= stride,
        ;
    } else {
        assert(y == 0);
    }
    assert(0 <= y * stride) by (nonlinear_arith)
        requires
            0 <= y,
            0 <= stride,
    ;
}

/// The pixels of an `image-data` hint as RGBA, see [`image_of`]. A
/// negative stride is read as the unsigned number it stands for, which
/// only a single row survives.
pub fn image_pixels(
    width: i32,
    height: i32,
    stride: i32,
    alpha: bool,
    bps: i32,
    channels: i32,
    data: &[u8],
) -> (r: Option<Image>)
    requires
        image_header_ok(width, height, bps, alpha, channels) ==> stride >= 0 || height == 1,
    ensures
        match r {
            Some(img) => image_of(width, height, stride, alpha, bps, channels, data@) == Some(img.rgba@)
                && img.width == width && img.height == height,
            None => image_of(width, height, stride, alpha, bps, channels, data@) is None,
        },
{
    if width <= 0 || height <= 0 || width > IMAGE_MAX || height > IMAGE_MAX || bps != 8 {
        return None;
    }
    let c: u64 = if !alpha && channels == 3 {
        3
    } else if alpha && channels == 4 {
        4
    } else {
        return None;
    };
    let w = width as u64;
    let h = height as u64;
    let row_len: u64 = w * c;
    // A negative stride only matters past the first row, where it is
    // too large for any data.
    if stride >= 0 && (stride as u64) < row_len {
        return None;
    }
    let need: u64 = if h > 1 {
        assert(0 <= stride);
        assert((stride as u64) * (h - 1) <= 2147483647 * 1023) by (nonlinear_arith)
            requires
                0 <= stride <= 2147483647,
                1 <= h - 1 <= 1023,
        ;
        (stride as u64) * (h - 1) + row_len
    } else {
        row_len
    };
    if (data.len() as u64) < need {
        return None;
    }
    let s: u64 = if stride >= 0 { stride as u64 } else { 0 };
    let mut rgba: Vec<u8> = Vec::new();
    let mut y: u64 = 0;
    while y < h
        invariant
            0 < h <= 1024,
            0 < w <= 1024,
            c == 3 || c == 4,
            c == channels_of(alpha, channels),
            row_len == w * c,
            h > 1 ==> s == stride && s * (h - 1) + row_len <= data.len(),
            h == 1 ==> row_len <= data.len(),
            h > 1 ==> row_len <= s,
            y <= h,
            rgba@ == rows_pixels(data@, stride as int, w as nat, c as int, y as nat),
        decreases h - y,
    {
        let base: u64 = if y == 0 {
            0
        } else {
            assert(y * s <= s * (h - 1)) by (nonlinear_arith)
                requires
                    1 <= y <= h - 1,
                    0 <= s,
            ;
            y * s
        };
        let ghost before = rgba@;
        let mut x: u64 = 0;
        while x < w
            invariant
                0 < h <= 1024,
                0 < w <= 1024,
                c == 3 || c == 4,
                row_len == w * c,
                h > 1 ==> s == stride && s * (h - 1) + row_len <= data.len(),
                h == 1 ==> row_len <= data.len(),
                h > 1 ==> row_len <= s,
                y < h,
                base == y * stride,
                x <= w,
                rgba@ == before + row_pixels(data@, base as int, c as int, x as nat),
            decreases w - x,
        {
            proof {
                lemma_row_bounds(y as int, h as int, if h > 1 { s as int } else { 0 }, x as int, w as int, c as int);
                if h == 1 {
                    assert(y == 0);
                }
            }
            let at: u64 = base + x * c;
            let i = at as usize;
            assert(at + c <= data.len());
            let ghost prev = rgba@;
            rgba.push(data[i]);
            rgba.push(data[i + 1]);
            rgba.push(data[i + 2]);
            if c == 4 {
                rgba.push(data[i + 3]);
            } else {
                rgba.push(255);
            }
            assert(rgba@ =~= prev + pixel(data@, at as int, c as int));
            assert(rgba@ =~= before + row_pixels(data@, base as int, c as int, (x + 1) as nat));
            x = x + 1;
        }
        assert(rgba@ =~= rows_pixels(data@, stride as int, w as nat, c as int, (y + 1) as nat));
        y = y + 1;
    }
    Some(Image { width: width as u32, height: height as u32, rgba })
}

} // verus!
