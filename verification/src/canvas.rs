//! The canvas that an image is shown on: quarter turns, the selection, and
//! what gestures and keys do. The zoom factor, a floating point number, is
//! kept beside it.

use vstd::prelude::*;

verus! {

/// The turns of a canvas and the dimensions of its image.
#[derive(Clone, Copy, Debug, PartialEq, Eq, Structural)]
pub struct Canvas {
    pub base_w: i32,
    pub base_h: i32,
    /// Quarter turns clockwise.
    pub turns: u8,
}

/// A map of points whose linear part turns by quarters:
/// `(xx * x + xy * y + x0, yx * x + yy * y + y0)`.
#[derive(Clone, Copy, Debug, PartialEq, Eq, Structural)]
pub struct QuarterMap {
    pub xx: i32,
    pub xy: i32,
    pub x0: i32,
    pub yx: i32,
    pub yy: i32,
    pub y0: i32,
}

impl QuarterMap {
    /// Where a point goes.
    pub open spec fn apply(self, p: (int, int)) -> (int, int) {
        (self.xx * p.0 + self.xy * p.1 + self.x0, self.yx * p.0 + self.yy * p.1 + self.y0)
    }
}

/// Where a point of the turned image, not zoomed, lies in the image.
pub open spec fn image_point(turns: int, w: int, h: int, p: (int, int)) -> (int, int) {
    if turns == 1 {
        (p.1, h - p.0)
    } else if turns == 2 {
        (w - p.0, h - p.1)
    } else if turns == 3 {
        (w - p.1, p.0)
    } else {
        p
    }
}

/// Where a point of the image lies in the turned image, not zoomed.
pub open spec fn turned_point(turns: int, w: int, h: int, p: (int, int)) -> (int, int) {
    if turns == 1 {
        (h - p.1, p.0)
    } else if turns == 2 {
        (w - p.0, h - p.1)
    } else if turns == 3 {
        (p.1, w - p.0)
    } else {
        p
    }
}

proof fn lemma_sign(a: int, x: int)
    ensures
        a == 0 ==> a * x == 0,
        a == 1 ==> a * x == x,
        a == -1 ==> a * x == -x,
{
}

impl Canvas {
    /// Whether the turns are counted within a full turn.
    pub open spec fn wf(&self) -> bool {
        self.turns < 4
    }

    /// A canvas without an image.
    pub fn new() -> (r: Canvas)
        ensures
            r == (Canvas { base_w: 0, base_h: 0, turns: 0 }),
            r.wf(),
    {
        Canvas { base_w: 0, base_h: 0, turns: 0 }
    }

    /// Takes an image of these dimensions; the turns stay.
    pub fn set_texture(&mut self, w: i32, h: i32)
        ensures
            *final(self) == (Canvas { base_w: w, base_h: h, turns: old(self).turns }),
    {
        self.base_w = w;
        self.base_h = h;
    }

    /// Turns clockwise.
    pub fn rotate_cw(&mut self)
        requires
            old(self).wf(),
        ensures
            final(self).wf(),
            final(self).turns == (old(self).turns + 1) % 4,
            final(self).base_w == old(self).base_w,
            final(self).base_h == old(self).base_h,
    {
        self.turns = (self.turns + 1) % 4;
    }

    /// Turns counter-clockwise.
    pub fn rotate_ccw(&mut self)
        requires
            old(self).wf(),
        ensures
            final(self).wf(),
            final(self).turns == (old(self).turns + 3) % 4,
            final(self).base_w == old(self).base_w,
            final(self).base_h == old(self).base_h,
    {
        self.turns = (self.turns + 3) % 4;
    }

    /// Turns back.
    pub fn reset(&mut self)
        ensures
            *final(self) == (Canvas { turns: 0, ..*old(self) }),
    {
        self.turns = 0;
    }

    /// Whether width and height are swapped.
    pub fn rotation_is_quarter(&self) -> (r: bool)
        ensures
            r == (self.turns % 2 == 1),
    {
        self.turns % 2 == 1
    }

    /// The dimensions of the turned image, not zoomed; `None` without an
    /// image.
    pub fn extent(&self) -> (r: Option<(i32, i32)>)
        ensures
            r == (if self.base_w == 0 || self.base_h == 0 {
                None
            } else if self.turns % 2 == 1 {
                Some((self.base_h, self.base_w))
            } else {
                Some((self.base_w, self.base_h))
            }),
    {
        if self.base_w == 0 || self.base_h == 0 {
            return None;
        }
        if self.rotation_is_quarter() {
            Some((self.base_h, self.base_w))
        } else {
            Some((self.base_w, self.base_h))
        }
    }

    /// The map from the turned image, not zoomed, to the image.
    pub fn widget_point_to_image(&self) -> (m: QuarterMap)
        requires
            self.wf(),
        ensures
            forall|p: (int, int)| #[trigger]
                m.apply(p) == image_point(
                    self.turns as int,
                    self.base_w as int,
                    self.base_h as int,
                    p,
                ),
    {
        let m = match self.turns {
            1 => QuarterMap { xx: 0, xy: 1, x0: 0, yx: -1, yy: 0, y0: self.base_h },
            2 => QuarterMap { xx: -1, xy: 0, x0: self.base_w, yx: 0, yy: -1, y0: self.base_h },
            3 => QuarterMap { xx: 0, xy: -1, x0: self.base_w, yx: 1, yy: 0, y0: 0 },
            _ => QuarterMap { xx: 1, xy: 0, x0: 0, yx: 0, yy: 1, y0: 0 },
        };
        proof {
            assert forall|p: (int, int)| #[trigger]
                m.apply(p) == image_point(
                    self.turns as int,
                    self.base_w as int,
                    self.base_h as int,
                    p,
                ) by {
                lemma_sign(m.xx as int, p.0);
                lemma_sign(m.xy as int, p.1);
                lemma_sign(m.yx as int, p.0);
                lemma_sign(m.yy as int, p.1);
            }
        }
        m
    }

    /// The map from the image to the turned image, not zoomed.
    pub fn image_point_to_widget(&self) -> (m: QuarterMap)
        requires
            self.wf(),
        ensures
            forall|p: (int, int)| #[trigger]
                m.apply(p) == turned_point(
                    self.turns as int,
                    self.base_w as int,
                    self.base_h as int,
                    p,
                ),
    {
        let m = match self.turns {
            1 => QuarterMap { xx: 0, xy: -1, x0: self.base_h, yx: 1, yy: 0, y0: 0 },
            2 => QuarterMap { xx: -1, xy: 0, x0: self.base_w, yx: 0, yy: -1, y0: self.base_h },
            3 => QuarterMap { xx: 0, xy: 1, x0: 0, yx: -1, yy: 0, y0: self.base_w },
            _ => QuarterMap { xx: 1, xy: 0, x0: 0, yx: 0, yy: 1, y0: 0 },
        };
        proof {
            assert forall|p: (int, int)| #[trigger]
                m.apply(p) == turned_point(
                    self.turns as int,
                    self.base_w as int,
                    self.base_h as int,
                    p,
                ) by {
                lemma_sign(m.xx as int, p.0);
                lemma_sign(m.xy as int, p.1);
                lemma_sign(m.yx as int, p.0);
                lemma_sign(m.yy as int, p.1);
            }
        }
        m
    }
}

/// Law: the two maps undo each other, so that a selection stays on its
/// pixels however the image is turned.
pub proof fn law_maps_undo_each_other(turns: int, w: int, h: int, p: (int, int))
    ensures
        image_point(turns, w, h, turned_point(turns, w, h, p)) == p,
        turned_point(turns, w, h, image_point(turns, w, h, p)) == p,
{
}

/// Law: a point of the image lies within the turned image, whose dimensions
/// are swapped after an odd number of quarter turns.
pub proof fn law_turned_image_holds_its_points(turns: int, w: int, h: int, p: (int, int))
    requires
        0 <= turns < 4,
        0 <= p.0 <= w,
        0 <= p.1 <= h,
    ensures
        ({
            let q = turned_point(turns, w, h, p);
            let (tw, th) = if turns % 2 == 1 {
                (h, w)
            } else {
                (w, h)
            };
            0 <= q.0 <= tw && 0 <= q.1 <= th
        }),
{
}

/// Law: a turn and the turn back cancel out, and four turns make none.
pub proof fn law_turns_cancel(turns: int)
    requires
        0 <= turns < 4,
    ensures
        ((turns + 1) % 4 + 3) % 4 == turns,
        ((turns + 3) % 4 + 1) % 4 == turns,
        ((((turns + 1) % 4 + 1) % 4 + 1) % 4 + 1) % 4 == turns,
{
}

// ---------------------------------------------------------------------
// The selection
// ---------------------------------------------------------------------

/// A part of an image, in pixels.
#[derive(Clone, Copy, Debug, PartialEq, Eq, Structural)]
pub struct Crop {
    pub x: i32,
    pub y: i32,
    pub w: i32,
    pub h: i32,
}

/// `v`, or the bound that it lies beyond.
pub open spec fn clamped(v: int, lo: int, hi: int) -> int {
    if v < lo {
        lo
    } else if v > hi {
        hi
    } else {
        v
    }
}

fn clamp(v: i32, lo: i32, hi: i32) -> (r: i32)
    requires
        lo <= hi,
    ensures
        r == clamped(v as int, lo as int, hi as int),
{
    if v < lo {
        lo
    } else if v > hi {
        hi
    } else {
        v
    }
}

/// The pixels of a selection: what of it lies in the image.
pub open spec fn crop_of(bw: int, bh: int, x: int, y: int, w: int, h: int) -> (
    int,
    int,
    int,
    int,
) {
    let mx = clamped(x, 0, bw);
    let my = clamped(y, 0, bh);
    (mx, my, clamped(w, 0, bw - mx), clamped(h, 0, bh - my))
}

impl Canvas {
    /// The pixels of a selection, whose corner and dimensions are given in
    /// whole pixels; `None` where there are none.
    pub fn marquee_crop(&self, x: i32, y: i32, w: i32, h: i32) -> (r: Option<Crop>)
        ensures
            ({
                let c = crop_of(
                    self.base_w as int,
                    self.base_h as int,
                    x as int,
                    y as int,
                    w as int,
                    h as int,
                );
                match r {
                    Some(crop) => {
                        &&& self.base_w > 0 && self.base_h > 0
                        &&& (crop.x as int, crop.y as int, crop.w as int, crop.h as int) == c
                        &&& crop.w > 0 && crop.h > 0
                        &&& crop.x + crop.w <= self.base_w
                        &&& crop.y + crop.h <= self.base_h
                        &&& crop.x >= 0 && crop.y >= 0
                    },
                    None => self.base_w <= 0 || self.base_h <= 0 || c.2 <= 0 || c.3 <= 0,
                }
            }),
    {
        if self.base_w <= 0 || self.base_h <= 0 {
            return None;
        }
        let mx: i32 = clamp(x, 0, self.base_w);
        let my: i32 = clamp(y, 0, self.base_h);
        let mw: i32 = clamp(w, 0, self.base_w - mx);
        let mh: i32 = clamp(h, 0, self.base_h - my);
        if mw <= 0 || mh <= 0 {
            None
        } else {
            Some(Crop { x: mx, y: my, w: mw, h: mh })
        }
    }
}

/// The first `n` rows of a selection, one behind the other. Rows are
/// `stride` bytes apart; the selection begins at `first` and is `width`
/// bytes wide.
pub open spec fn rows_of(src: Seq<u8>, stride: int, first: int, width: int, n: int) -> Seq<u8>
    decreases n,
{
    if n <= 0 {
        Seq::empty()
    } else {
        rows_of(src, stride, first, width, n - 1) + src.subrange(
            first + (n - 1) * stride,
            first + (n - 1) * stride + width,
        )
    }
}

/// The bytes of a selection, of four bytes to a pixel.
pub open spec fn crop_bytes(src: Seq<u8>, bw: int, crop: Crop) -> Seq<u8> {
    rows_of(src, bw * 4, crop.y * (bw * 4) + crop.x * 4, crop.w * 4, crop.h as int)
}

fn copy_row(dst: &mut Vec<u8>, src: &[u8], from: usize, to: usize)
    requires
        from <= to <= src@.len(),
    ensures
        final(dst)@ == old(dst)@ + src@.subrange(from as int, to as int),
{
    let ghost before = dst@;
    let mut i: usize = from;
    while i < to
        invariant
            from <= i <= to <= src@.len(),
            dst@ =~= before + src@.subrange(from as int, i as int),
        decreases to - i,
    {
        dst.push(src[i]);
        i = i + 1;
    }
}

/// Copies the bytes of a selection out of an image of four bytes to a
/// pixel.
pub fn crop_pixels(src: &[u8], bw: i32, bh: i32, crop: Crop) -> (dst: Vec<u8>)
    requires
        bw > 0,
        bh > 0,
        src@.len() == bw * 4 * bh,
        crop.x >= 0,
        crop.y >= 0,
        crop.w > 0,
        crop.h > 0,
        crop.x + crop.w <= bw,
        crop.y + crop.h <= bh,
    ensures
        dst@ == crop_bytes(src@, bw as int, crop),
{
    let total: usize = src.len();
    let ghost stride_i = bw * 4;
    let ghost first_i = crop.y * stride_i + crop.x * 4;
    proof {
        assert(stride_i <= src@.len()) by (nonlinear_arith)
            requires
                stride_i == bw * 4,
                src@.len() == bw * 4 * bh,
                bh >= 1,
                bw > 0,
        ;
        assert(crop.y * stride_i + stride_i <= src@.len()) by (nonlinear_arith)
            requires
                stride_i == bw * 4,
                src@.len() == bw * 4 * bh,
                crop.y + 1 <= bh,
                bw > 0,
        ;
    }
    let stride: usize = bw as usize * 4;
    let width: usize = crop.w as usize * 4;
    let first: usize = crop.y as usize * stride + crop.x as usize * 4;
    let mut dst: Vec<u8> = Vec::new();
    let mut row: usize = 0;
    let mut at: usize = first;
    let rows: usize = crop.h as usize;
    while row < rows
        invariant
            row <= rows,
            rows == crop.h,
            stride == bw * 4,
            width == crop.w * 4,
            first == crop.y * (bw * 4) + crop.x * 4,
            src@.len() == bw * 4 * bh,
            src@.len() == total,
            crop.x >= 0,
            crop.w > 0,
            crop.x + crop.w <= bw,
            crop.y >= 0,
            crop.y + crop.h <= bh,
            bw > 0,
            row < rows ==> at == first + row * stride,
            dst@ == rows_of(src@, stride as int, first as int, width as int, row as int),
        decreases rows - row,
    {
        proof {
            assert(at + width <= src@.len() && (row + 1 < rows ==> at + stride <= src@.len()))
                by (nonlinear_arith)
                requires
                    at == first + row * stride,
                    first == crop.y * (bw * 4) + crop.x * 4,
                    stride == bw * 4,
                    width == crop.w * 4,
                    src@.len() == bw * 4 * bh,
                    crop.x >= 0,
                    crop.x + crop.w <= bw,
                    row < crop.h,
                    crop.y + crop.h <= bh,
                    crop.y >= 0,
                    rows == crop.h,
                    bw > 0,
            ;
        }
        copy_row(&mut dst, src, at, at + width);
        row = row + 1;
        if row < rows {
            proof {
                assert(at + stride == first + row * stride) by (nonlinear_arith)
                    requires
                        at == first + (row - 1) * stride,
                ;
            }
            at = at + stride;
        }
    }
    dst
}

// ---------------------------------------------------------------------
// Gestures and keys
// ---------------------------------------------------------------------

/// The keys that mean something to the canvas.
#[derive(Clone, Copy, Debug, PartialEq, Eq, Structural)]
pub enum CanvasKey {
    Equal,
    Plus,
    Minus,
    Underscore,
    Zero,
    R,
    C,
    Other,
}

/// What the user does on the canvas.
#[derive(Clone, Copy, Debug, PartialEq, Eq, Structural)]
pub enum CanvasEvent {
    PinchBegin,
    PinchChange,
    /// The wheel, or two fingers; `up` says that the vertical part is
    /// negative.
    Scroll { ctrl: bool, up: bool },
    /// The middle button.
    PanBegin,
    PanChange,
    /// The primary button.
    SelectBegin,
    /// `in_image` says that the drag has a place in an image.
    SelectChange { in_image: bool },
    /// `moved` says that the drag went three pixels or more, `inside` that
    /// it began in the selection.
    SelectEnd { moved: bool, selected: bool, inside: bool },
    /// `pixels` says that the selection holds pixels.
    Key { key: CanvasKey, ctrl: bool, shift: bool, pixels: bool },
    /// The canvas comes on screen.
    Shown,
}

/// What the canvas does.
#[derive(Clone, Copy, Debug, PartialEq, Eq, Structural)]
pub enum CanvasAction {
    /// Nothing, and nobody else hears of it.
    Swallow,
    /// Nothing; others may hear of it.
    Pass,
    RememberZoom,
    /// Zoom relative to the remembered factor.
    ZoomFromRemembered,
    /// Move the view by the scrolled distance.
    PanByScroll,
    /// Zoom in or out, the middle of the view staying in place.
    ZoomInCentered,
    ZoomOutCentered,
    /// Zoom in or out, or to the image's own size.
    ZoomIn,
    ZoomOut,
    ZoomReset,
    RememberView,
    /// Move the view relative to the remembered one.
    PanFromRemembered,
    /// Note where the drag began, and drop the selection.
    BeginSelection,
    GrowSelection,
    DropSelection,
    RotateClockwise,
    RotateCounterClockwise,
    /// Copy the selected pixels, and drop the selection.
    CopySelection,
    GrabFocus,
}

/// What the canvas does about an event.
pub open spec fn reaction(event: CanvasEvent) -> CanvasAction {
    match event {
        CanvasEvent::PinchBegin => CanvasAction::RememberZoom,
        CanvasEvent::PinchChange => CanvasAction::ZoomFromRemembered,
        CanvasEvent::Scroll { ctrl, up } => if !ctrl {
            CanvasAction::PanByScroll
        } else if up {
            CanvasAction::ZoomInCentered
        } else {
            CanvasAction::ZoomOutCentered
        },
        CanvasEvent::PanBegin => CanvasAction::RememberView,
        CanvasEvent::PanChange => CanvasAction::PanFromRemembered,
        CanvasEvent::SelectBegin => CanvasAction::BeginSelection,
        CanvasEvent::SelectChange { in_image } => if in_image {
            CanvasAction::GrowSelection
        } else {
            CanvasAction::Pass
        },
        CanvasEvent::SelectEnd { moved, selected, inside } => if !moved && selected && !inside {
            CanvasAction::DropSelection
        } else {
            CanvasAction::Pass
        },
        CanvasEvent::Key { key, ctrl, shift, pixels } => match key {
            CanvasKey::Equal | CanvasKey::Plus => if ctrl {
                CanvasAction::ZoomIn
            } else {
                CanvasAction::Pass
            },
            CanvasKey::Minus | CanvasKey::Underscore => if ctrl {
                CanvasAction::ZoomOut
            } else {
                CanvasAction::Pass
            },
            CanvasKey::Zero => if ctrl {
                CanvasAction::ZoomReset
            } else {
                CanvasAction::Pass
            },
            CanvasKey::R => if shift {
                CanvasAction::RotateCounterClockwise
            } else {
                CanvasAction::RotateClockwise
            },
            CanvasKey::C => if !ctrl {
                CanvasAction::Pass
            } else if pixels {
                CanvasAction::CopySelection
            } else {
                CanvasAction::Swallow
            },
            CanvasKey::Other => CanvasAction::Pass,
        },
        CanvasEvent::Shown => CanvasAction::GrabFocus,
    }
}

fn key_reaction(key: CanvasKey, ctrl: bool, shift: bool, pixels: bool) -> (a: CanvasAction)
    ensures
        a == reaction((CanvasEvent::Key { key, ctrl, shift, pixels })),
{
    match key {
        CanvasKey::Equal | CanvasKey::Plus => if ctrl {
            CanvasAction::ZoomIn
        } else {
            CanvasAction::Pass
        },
        CanvasKey::Minus | CanvasKey::Underscore => if ctrl {
            CanvasAction::ZoomOut
        } else {
            CanvasAction::Pass
        },
        CanvasKey::Zero => if ctrl {
            CanvasAction::ZoomReset
        } else {
            CanvasAction::Pass
        },
        CanvasKey::R => if shift {
            CanvasAction::RotateCounterClockwise
        } else {
            CanvasAction::RotateClockwise
        },
        CanvasKey::C => if !ctrl {
            CanvasAction::Pass
        } else if pixels {
            CanvasAction::CopySelection
        } else {
            CanvasAction::Swallow
        },
        CanvasKey::Other => CanvasAction::Pass,
    }
}

/// What the canvas does about an event.
pub fn wire_canvas_gestures(event: CanvasEvent) -> (action: CanvasAction)
    ensures
        action == reaction(event),
{
    match event {
        CanvasEvent::PinchBegin => CanvasAction::RememberZoom,
        CanvasEvent::PinchChange => CanvasAction::ZoomFromRemembered,
        CanvasEvent::Scroll { ctrl, up } => if !ctrl {
            CanvasAction::PanByScroll
        } else if up {
            CanvasAction::ZoomInCentered
        } else {
            CanvasAction::ZoomOutCentered
        },
        CanvasEvent::PanBegin => CanvasAction::RememberView,
        CanvasEvent::PanChange => CanvasAction::PanFromRemembered,
        CanvasEvent::SelectBegin => CanvasAction::BeginSelection,
        CanvasEvent::SelectChange { in_image } => if in_image {
            CanvasAction::GrowSelection
        } else {
            CanvasAction::Pass
        },
        CanvasEvent::SelectEnd { moved, selected, inside } => if !moved && selected && !inside {
            CanvasAction::DropSelection
        } else {
            CanvasAction::Pass
        },
        CanvasEvent::Key { key, ctrl, shift, pixels } => key_reaction(key, ctrl, shift, pixels),
        CanvasEvent::Shown => CanvasAction::GrabFocus,
    }
}

/// Law: a turn more is a quarter turn clockwise of what was shown: the upper
/// left corner comes to the upper right.
pub proof fn law_each_turn_is_a_quarter_clockwise(turns: int, w: int, h: int, p: (int, int))
    requires
        0 <= turns < 4,
    ensures
        ({
            let (tw, th) = if turns % 2 == 1 {
                (h, w)
            } else {
                (w, h)
            };
            let q = turned_point(turns, w, h, p);
            turned_point((turns + 1) % 4, w, h, p) == (th - q.1, q.0)
        }),
        turned_point(0, w, h, p) == p,
        turned_point(1, w, h, (0int, 0int)) == (h, 0int),
{
}

/// Law: a selection that begins in the image gives the pixels that lie in
/// both; where it does not fit, it is cut at the edges.
pub proof fn law_a_crop_is_what_lies_in_the_image(
    bw: int,
    bh: int,
    x: int,
    y: int,
    w: int,
    h: int,
    px: int,
    py: int,
)
    requires
        0 <= x <= bw,
        0 <= y <= bh,
        w >= 0,
        h >= 0,
    ensures
        ({
            let (cx, cy, cw, ch) = crop_of(bw, bh, x, y, w, h);
            &&& (cx <= px < cx + cw) <==> (x <= px < x + w && px < bw)
            &&& (cy <= py < cy + ch) <==> (y <= py < y + h && py < bh)
        }),
{
}

/// The bytes of the rows of a selection.
proof fn lemma_rows(src: Seq<u8>, stride: int, first: int, width: int, n: int, r: int, c: int)
    requires
        0 <= n,
        0 <= first,
        0 < width <= stride,
        first + (n - 1) * stride + width <= src.len(),
    ensures
        rows_of(src, stride, first, width, n).len() == n * width,
        0 <= r < n && 0 <= c < width ==> 0 <= r * width + c < n * width && rows_of(
            src,
            stride,
            first,
            width,
            n,
        )[r * width + c] == src[first + r * stride + c],
    decreases n,
{
    if n > 0 {
        let k = n - 1;
        assert((k - 1) * stride <= k * stride && 0 <= k * stride) by (nonlinear_arith)
            requires
                0 < stride,
                0 <= k,
        ;
        lemma_rows(src, stride, first, width, k, r, c);
        let before = rows_of(src, stride, first, width, k);
        let row = src.subrange(first + k * stride, first + k * stride + width);
        assert(row.len() == width);
        assert(k * width + width == n * width) by (nonlinear_arith)
            requires
                k == n - 1,
        ;
        if 0 <= r < n && 0 <= c < width {
            assert(0 <= r * width) by (nonlinear_arith)
                requires
                    0 <= r,
                    0 < width,
            ;
            if r < k {
                assert(r * width + width <= k * width) by (nonlinear_arith)
                    requires
                        r + 1 <= k,
                        0 < width,
                ;
            } else {
                assert((before + row)[k * width + c] == row[c]);
            }
        }
    } else {
        assert(n * width == 0) by (nonlinear_arith)
            requires
                n == 0,
        ;
    }
}

/// Law: a crop holds the pixels of the image where it lies, row by row: the
/// byte `b` of the pixel in column `col` and row `row` of the crop is that
/// of the pixel so much further right and down in the image.
pub proof fn law_a_crop_holds_the_pixels(
    src: Seq<u8>,
    bw: int,
    bh: int,
    crop: Crop,
    row: int,
    col: int,
    b: int,
)
    requires
        src.len() == bw * 4 * bh,
        crop.x >= 0,
        crop.y >= 0,
        crop.w > 0,
        crop.h > 0,
        crop.x + crop.w <= bw,
        crop.y + crop.h <= bh,
        0 <= row < crop.h,
        0 <= col < crop.w,
        0 <= b < 4,
    ensures
        crop_bytes(src, bw, crop).len() == crop.h * (crop.w * 4),
        crop_bytes(src, bw, crop)[row * (crop.w * 4) + (4 * col + b)] == src[(crop.y + row) * (bw
            * 4) + 4 * (crop.x + col) + b],
{
    let stride = bw * 4;
    let first = crop.y * stride + crop.x * 4;
    let width = crop.w * 4;
    let n = crop.h as int;
    assert(0 <= crop.y * stride) by (nonlinear_arith)
        requires
            crop.y >= 0,
            stride >= 0,
    ;
    assert(first + (n - 1) * stride + width <= src.len()) by (nonlinear_arith)
        requires
            first == crop.y * stride + crop.x * 4,
            width == crop.w * 4,
            stride == bw * 4,
            n == crop.h,
            src.len() == bw * 4 * bh,
            crop.x + crop.w <= bw,
            crop.y + crop.h <= bh,
            crop.w > 0,
            crop.x >= 0,
    ;
    lemma_rows(src, stride, first, width, n, row, 4 * col + b);
    assert((crop.y + row) * stride == crop.y * stride + row * stride) by (nonlinear_arith);
}

/// Law: zooming is done with the control key alone, by the wheel or by a
/// key, in the direction asked for; a turn goes the other way with shift;
/// only a selection with pixels is copied.
pub proof fn law_gestures_do_what_is_asked(event: CanvasEvent)
    ensures
        event matches CanvasEvent::Scroll { ctrl, up } ==> {
            &&& reaction(event) is PanByScroll <==> !ctrl
            &&& reaction(event) is ZoomInCentered <==> ctrl && up
            &&& reaction(event) is ZoomOutCentered <==> ctrl && !up
        },
        event matches CanvasEvent::Key { key, ctrl, shift, pixels } ==> {
            &&& reaction(event) is ZoomIn <==> ctrl && (key is Equal || key is Plus)
            &&& reaction(event) is ZoomOut <==> ctrl && (key is Minus || key is Underscore)
            &&& reaction(event) is ZoomReset <==> ctrl && key is Zero
            &&& reaction(event) is RotateClockwise <==> key is R && !shift
            &&& reaction(event) is RotateCounterClockwise <==> key is R && shift
            &&& reaction(event) is CopySelection <==> key is C && ctrl && pixels
            &&& key is Other ==> reaction(event) is Pass
        },
        event is PinchBegin ==> reaction(event) is RememberZoom,
        event is PinchChange ==> reaction(event) is ZoomFromRemembered,
        event is PanBegin ==> reaction(event) is RememberView,
        event is PanChange ==> reaction(event) is PanFromRemembered,
        event is SelectBegin ==> reaction(event) is BeginSelection,
        event is Shown ==> reaction(event) is GrabFocus,
        event matches CanvasEvent::SelectChange { in_image } ==> (reaction(event) is GrowSelection
            <==> in_image),
        event matches CanvasEvent::SelectEnd { moved, selected, inside } ==> (reaction(event)
            is DropSelection <==> !moved && selected && !inside),
{
}

} // verus!
