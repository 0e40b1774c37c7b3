use vstd::prelude::*;

verus! {

/// Bound on the magnitude of every rectangle edge the engine works with.
/// Accumulated offsets stay far below it, so additions never overflow `i64`.
pub const RECT_LIMIT: i64 = 0x1000_0000_0000_0000;

/// Padding added around a command's rectangle when computing dirty regions,
/// absorbing anti-aliasing and font overhang.
pub const BOUNDS_PAD: i64 = 10;

/// An RGBA color with 8-bit channels.
#[derive(Clone, Copy, Debug, PartialEq, Eq, Structural)]
pub struct Color {
    pub r: u8,
    pub g: u8,
    pub b: u8,
    pub a: u8,
}

impl Color {
    pub fn new(r: u8, g: u8, b: u8, a: u8) -> (c: Color)
        ensures
            c == (Color { r, g, b, a }),
    {
        Color { r, g, b, a }
    }

    pub fn from_rgba8(r: u8, g: u8, b: u8, a: u8) -> (c: Color)
        ensures
            c == (Color { r, g, b, a }),
    {
        Color { r, g, b, a }
    }
}

/// An axis-aligned rectangle in pixels; `x`/`y` is the top-left corner.
#[derive(Clone, Copy, Debug, PartialEq, Eq, Structural)]
pub struct Rect {
    pub x: i64,
    pub y: i64,
    pub width: i64,
    pub height: i64,
}

/// All four edges of `r` lie within `[-b, b]` and the extents are nonnegative.
pub open spec fn rect_within(r: Rect, b: int) -> bool {
    &&& -b <= r.x
    &&& r.x + r.width <= b
    &&& -b <= r.y
    &&& r.y + r.height <= b
    &&& 0 <= r.width
    &&& 0 <= r.height
}

/// The smallest rectangle covering both `a` and `b`.
pub open spec fn spec_expand(a: Rect, b: Rect) -> Rect {
    let min_x = if a.x <= b.x { a.x } else { b.x };
    let min_y = if a.y <= b.y { a.y } else { b.y };
    let max_x = if a.x + a.width >= b.x + b.width { a.x + a.width } else { b.x + b.width };
    let max_y = if a.y + a.height >= b.y + b.height { a.y + a.height } else { b.y + b.height };
    Rect {
        x: min_x,
        y: min_y,
        width: (max_x - min_x) as i64,
        height: (max_y - min_y) as i64,
    }
}

/// Whether `a` and `b` overlap in both axes (touching edges do not count).
pub open spec fn spec_intersects(a: Rect, b: Rect) -> bool {
    !(a.x + a.width <= b.x || b.x + b.width <= a.x || a.y + a.height <= b.y || b.y + b.height
        <= a.y)
}

impl Rect {
    pub fn new(x: i64, y: i64, width: i64, height: i64) -> (r: Rect)
        ensures
            r == (Rect { x, y, width, height }),
    {
        Rect { x, y, width, height }
    }

    /// Grow this rectangle just enough to also cover `other`.
    pub fn expand(&self, other: Rect) -> (r: Rect)
        requires
            rect_within(*self, RECT_LIMIT as int + BOUNDS_PAD as int),
            rect_within(other, RECT_LIMIT as int + BOUNDS_PAD as int),
        ensures
            r == spec_expand(*self, other),
            rect_within(r, RECT_LIMIT as int + BOUNDS_PAD as int),
    {
        let min_x = if self.x <= other.x { self.x } else { other.x };
        let min_y = if self.y <= other.y { self.y } else { other.y };
        let self_right = self.x + self.width;
        let other_right = other.x + other.width;
        let self_bottom = self.y + self.height;
        let other_bottom = other.y + other.height;
        let max_x = if self_right >= other_right { self_right } else { other_right };
        let max_y = if self_bottom >= other_bottom { self_bottom } else { other_bottom };
        Rect { x: min_x, y: min_y, width: max_x - min_x, height: max_y - min_y }
    }

    /// Whether this rectangle overlaps `other`.
    pub fn intersects(&self, other: &Rect) -> (r: bool)
        requires
            rect_within(*self, RECT_LIMIT as int + BOUNDS_PAD as int),
            rect_within(*other, RECT_LIMIT as int + BOUNDS_PAD as int),
        ensures
            r == spec_intersects(*self, *other),
    {
        !(self.x + self.width <= other.x || other.x + other.width <= self.x || self.y
            + self.height <= other.y || other.y + other.height <= self.y)
    }
}

/// A linear gradient: an angle in degrees and color stops with positions
/// given in thousandths of the gradient's length.
#[derive(Clone, Debug)]
pub struct LinearGradient {
    pub angle: i32,
    pub stops: Vec<(Color, u32)>,
}

/// Mathematical value of a `LinearGradient`.
pub ghost struct GradientView {
    pub angle: int,
    pub stops: Seq<(Color, u32)>,
}

impl View for LinearGradient {
    type V = GradientView;

    open spec fn view(&self) -> GradientView {
        GradientView { angle: self.angle as int, stops: self.stops@ }
    }
}

/// Whether two optional gradients denote the same gradient.
pub open spec fn gradient_opt_eqv(a: Option<LinearGradient>, b: Option<LinearGradient>) -> bool {
    match (a, b) {
        (Option::None, Option::None) => true,
        (Option::Some(ga), Option::Some(gb)) => ga@ == gb@,
        _ => false,
    }
}

/// Compare two optional gradients by value.
pub fn gradient_opt_eq(a: &Option<LinearGradient>, b: &Option<LinearGradient>) -> (r: bool)
    ensures
        r == gradient_opt_eqv(*a, *b),
{
    match (a.as_ref(), b.as_ref()) {
        (Option::None, Option::None) => true,
        (Option::Some(ga), Option::Some(gb)) => {
            if ga.angle != gb.angle {
                return false;
            }
            if ga.stops.len() != gb.stops.len() {
                assert(ga@.stops.len() != gb@.stops.len());
                return false;
            }
            let n = ga.stops.len();
            let mut i: usize = 0;
            while i < n
                invariant
                    *a is Some,
                    *b is Some,
                    (*a)->0@ == ga@,
                    (*b)->0@ == gb@,
                    n == ga.stops.len(),
                    n == gb.stops.len(),
                    i <= n,
                    forall|j: int| 0 <= j < i ==> ga.stops@[j] == gb.stops@[j],
                decreases n - i,
            {
                if ga.stops[i].0 != gb.stops[i].0 || ga.stops[i].1 != gb.stops[i].1 {
                    assert(ga@.stops[i as int] != gb@.stops[i as int]);
                    return false;
                }
                i = i + 1;
            }
            assert(ga.stops@ =~= gb.stops@);
            true
        },
        _ => false,
    }
}

/// Copy a gradient.
pub fn dup_gradient(g: &LinearGradient) -> (r: LinearGradient)
    ensures
        r@ == g@,
{
    let n = g.stops.len();
    let mut stops: Vec<(Color, u32)> = Vec::new();
    let mut i: usize = 0;
    while i < n
        invariant
            i <= n,
            n == g.stops@.len(),
            stops@ == g.stops@.subrange(0, i as int),
        decreases n - i,
    {
        stops.push(g.stops[i]);
        proof {
            assert(stops@ =~= g.stops@.subrange(0, i + 1 as int));
        }
        i = i + 1;
    }
    proof {
        assert(g.stops@.subrange(0, n as int) =~= g.stops@);
    }
    LinearGradient { angle: g.angle, stops }
}

/// Compare two optional colors by value.
pub fn color_opt_eq(a: &Option<Color>, b: &Option<Color>) -> (r: bool)
    ensures
        r == (*a == *b),
{
    match (a.as_ref(), b.as_ref()) {
        (Option::None, Option::None) => true,
        (Option::Some(ca), Option::Some(cb)) => *ca == *cb,
        _ => false,
    }
}

/// One instruction of a frame's paint plan, in absolute coordinates.
/// Later commands paint over earlier ones.
#[derive(Clone, Debug)]
pub enum DrawCommand {
    Clip { rect: Rect },
    PopClip,
    DrawRect {
        rect: Rect,
        color: Option<Color>,
        gradient: Option<LinearGradient>,
        border_radius: i64,
        border_width: i64,
        border_color: Option<Color>,
    },
    DrawText { text: String, rect: Rect, color: Color, font_size: u32, weight: u16 },
    DrawImage { src: String, rect: Rect, border_radius: i64 },
    DrawCheckbox { rect: Rect, checked: bool, color: Color },
    DrawSlider { rect: Rect, value: u32, color: Color },
    DrawProgress { rect: Rect, value: i64, max: i64, color: Color },
    DrawCanvas { id: String, rect: Rect },
}

/// Mathematical value of a `DrawCommand`.
pub ghost enum CmdView {
    Clip { rect: Rect },
    PopClip,
    DrawRect {
        rect: Rect,
        color: Option<Color>,
        gradient: Option<GradientView>,
        border_radius: i64,
        border_width: i64,
        border_color: Option<Color>,
    },
    DrawText { text: Seq<char>, rect: Rect, color: Color, font_size: u32, weight: u16 },
    DrawImage { src: Seq<char>, rect: Rect, border_radius: i64 },
    DrawCheckbox { rect: Rect, checked: bool, color: Color },
    DrawSlider { rect: Rect, value: u32, color: Color },
    DrawProgress { rect: Rect, value: i64, max: i64, color: Color },
    DrawCanvas { id: Seq<char>, rect: Rect },
}

/// View of an optional gradient.
pub open spec fn view_gradient_opt(g: Option<LinearGradient>) -> Option<GradientView> {
    match g {
        Option::None => Option::None,
        Option::Some(x) => Option::Some(x@),
    }
}

impl View for DrawCommand {
    type V = CmdView;

    open spec fn view(&self) -> CmdView {
        match self {
            DrawCommand::Clip { rect } => CmdView::Clip { rect: *rect },
            DrawCommand::PopClip => CmdView::PopClip,
            DrawCommand::DrawRect { rect, color, gradient, border_radius, border_width, border_color } => CmdView::DrawRect {
                rect: *rect,
                color: *color,
                gradient: view_gradient_opt(*gradient),
                border_radius: *border_radius,
                border_width: *border_width,
                border_color: *border_color,
            },
            DrawCommand::DrawText { text, rect, color, font_size, weight } => CmdView::DrawText {
                text: text@,
                rect: *rect,
                color: *color,
                font_size: *font_size,
                weight: *weight,
            },
            DrawCommand::DrawImage { src, rect, border_radius } => CmdView::DrawImage {
                src: src@,
                rect: *rect,
                border_radius: *border_radius,
            },
            DrawCommand::DrawCheckbox { rect, checked, color } => CmdView::DrawCheckbox {
                rect: *rect,
                checked: *checked,
                color: *color,
            },
            DrawCommand::DrawSlider { rect, value, color } => CmdView::DrawSlider {
                rect: *rect,
                value: *value,
                color: *color,
            },
            DrawCommand::DrawProgress { rect, value, max, color } => CmdView::DrawProgress {
                rect: *rect,
                value: *value,
                max: *max,
                color: *color,
            },
            DrawCommand::DrawCanvas { id, rect } => CmdView::DrawCanvas { id: id@, rect: *rect },
        }
    }
}

/// The rectangle a command touches, if any.
pub open spec fn cmd_rect(c: CmdView) -> Option<Rect> {
    match c {
        CmdView::Clip { rect } => Option::Some(rect),
        CmdView::PopClip => Option::None,
        CmdView::DrawRect { rect, .. } => Option::Some(rect),
        CmdView::DrawText { rect, .. } => Option::Some(rect),
        CmdView::DrawImage { rect, .. } => Option::Some(rect),
        CmdView::DrawCheckbox { rect, .. } => Option::Some(rect),
        CmdView::DrawSlider { rect, .. } => Option::Some(rect),
        CmdView::DrawProgress { rect, .. } => Option::Some(rect),
        CmdView::DrawCanvas { rect, .. } => Option::Some(rect),
    }
}

/// `r` grown by `BOUNDS_PAD` on every side.
pub open spec fn spec_pad(r: Rect) -> Rect {
    Rect {
        x: (r.x - BOUNDS_PAD) as i64,
        y: (r.y - BOUNDS_PAD) as i64,
        width: (r.width + 2 * BOUNDS_PAD) as i64,
        height: (r.height + 2 * BOUNDS_PAD) as i64,
    }
}

/// The padded bounding box of a command: its rectangle grown by
/// `BOUNDS_PAD`, or nothing for `PopClip`.
pub open spec fn spec_bounds(c: CmdView) -> Option<Rect> {
    match cmd_rect(c) {
        Option::None => Option::None,
        Option::Some(r) => Option::Some(spec_pad(r)),
    }
}

/// Every rectangle the command mentions has its edges within `[-b, b]`.
pub open spec fn cmd_within(c: CmdView, b: int) -> bool {
    match cmd_rect(c) {
        Option::None => true,
        Option::Some(r) => rect_within(r, b),
    }
}

impl DrawCommand {
    /// The padded bounding box this command may touch on screen.
    pub fn bounds(&self) -> (r: Option<Rect>)
        requires
            cmd_within(self@, RECT_LIMIT as int),
        ensures
            r == spec_bounds(self@),
            r matches Option::Some(rec) ==> rect_within(rec, RECT_LIMIT + BOUNDS_PAD),
    {
        let rect = match self {
            DrawCommand::Clip { rect } => *rect,
            DrawCommand::PopClip => { return Option::None; },
            DrawCommand::DrawRect { rect, .. } => *rect,
            DrawCommand::DrawText { rect, .. } => *rect,
            DrawCommand::DrawImage { rect, .. } => *rect,
            DrawCommand::DrawCheckbox { rect, .. } => *rect,
            DrawCommand::DrawSlider { rect, .. } => *rect,
            DrawCommand::DrawProgress { rect, .. } => *rect,
            DrawCommand::DrawCanvas { rect, .. } => *rect,
        };
        Option::Some(
            Rect {
                x: rect.x - BOUNDS_PAD,
                y: rect.y - BOUNDS_PAD,
                width: rect.width + 2 * BOUNDS_PAD,
                height: rect.height + 2 * BOUNDS_PAD,
            },
        )
    }
}

/// Compare two draw commands by value.
pub fn cmd_eq(a: &DrawCommand, b: &DrawCommand) -> (r: bool)
    ensures
        r == (a@ == b@),
{
    match (a, b) {
        (DrawCommand::Clip { rect: ra }, DrawCommand::Clip { rect: rb }) => *ra == *rb,
        (DrawCommand::PopClip, DrawCommand::PopClip) => true,
        (
            DrawCommand::DrawRect {
                rect: ra,
                color: ca,
                gradient: ga,
                border_radius: bra,
                border_width: bwa,
                border_color: bca,
            },
            DrawCommand::DrawRect {
                rect: rb,
                color: cb,
                gradient: gb,
                border_radius: brb,
                border_width: bwb,
                border_color: bcb,
            },
        ) => *ra == *rb && color_opt_eq(ca, cb) && gradient_opt_eq(ga, gb) && *bra == *brb && *bwa
            == *bwb && color_opt_eq(bca, bcb),
        (
            DrawCommand::DrawText { text: ta, rect: ra, color: ca, font_size: fa, weight: wa },
            DrawCommand::DrawText { text: tb, rect: rb, color: cb, font_size: fb, weight: wb },
        ) => *ta == *tb && *ra == *rb && *ca == *cb && *fa == *fb && *wa == *wb,
        (
            DrawCommand::DrawImage { src: sa, rect: ra, border_radius: ba },
            DrawCommand::DrawImage { src: sb, rect: rb, border_radius: bb },
        ) => *sa == *sb && *ra == *rb && *ba == *bb,
        (
            DrawCommand::DrawCheckbox { rect: ra, checked: ka, color: ca },
            DrawCommand::DrawCheckbox { rect: rb, checked: kb, color: cb },
        ) => *ra == *rb && *ka == *kb && *ca == *cb,
        (
            DrawCommand::DrawSlider { rect: ra, value: va, color: ca },
            DrawCommand::DrawSlider { rect: rb, value: vb, color: cb },
        ) => *ra == *rb && *va == *vb && *ca == *cb,
        (
            DrawCommand::DrawProgress { rect: ra, value: va, max: ma, color: ca },
            DrawCommand::DrawProgress { rect: rb, value: vb, max: mb, color: cb },
        ) => *ra == *rb && *va == *vb && *ma == *mb && *ca == *cb,
        (
            DrawCommand::DrawCanvas { id: ia, rect: ra },
            DrawCommand::DrawCanvas { id: ib, rect: rb },
        ) => *ia == *ib && *ra == *rb,
        _ => false,
    }
}

} // verus!
