use vstd::prelude::*;

use crate::geometry::{Color, GradientView, LinearGradient, dup_gradient, view_gradient_opt};

verus! {

/// How a node treats content that exceeds its box.
#[derive(Clone, Copy, Debug, PartialEq, Eq, Structural)]
pub enum Overflow {
    Visible,
    Hidden,
    Scroll,
}

/// Paint and typography state of one node.
///
/// The font and color fields inherit from the parent; the box-paint fields
/// (background, border, overflow) reset at every node and only that node's
/// own tag defaults or inline declarations can set them.
#[derive(Debug)]
pub struct ContainerStyle {
    pub color: Color,
    pub font_size: u32,
    pub weight: u16,
    pub background_color: Option<Color>,
    pub border_radius: i64,
    pub border_width: i64,
    pub border_color: Option<Color>,
    pub background_gradient: Option<LinearGradient>,
    pub overflow: Overflow,
}

/// Mathematical value of a `ContainerStyle`.
pub ghost struct StyleView {
    pub color: Color,
    pub font_size: u32,
    pub weight: u16,
    pub background_color: Option<Color>,
    pub border_radius: i64,
    pub border_width: i64,
    pub border_color: Option<Color>,
    pub background_gradient: Option<GradientView>,
    pub overflow: Overflow,
}

impl View for ContainerStyle {
    type V = StyleView;

    open spec fn view(&self) -> StyleView {
        StyleView {
            color: self.color,
            font_size: self.font_size,
            weight: self.weight,
            background_color: self.background_color,
            border_radius: self.border_radius,
            border_width: self.border_width,
            border_color: self.border_color,
            background_gradient: view_gradient_opt(self.background_gradient),
            overflow: self.overflow,
        }
    }
}

/// The style every tree gets at its root: black regular 16px text and no
/// box paint.
pub open spec fn spec_default_style() -> StyleView {
    StyleView {
        color: Color { r: 0, g: 0, b: 0, a: 255 },
        font_size: 16,
        weight: 0,
        background_color: Option::None,
        border_radius: 0,
        border_width: 0,
        border_color: Option::None,
        background_gradient: Option::None,
        overflow: Overflow::Visible,
    }
}

impl Default for ContainerStyle {
    /// Black regular 16px text with no background, border, or clipping.
    fn default() -> (s: ContainerStyle)
        ensures
            s@ == spec_default_style(),
    {
        ContainerStyle {
            color: Color { r: 0, g: 0, b: 0, a: 255 },
            font_size: 16,
            weight: 0,
            background_color: Option::None,
            border_radius: 0,
            border_width: 0,
            border_color: Option::None,
            background_gradient: Option::None,
            overflow: Overflow::Visible,
        }
    }
}

/// The box-paint fields of `s` hold their zero values: nothing painted,
/// no border, overflow visible.
pub open spec fn box_paint_reset(s: StyleView) -> bool {
    &&& s.background_color is None
    &&& s.background_gradient is None
    &&& s.border_width == 0
    &&& s.border_radius == 0
    &&& s.border_color is None
    &&& s.overflow == Overflow::Visible
}

/// Inheritance always hands a child a clean box: whatever the parent
/// painted, the inherited style starts with every box-paint field at its
/// zero value.
pub proof fn lemma_inherit_resets_box_paint(parent: StyleView)
    ensures
        box_paint_reset(spec_inherit(parent)),
{
}

/// What a child inherits from `parent`: the font and color fields carry
/// over, every box-paint field resets.
pub open spec fn spec_inherit(parent: StyleView) -> StyleView {
    StyleView {
        color: parent.color,
        font_size: parent.font_size,
        weight: parent.weight,
        background_color: Option::None,
        border_radius: 0,
        border_width: 0,
        border_color: Option::None,
        background_gradient: Option::None,
        overflow: Overflow::Visible,
    }
}

/// Build the style a child starts from: inherited font and color fields,
/// box-paint fields reset.
pub fn inherit_style(parent: &ContainerStyle) -> (s: ContainerStyle)
    ensures
        s@ == spec_inherit(parent@),
{
    ContainerStyle {
        color: parent.color,
        font_size: parent.font_size,
        weight: parent.weight,
        background_color: Option::None,
        border_radius: 0,
        border_width: 0,
        border_color: Option::None,
        background_gradient: Option::None,
        overflow: Overflow::Visible,
    }
}

/// Copy an optional gradient.
pub fn dup_gradient_opt(g: &Option<LinearGradient>) -> (r: Option<LinearGradient>)
    ensures
        view_gradient_opt(r) == view_gradient_opt(*g),
{
    match g.as_ref() {
        Option::Some(x) => Option::Some(dup_gradient(x)),
        Option::None => Option::None,
    }
}

/// Copy a style.
pub fn dup_style(s: &ContainerStyle) -> (r: ContainerStyle)
    ensures
        r@ == s@,
{
    let background_gradient = match s.background_gradient.as_ref() {
        Option::Some(g) => Option::Some(dup_gradient(g)),
        Option::None => Option::None,
    };
    ContainerStyle {
        color: s.color,
        font_size: s.font_size,
        weight: s.weight,
        background_color: s.background_color,
        border_radius: s.border_radius,
        border_width: s.border_width,
        border_color: s.border_color,
        background_gradient,
        overflow: s.overflow,
    }
}

/// The paint-relevant classification of a layout node. Slider values and
/// progress values/maxima are in thousandths; a slider value lies in
/// `[0, 1000]`.
#[derive(Debug)]
pub enum RenderData {
    Container(ContainerStyle),
    Text(String, ContainerStyle),
    Image(String, ContainerStyle),
    Checkbox(bool, ContainerStyle),
    Slider(u32, ContainerStyle),
    Progress(i64, i64, ContainerStyle),
    Canvas(String, ContainerStyle),
}

/// Mathematical value of a `RenderData`.
pub ghost enum EntityView {
    Container(StyleView),
    Text(Seq<char>, StyleView),
    Image(Seq<char>, StyleView),
    Checkbox(bool, StyleView),
    Slider(u32, StyleView),
    Progress(i64, i64, StyleView),
    Canvas(Seq<char>, StyleView),
}

impl View for RenderData {
    type V = EntityView;

    open spec fn view(&self) -> EntityView {
        match self {
            RenderData::Container(s) => EntityView::Container(s@),
            RenderData::Text(t, s) => EntityView::Text(t@, s@),
            RenderData::Image(src, s) => EntityView::Image(src@, s@),
            RenderData::Checkbox(c, s) => EntityView::Checkbox(*c, s@),
            RenderData::Slider(v, s) => EntityView::Slider(*v, s@),
            RenderData::Progress(v, m, s) => EntityView::Progress(*v, *m, s@),
            RenderData::Canvas(id, s) => EntityView::Canvas(id@, s@),
        }
    }
}

} // verus!
