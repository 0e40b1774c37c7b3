use vstd::prelude::*;

verus! {

/// Largest magnitude accepted for a single length, coordinate, or extent,
/// in pixels. Values beyond it are rejected by the parsers and clamped at
/// the layout boundary, so position sums over a whole tree stay far inside
/// `i64`.
pub const COORD_LIMIT: i64 = 0x100_0000;

/// A width or height constraint handed to the layout engine: unconstrained,
/// a pixel length, or a fraction of the parent in thousandths.
#[derive(Clone, Copy, Debug, PartialEq, Eq, Structural)]
pub enum Dimension {
    Auto,
    Px(i64),
    Percent(u32),
}

/// One pixel length per box edge.
#[derive(Clone, Copy, Debug, PartialEq, Eq, Structural)]
pub struct EdgeValues {
    pub left: i64,
    pub right: i64,
    pub top: i64,
    pub bottom: i64,
}

/// An inset: keep the automatic position or offset by a pixel length.
#[derive(Clone, Copy, Debug, PartialEq, Eq, Structural)]
pub enum InsetValue {
    Auto,
    Px(i64),
}

/// One inset per box edge.
#[derive(Clone, Copy, Debug, PartialEq, Eq, Structural)]
pub struct InsetValues {
    pub left: InsetValue,
    pub right: InsetValue,
    pub top: InsetValue,
    pub bottom: InsetValue,
}

#[derive(Clone, Copy, Debug, PartialEq, Eq, Structural)]
pub enum FlexDirection {
    Row,
    Column,
    RowReverse,
    ColumnReverse,
}

#[derive(Clone, Copy, Debug, PartialEq, Eq, Structural)]
pub enum JustifyContent {
    FlexStart,
    FlexEnd,
    Center,
    SpaceBetween,
    SpaceAround,
    SpaceEvenly,
}

#[derive(Clone, Copy, Debug, PartialEq, Eq, Structural)]
pub enum AlignItems {
    FlexStart,
    FlexEnd,
    Center,
    Baseline,
    Stretch,
}

#[derive(Clone, Copy, Debug, PartialEq, Eq, Structural)]
pub enum Position {
    Relative,
    Absolute,
}

/// Everything the external flexbox solver needs to know about one node.
/// `flex_grow` and `flex_shrink` are in thousandths.
#[derive(Clone, Copy, Debug, PartialEq, Eq, Structural)]
pub struct LayoutStyle {
    pub width: Dimension,
    pub height: Dimension,
    pub min_height: Dimension,
    pub margin: EdgeValues,
    pub padding: EdgeValues,
    pub inset: InsetValues,
    pub flex_direction: FlexDirection,
    pub justify_content: Option<JustifyContent>,
    pub align_items: Option<AlignItems>,
    pub flex_grow: u32,
    pub flex_shrink: u32,
    pub position: Position,
}

/// The layout constraints a node gets before any tag default or inline
/// declaration touches them: fully automatic sizing in a row, growing
/// never and shrinking at full rate.
pub open spec fn spec_default_layout() -> LayoutStyle {
    LayoutStyle {
        width: Dimension::Auto,
        height: Dimension::Auto,
        min_height: Dimension::Auto,
        margin: EdgeValues { left: 0, right: 0, top: 0, bottom: 0 },
        padding: EdgeValues { left: 0, right: 0, top: 0, bottom: 0 },
        inset: InsetValues {
            left: InsetValue::Auto,
            right: InsetValue::Auto,
            top: InsetValue::Auto,
            bottom: InsetValue::Auto,
        },
        flex_direction: FlexDirection::Row,
        justify_content: Option::None,
        align_items: Option::None,
        flex_grow: 0,
        flex_shrink: 1000,
        position: Position::Relative,
    }
}

impl Default for LayoutStyle {
    /// The untouched layout constraints of a fresh node.
    fn default() -> (s: LayoutStyle)
        ensures
            s == spec_default_layout(),
    {
        LayoutStyle {
            width: Dimension::Auto,
            height: Dimension::Auto,
            min_height: Dimension::Auto,
            margin: EdgeValues { left: 0, right: 0, top: 0, bottom: 0 },
            padding: EdgeValues { left: 0, right: 0, top: 0, bottom: 0 },
            inset: InsetValues {
                left: InsetValue::Auto,
                right: InsetValue::Auto,
                top: InsetValue::Auto,
                bottom: InsetValue::Auto,
            },
            flex_direction: FlexDirection::Row,
            justify_content: Option::None,
            align_items: Option::None,
            flex_grow: 0,
            flex_shrink: 1000,
            position: Position::Relative,
        }
    }
}

} // verus!
