use vstd::prelude::*;

use crate::chars::str_eq;
use crate::geometry::Color;
use crate::layout::{
    AlignItems, Dimension, EdgeValues, FlexDirection, JustifyContent, LayoutStyle,
    spec_default_layout,
};
use crate::style::{ContainerStyle, StyleView, dup_style};

verus! {

/// What kind of entity a tag produces.
#[derive(Clone, Copy, Debug, PartialEq, Eq, Structural)]
pub enum ElementType {
    Container,
    Image,
    Checkbox,
    Slider,
    Progress,
    Canvas,
}

/// The three results of resolving a tag: layout constraints, paint style,
/// and entity kind.
pub struct StyleBundle {
    pub layout_style: LayoutStyle,
    pub container_style: ContainerStyle,
    pub element_type: ElementType,
}

/// A margin or padding with the given vertical and horizontal lengths.
pub open spec fn vh_edges(v: i64, h: i64) -> EdgeValues {
    EdgeValues { left: h, right: h, top: v, bottom: v }
}

/// The layout constraints, paint style, and entity kind a tag carries
/// before any inline declaration: headings set font sizes, weights, and
/// vertical margins; lists, tables, and cells set direction and padding;
/// buttons carry their default paint; images, checkboxes, progress bars,
/// and canvases are sized leaves. An unknown tag is a plain container.
pub open spec fn spec_default_bundle(tag: Seq<char>, parent: StyleView) -> (
    LayoutStyle,
    StyleView,
    ElementType,
) {
    let ls = spec_default_layout();
    if tag == "h1"@ {
        (
            LayoutStyle { flex_direction: FlexDirection::Column, margin: vh_edges(20, 0), ..ls },
            StyleView { font_size: 32, ..parent },
            ElementType::Container,
        )
    } else if tag == "h2"@ {
        (
            LayoutStyle { flex_direction: FlexDirection::Column, margin: vh_edges(15, 0), ..ls },
            StyleView { font_size: 24, ..parent },
            ElementType::Container,
        )
    } else if tag == "p"@ {
        (
            LayoutStyle { flex_direction: FlexDirection::Column, margin: vh_edges(10, 0), ..ls },
            parent,
            ElementType::Container,
        )
    } else if tag == "ul"@ {
        (
            LayoutStyle {
                flex_direction: FlexDirection::Column,
                padding: EdgeValues { left: 20, right: 0, top: 0, bottom: 0 },
                ..ls
            },
            parent,
            ElementType::Container,
        )
    } else if tag == "li"@ {
        (
            LayoutStyle { flex_direction: FlexDirection::Column, margin: vh_edges(2, 0), ..ls },
            parent,
            ElementType::Container,
        )
    } else if tag == "div"@ || tag == "body"@ {
        (
            LayoutStyle { flex_direction: FlexDirection::Column, ..ls },
            parent,
            ElementType::Container,
        )
    } else if tag == "img"@ {
        (
            LayoutStyle { width: Dimension::Px(100), height: Dimension::Px(100), ..ls },
            parent,
            ElementType::Image,
        )
    } else if tag == "strong"@ || tag == "b"@ {
        (ls, StyleView { weight: 1, ..parent }, ElementType::Container)
    } else if tag == "checkbox"@ {
        (
            LayoutStyle {
                width: Dimension::Px(20),
                height: Dimension::Px(20),
                margin: vh_edges(0, 5),
                ..ls
            },
            parent,
            ElementType::Checkbox,
        )
    } else if tag == "h3"@ {
        (
            LayoutStyle { flex_direction: FlexDirection::Column, margin: vh_edges(12, 0), ..ls },
            StyleView { font_size: 20, weight: 1, ..parent },
            ElementType::Container,
        )
    } else if tag == "h4"@ {
        (
            LayoutStyle { flex_direction: FlexDirection::Column, margin: vh_edges(10, 0), ..ls },
            StyleView { font_size: 18, weight: 1, ..parent },
            ElementType::Container,
        )
    } else if tag == "h5"@ {
        (
            LayoutStyle { flex_direction: FlexDirection::Column, margin: vh_edges(8, 0), ..ls },
            StyleView { font_size: 16, weight: 1, ..parent },
            ElementType::Container,
        )
    } else if tag == "h6"@ {
        (
            LayoutStyle { flex_direction: FlexDirection::Column, margin: vh_edges(6, 0), ..ls },
            StyleView { font_size: 14, weight: 1, ..parent },
            ElementType::Container,
        )
    } else if tag == "table"@ || tag == "tbody"@ || tag == "thead"@ || tag == "tfoot"@ {
        (
            LayoutStyle {
                flex_direction: FlexDirection::Column,
                padding: vh_edges(2, 2),
                ..ls
            },
            parent,
            ElementType::Container,
        )
    } else if tag == "tr"@ {
        (
            LayoutStyle {
                flex_direction: FlexDirection::Row,
                width: Dimension::Percent(1000),
                ..ls
            },
            parent,
            ElementType::Container,
        )
    } else if tag == "td"@ {
        (LayoutStyle { padding: vh_edges(2, 5), ..ls }, parent, ElementType::Container)
    } else if tag == "th"@ {
        (
            LayoutStyle {
                padding: vh_edges(2, 5),
                align_items: Option::Some(AlignItems::Center),
                justify_content: Option::Some(JustifyContent::Center),
                ..ls
            },
            StyleView { weight: 1, ..parent },
            ElementType::Container,
        )
    } else if tag == "button"@ {
        (
            LayoutStyle {
                padding: vh_edges(5, 10),
                margin: vh_edges(2, 2),
                align_items: Option::Some(AlignItems::Center),
                justify_content: Option::Some(JustifyContent::Center),
                ..ls
            },
            StyleView {
                background_color: Option::Some(Color { r: 220, g: 220, b: 220, a: 255 }),
                border_radius: 4,
                border_width: 1,
                border_color: Option::Some(Color { r: 180, g: 180, b: 180, a: 255 }),
                ..parent
            },
            ElementType::Container,
        )
    } else if tag == "progress"@ {
        (
            LayoutStyle { width: Dimension::Px(150), height: Dimension::Px(20), ..ls },
            parent,
            ElementType::Progress,
        )
    } else if tag == "canvas"@ {
        (
            LayoutStyle { width: Dimension::Px(200), height: Dimension::Px(200), ..ls },
            parent,
            ElementType::Canvas,
        )
    } else {
        (ls, parent, ElementType::Container)
    }
}

/// Resolve a tag into its default layout constraints, paint style, and
/// entity kind, starting from the inherited style.
pub fn get_default_style(tag: &str, parent_style: &ContainerStyle) -> (bundle: StyleBundle)
    ensures
        bundle.layout_style == spec_default_bundle(tag@, parent_style@).0,
        bundle.container_style@ == spec_default_bundle(tag@, parent_style@).1,
        bundle.element_type == spec_default_bundle(tag@, parent_style@).2,
{
    let ls = LayoutStyle::default();
    let mut cs = dup_style(parent_style);
    if str_eq(tag, "h1") {
        cs.font_size = 32;
        StyleBundle {
            layout_style: LayoutStyle {
                flex_direction: FlexDirection::Column,
                margin: EdgeValues { left: 0, right: 0, top: 20, bottom: 20 },
                ..ls
            },
            container_style: cs,
            element_type: ElementType::Container,
        }
    } else if str_eq(tag, "h2") {
        cs.font_size = 24;
        StyleBundle {
            layout_style: LayoutStyle {
                flex_direction: FlexDirection::Column,
                margin: EdgeValues { left: 0, right: 0, top: 15, bottom: 15 },
                ..ls
            },
            container_style: cs,
            element_type: ElementType::Container,
        }
    } else if str_eq(tag, "p") {
        StyleBundle {
            layout_style: LayoutStyle {
                flex_direction: FlexDirection::Column,
                margin: EdgeValues { left: 0, right: 0, top: 10, bottom: 10 },
                ..ls
            },
            container_style: cs,
            element_type: ElementType::Container,
        }
    } else if str_eq(tag, "ul") {
        StyleBundle {
            layout_style: LayoutStyle {
                flex_direction: FlexDirection::Column,
                padding: EdgeValues { left: 20, right: 0, top: 0, bottom: 0 },
                ..ls
            },
            container_style: cs,
            element_type: ElementType::Container,
        }
    } else if str_eq(tag, "li") {
        StyleBundle {
            layout_style: LayoutStyle {
                flex_direction: FlexDirection::Column,
                margin: EdgeValues { left: 0, right: 0, top: 2, bottom: 2 },
                ..ls
            },
            container_style: cs,
            element_type: ElementType::Container,
        }
    } else if str_eq(tag, "div") || str_eq(tag, "body") {
        StyleBundle {
            layout_style: LayoutStyle { flex_direction: FlexDirection::Column, ..ls },
            container_style: cs,
            element_type: ElementType::Container,
        }
    } else if str_eq(tag, "img") {
        StyleBundle {
            layout_style: LayoutStyle {
                width: Dimension::Px(100),
                height: Dimension::Px(100),
                ..ls
            },
            container_style: cs,
            element_type: ElementType::Image,
        }
    } else if str_eq(tag, "strong") || str_eq(tag, "b") {
        cs.weight = 1;
        StyleBundle { layout_style: ls, container_style: cs, element_type: ElementType::Container }
    } else if str_eq(tag, "checkbox") {
        StyleBundle {
            layout_style: LayoutStyle {
                width: Dimension::Px(20),
                height: Dimension::Px(20),
                margin: EdgeValues { left: 5, right: 5, top: 0, bottom: 0 },
                ..ls
            },
            container_style: cs,
            element_type: ElementType::Checkbox,
        }
    } else if str_eq(tag, "h3") {
        cs.font_size = 20;
        cs.weight = 1;
        StyleBundle {
            layout_style: LayoutStyle {
                flex_direction: FlexDirection::Column,
                margin: EdgeValues { left: 0, right: 0, top: 12, bottom: 12 },
                ..ls
            },
            container_style: cs,
            element_type: ElementType::Container,
        }
    } else if str_eq(tag, "h4") {
        cs.font_size = 18;
        cs.weight = 1;
        StyleBundle {
            layout_style: LayoutStyle {
                flex_direction: FlexDirection::Column,
                margin: EdgeValues { left: 0, right: 0, top: 10, bottom: 10 },
                ..ls
            },
            container_style: cs,
            element_type: ElementType::Container,
        }
    } else if str_eq(tag, "h5") {
        cs.font_size = 16;
        cs.weight = 1;
        StyleBundle {
            layout_style: LayoutStyle {
                flex_direction: FlexDirection::Column,
                margin: EdgeValues { left: 0, right: 0, top: 8, bottom: 8 },
                ..ls
            },
            container_style: cs,
            element_type: ElementType::Container,
        }
    } else if str_eq(tag, "h6") {
        cs.font_size = 14;
        cs.weight = 1;
        StyleBundle {
            layout_style: LayoutStyle {
                flex_direction: FlexDirection::Column,
                margin: EdgeValues { left: 0, right: 0, top: 6, bottom: 6 },
                ..ls
            },
            container_style: cs,
            element_type: ElementType::Container,
        }
    } else if str_eq(tag, "table") || str_eq(tag, "tbody") || str_eq(tag, "thead") || str_eq(
        tag,
        "tfoot",
    ) {
        StyleBundle {
            layout_style: LayoutStyle {
                flex_direction: FlexDirection::Column,
                padding: EdgeValues { left: 2, right: 2, top: 2, bottom: 2 },
                ..ls
            },
            container_style: cs,
            element_type: ElementType::Container,
        }
    } else if str_eq(tag, "tr") {
        StyleBundle {
            layout_style: LayoutStyle {
                flex_direction: FlexDirection::Row,
                width: Dimension::Percent(1000),
                ..ls
            },
            container_style: cs,
            element_type: ElementType::Container,
        }
    } else if str_eq(tag, "td") {
        StyleBundle {
            layout_style: LayoutStyle {
                padding: EdgeValues { left: 5, right: 5, top: 2, bottom: 2 },
                ..ls
            },
            container_style: cs,
            element_type: ElementType::Container,
        }
    } else if str_eq(tag, "th") {
        cs.weight = 1;
        StyleBundle {
            layout_style: LayoutStyle {
                padding: EdgeValues { left: 5, right: 5, top: 2, bottom: 2 },
                align_items: Option::Some(AlignItems::Center),
                justify_content: Option::Some(JustifyContent::Center),
                ..ls
            },
            container_style: cs,
            element_type: ElementType::Container,
        }
    } else if str_eq(tag, "button") {
        cs.background_color = Option::Some(Color { r: 220, g: 220, b: 220, a: 255 });
        cs.border_radius = 4;
        cs.border_width = 1;
        cs.border_color = Option::Some(Color { r: 180, g: 180, b: 180, a: 255 });
        StyleBundle {
            layout_style: LayoutStyle {
                padding: EdgeValues { left: 10, right: 10, top: 5, bottom: 5 },
                margin: EdgeValues { left: 2, right: 2, top: 2, bottom: 2 },
                align_items: Option::Some(AlignItems::Center),
                justify_content: Option::Some(JustifyContent::Center),
                ..ls
            },
            container_style: cs,
            element_type: ElementType::Container,
        }
    } else if str_eq(tag, "progress") {
        StyleBundle {
            layout_style: LayoutStyle {
                width: Dimension::Px(150),
                height: Dimension::Px(20),
                ..ls
            },
            container_style: cs,
            element_type: ElementType::Progress,
        }
    } else if str_eq(tag, "canvas") {
        StyleBundle {
            layout_style: LayoutStyle {
                width: Dimension::Px(200),
                height: Dimension::Px(200),
                ..ls
            },
            container_style: cs,
            element_type: ElementType::Canvas,
        }
    } else {
        StyleBundle { layout_style: ls, container_style: cs, element_type: ElementType::Container }
    }
}

} // verus!
