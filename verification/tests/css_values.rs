use retained_ui::css::parse_inline_style;
use retained_ui::geometry::Color;
use retained_ui::layout::{
    AlignItems, Dimension, FlexDirection, InsetValue, JustifyContent, LayoutStyle, Position,
};
use retained_ui::style::{ContainerStyle, Overflow};

fn apply(s: &str) -> (ContainerStyle, LayoutStyle) {
    let mut cs = ContainerStyle::default();
    let mut ls = LayoutStyle::default();
    parse_inline_style(s, &mut cs, &mut ls);
    (cs, ls)
}

#[test]
fn colors_parse_through_the_css_grammar() {
    // Named, hex, and functional forms all resolve; a wrapper that handed
    // the string back unchanged could not produce these channel values.
    let (cs, _) = apply("color: red");
    assert_eq!(cs.color, Color { r: 255, g: 0, b: 0, a: 255 });
    let (cs, _) = apply("color: #336699");
    assert_eq!(cs.color, Color { r: 0x33, g: 0x66, b: 0x99, a: 255 });
    let (cs, _) = apply("background-color: rgb(1 2 3)");
    assert_eq!(cs.background_color, Some(Color { r: 1, g: 2, b: 3, a: 255 }));
    let (cs, _) = apply("color: not-a-color");
    assert_eq!(cs.color, Color { r: 0, g: 0, b: 0, a: 255 });
}

#[test]
fn pixel_lengths_accept_the_px_suffix_and_fractions() {
    let (_, ls) = apply("height: 100px");
    assert_eq!(ls.height, Dimension::Px(100));
    let (_, ls) = apply("height: 12.75px");
    assert_eq!(ls.height, Dimension::Px(12));
    let (_, ls) = apply("height: 42");
    assert_eq!(ls.height, Dimension::Px(42));
    let (_, ls) = apply("height: twelve");
    assert_eq!(ls.height, Dimension::Auto);
}

#[test]
fn percent_widths_scale_to_thousandths() {
    let (_, ls) = apply("width: 50%");
    assert_eq!(ls.width, Dimension::Percent(500));
    let (_, ls) = apply("width: 100%");
    assert_eq!(ls.width, Dimension::Percent(1000));
    let (_, ls) = apply("width: 120px");
    assert_eq!(ls.width, Dimension::Px(120));
}

#[test]
fn box_model_shorthands_expand() {
    let (_, ls) = apply("padding: 4px");
    assert_eq!(ls.padding.left, 4);
    assert_eq!(ls.padding.bottom, 4);
    let (_, ls) = apply("padding: 2px 6px");
    assert_eq!(ls.padding.top, 2);
    assert_eq!(ls.padding.left, 6);
    let (_, ls) = apply("margin: 1px 2px 3px 4px");
    assert_eq!(ls.margin.top, 1);
    assert_eq!(ls.margin.right, 2);
    assert_eq!(ls.margin.bottom, 3);
    assert_eq!(ls.margin.left, 4);
    let (_, ls) = apply("margin: 1px 2px 3px");
    assert_eq!(ls.margin.top, 0, "a three-value list is not recognized");
}

#[test]
fn border_shorthand_picks_width_and_color() {
    let (cs, _) = apply("border: 2px solid #ffffff");
    assert_eq!(cs.border_width, 2);
    assert_eq!(cs.border_color, Some(Color { r: 255, g: 255, b: 255, a: 255 }));
    let (cs, _) = apply("border-radius: 50%");
    assert_eq!(cs.border_radius, 9999);
}

#[test]
fn flex_and_position_keywords() {
    let (_, ls) = apply(
        "flex-direction: column; justify-content: space-between; align-items: center; flex-grow: 2; flex-shrink: 0.5; position: absolute; left: 7px",
    );
    assert_eq!(ls.flex_direction, FlexDirection::Column);
    assert_eq!(ls.justify_content, Some(JustifyContent::SpaceBetween));
    assert_eq!(ls.align_items, Some(AlignItems::Center));
    assert_eq!(ls.flex_grow, 2000);
    assert_eq!(ls.flex_shrink, 500);
    assert_eq!(ls.position, Position::Absolute);
    assert_eq!(ls.inset.left, InsetValue::Px(7));
}

#[test]
fn overflow_keywords_and_auto() {
    let (cs, _) = apply("overflow: hidden");
    assert!(matches!(cs.overflow, Overflow::Hidden));
    let (cs, _) = apply("overflow: auto");
    assert!(matches!(cs.overflow, Overflow::Scroll));
    let (cs, _) = apply("overflow: visible");
    assert!(matches!(cs.overflow, Overflow::Visible));
}

#[test]
fn gradients_parse_with_angle_and_stops() {
    let (cs, _) = apply("background: linear-gradient(90deg, #ff0000 0%, #0000ff 100%)");
    let g = cs.background_gradient.expect("gradient expected");
    assert_eq!(g.angle, 90);
    assert_eq!(g.stops.len(), 2);
    assert_eq!(g.stops[0].0, Color { r: 255, g: 0, b: 0, a: 255 });
    assert_eq!(g.stops[0].1, 0);
    assert_eq!(g.stops[1].0, Color { r: 0, g: 0, b: 255, a: 255 });
    assert_eq!(g.stops[1].1, 1000);
    assert!(cs.background_color.is_none());
}

#[test]
fn gradient_defaults_direction_and_spread() {
    let (cs, _) = apply("background: linear-gradient(#000000, #ffffff)");
    let g = cs.background_gradient.expect("gradient expected");
    assert_eq!(g.angle, 180);
    assert_eq!(g.stops[0].1, 0);
    assert_eq!(g.stops[1].1, 1000);
}

#[test]
fn background_color_overrides_gradient_and_back() {
    let (cs, _) = apply("background: linear-gradient(#000, #fff); background-color: red");
    assert!(cs.background_gradient.is_none());
    assert_eq!(cs.background_color, Some(Color { r: 255, g: 0, b: 0, a: 255 }));
}

#[test]
fn unknown_properties_and_malformed_declarations_are_ignored() {
    let (cs, ls) = apply("sparkle: yes; ; height; color: blue");
    assert_eq!(cs.color, Color { r: 0, g: 0, b: 255, a: 255 });
    assert_eq!(ls.height, Dimension::Auto);
}

#[test]
fn declarations_apply_left_to_right() {
    let (cs, _) = apply("color: red; color: blue");
    assert_eq!(cs.color, Color { r: 0, g: 0, b: 255, a: 255 });
}

#[test]
fn property_names_are_case_insensitive() {
    let (cs, _) = apply("COLOR: red");
    assert_eq!(cs.color, Color { r: 255, g: 0, b: 0, a: 255 });
}
