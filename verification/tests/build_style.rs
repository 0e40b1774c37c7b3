use retained_ui::geometry::Color;
use retained_ui::graphics::TextMeasurer;
use retained_ui::layout::Dimension;
use retained_ui::markup::MarkupNode;
use retained_ui::style::{ContainerStyle, Overflow, RenderData};
use retained_ui::ui::Ui;

fn el(tag: &str, attrs: Vec<(&str, &str)>, children: Vec<MarkupNode>) -> MarkupNode {
    MarkupNode::Element {
        tag: tag.to_string(),
        attrs: attrs
            .into_iter()
            .map(|(k, v)| (k.to_string(), v.to_string()))
            .collect(),
        children,
    }
}

fn txt(s: &str) -> MarkupNode {
    MarkupNode::Text(s.to_string())
}

struct MockMeasurer;

impl TextMeasurer for MockMeasurer {
    fn measure_text(&self, text: &str, font_size: u32, _weight: u16) -> (u32, u32) {
        (text.len() as u32 * 8, font_size)
    }
}

fn build(doc: &MarkupNode) -> Ui {
    Ui::new(doc, &MockMeasurer, ContainerStyle::default()).unwrap()
}

fn style_of(ui: &Ui, i: usize) -> &ContainerStyle {
    match &ui.nodes[i].data {
        RenderData::Container(s) => s,
        RenderData::Text(_, s) => s,
        RenderData::Image(_, s) => s,
        RenderData::Checkbox(_, s) => s,
        RenderData::Slider(_, s) => s,
        RenderData::Progress(_, _, s) => s,
        RenderData::Canvas(_, s) => s,
    }
}

#[test]
fn styled_parent_unstyled_child_keeps_no_box_paint() {
    // A heavily painted parent with a plain child: the child must show no
    // background, border, or clipping of its own.
    let doc = el(
        "div",
        vec![(
            "style",
            "background-color: red; border-width: 3px; border-color: #00ff00; overflow: hidden;",
        )],
        vec![el("div", vec![], vec![])],
    );
    let ui = build(&doc);
    // Creation order: child first, then parent (the root).
    let child = style_of(&ui, 0);
    assert!(child.background_color.is_none());
    assert!(child.background_gradient.is_none());
    assert_eq!(child.border_width, 0);
    assert_eq!(child.border_radius, 0);
    assert!(child.border_color.is_none());
    assert!(matches!(child.overflow, Overflow::Visible));
    // The parent carries its own paint; red parses to full-on red.
    let parent = style_of(&ui, 1);
    assert_eq!(
        parent.background_color,
        Some(Color { r: 255, g: 0, b: 0, a: 255 })
    );
    assert_eq!(parent.border_width, 3);
    assert_eq!(
        parent.border_color,
        Some(Color { r: 0, g: 255, b: 0, a: 255 })
    );
    assert!(matches!(parent.overflow, Overflow::Hidden));
}

#[test]
fn font_fields_inherit_but_can_be_overridden() {
    let doc = el(
        "div",
        vec![("style", "color: #102030; font-size: 20px; font-weight: bold;")],
        vec![
            el("div", vec![], vec![]),
            el("div", vec![("style", "font-size: 11px;")], vec![]),
        ],
    );
    let ui = build(&doc);
    let plain = style_of(&ui, 0);
    assert_eq!(plain.color, Color { r: 0x10, g: 0x20, b: 0x30, a: 255 });
    assert_eq!(plain.font_size, 20);
    assert_eq!(plain.weight, 1);
    let resized = style_of(&ui, 1);
    assert_eq!(resized.font_size, 11);
    assert_eq!(resized.color, Color { r: 0x10, g: 0x20, b: 0x30, a: 255 });
}

#[test]
fn tag_defaults_apply() {
    let doc = el(
        "div",
        vec![],
        vec![el("h1", vec![], vec![]), el("button", vec![], vec![])],
    );
    let ui = build(&doc);
    let h1 = style_of(&ui, 0);
    assert_eq!(h1.font_size, 32);
    let button = style_of(&ui, 1);
    assert_eq!(
        button.background_color,
        Some(Color { r: 220, g: 220, b: 220, a: 255 })
    );
    assert_eq!(button.border_radius, 4);
    assert_eq!(button.border_width, 1);
}

#[test]
fn text_normalizes_whitespace_and_empty_text_is_discarded() {
    let doc = el(
        "div",
        vec![],
        vec![txt("  hello \n\t  world  "), txt("   \n  ")],
    );
    let ui = build(&doc);
    // Only the non-empty text survives: one leaf plus the root.
    assert_eq!(ui.nodes.len(), 2);
    match &ui.nodes[0].data {
        RenderData::Text(t, _) => assert_eq!(t, "hello world"),
        _ => panic!("expected a text leaf"),
    }
    // The measured size feeds the leaf's layout constraints.
    assert_eq!(ui.nodes[0].layout_style.width, Dimension::Px(88));
    assert_eq!(ui.nodes[0].layout_style.height, Dimension::Px(16));
}

#[test]
fn input_attributes_classify_entities() {
    let doc = el(
        "div",
        vec![],
        vec![
            el("input", vec![("type", "checkbox"), ("checked", "")], vec![]),
            el("input", vec![("type", "range"), ("value", "0.5")], vec![]),
            el("progress", vec![("value", "30"), ("max", "100")], vec![]),
            el("img", vec![("src", "cat.png")], vec![]),
            el("canvas", vec![("id", "plot")], vec![]),
        ],
    );
    let ui = build(&doc);
    assert!(matches!(&ui.nodes[0].data, RenderData::Checkbox(true, _)));
    match &ui.nodes[1].data {
        RenderData::Slider(v, _) => assert_eq!(*v, 500),
        _ => panic!("expected a slider"),
    }
    match &ui.nodes[2].data {
        RenderData::Progress(v, m, _) => {
            assert_eq!(*v, 30_000);
            assert_eq!(*m, 100_000);
        },
        _ => panic!("expected a progress bar"),
    }
    match &ui.nodes[3].data {
        RenderData::Image(src, _) => assert_eq!(src, "cat.png"),
        _ => panic!("expected an image"),
    }
    match &ui.nodes[4].data {
        RenderData::Canvas(id, _) => assert_eq!(id, "plot"),
        _ => panic!("expected a canvas"),
    }
    // Leaves never take children.
    assert!(ui.nodes[0].children.is_empty());
}

#[test]
fn interactions_register_on_their_nodes() {
    let doc = el(
        "div",
        vec![],
        vec![
            el("button", vec![("data-on-click", "go")], vec![txt("Go")]),
            el("div", vec![], vec![]),
        ],
    );
    let ui = build(&doc);
    // The button is node 1 (after its text leaf).
    assert_eq!(ui.interactions.len(), 1);
    assert_eq!(ui.interactions[0].0, 1);
    assert_eq!(ui.interactions[0].1, "go");
}

#[test]
fn oversized_tree_is_the_single_fatal_path() {
    let mut children = Vec::new();
    for i in 0..70_000 {
        children.push(txt(&format!("n{}", i)));
    }
    let doc = el("div", vec![], children);
    match Ui::new(&doc, &MockMeasurer, ContainerStyle::default()) {
        Err(e) => assert_eq!(e, retained_ui::ui::BuildError::TooManyNodes),
        Ok(_) => panic!("an oversized tree must not build"),
    }
}

#[test]
fn a_discarded_text_root_builds_no_tree() {
    let doc = txt("   \n ");
    match Ui::new(&doc, &MockMeasurer, ContainerStyle::default()) {
        Err(e) => assert_eq!(e, retained_ui::ui::BuildError::EmptyDocument),
        Ok(_) => panic!("a discarded root must not build"),
    }
}

#[test]
fn unknown_tags_fall_back_to_plain_containers() {
    let doc = el("div", vec![], vec![el("blink", vec![], vec![txt("x")])]);
    let ui = build(&doc);
    assert!(matches!(&ui.nodes[1].data, RenderData::Container(_)));
}
