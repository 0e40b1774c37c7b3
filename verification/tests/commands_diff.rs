use retained_ui::geometry::{Color, DrawCommand, Rect};
use retained_ui::graphics::{Context, TextMeasurer};
use retained_ui::markup::MarkupNode;
use retained_ui::runtime::{EventOutcome, InputEvent, Model, Runtime};

fn el(tag: &str, attrs: Vec<(&str, &str)>, children: Vec<MarkupNode>) -> MarkupNode {
    MarkupNode::Element {
        tag: tag.to_string(),
        attrs: attrs
            .into_iter()
            .map(|(k, v)| (k.to_string(), v.to_string()))
            .collect(),
        children,
    }
}

fn txt(s: &str) -> MarkupNode {
    MarkupNode::Text(s.to_string())
}

struct MockMeasurer;

impl TextMeasurer for MockMeasurer {
    fn measure_text(&self, _text: &str, _font_size: u32, _weight: u16) -> (u32, u32) {
        (10, 10)
    }
}

struct ScrollDoc;

impl Model for ScrollDoc {
    fn view(&self) -> String {
        "<div style=\"height:100px; overflow:scroll;\"><div style=\"height:200px;\">Content</div></div>".to_string()
    }
    fn update(&mut self, _msg: &str, _context: &mut Context) {}
    fn recognizes(&self, _msg: &str) -> bool {
        true
    }
}

fn scroll_doc() -> MarkupNode {
    el(
        "#document",
        vec![],
        vec![el(
            "div",
            vec![("style", "height:100px; overflow:scroll;")],
            vec![el(
                "div",
                vec![("style", "height:200px;")],
                vec![txt("Content")],
            )],
        )],
    )
}

fn scroll_rects() -> Vec<Rect> {
    vec![
        Rect { x: 0, y: 0, width: 10, height: 10 },
        Rect { x: 0, y: 0, width: 100, height: 200 },
        Rect { x: 0, y: 0, width: 100, height: 100 },
        Rect { x: 0, y: 0, width: 800, height: 600 },
    ]
}

#[test]
fn commands_shift_children_by_the_scroll_offset_inside_a_clip() {
    let model = ScrollDoc;
    let markup = model.view();
    let mut rt = Runtime::new(model, markup, &scroll_doc(), &MockMeasurer).unwrap();
    let rects = scroll_rects();
    rt.set_layout(&rects);
    rt.handle_event(InputEvent::Scroll { x: 10, y: 10, delta_x: 0, delta_y: -100 });

    let cmds = rt.ui().build_commands();
    assert_eq!(cmds.len(), 3);
    match &cmds[0] {
        DrawCommand::Clip { rect } => {
            assert_eq!(*rect, Rect { x: 0, y: 0, width: 100, height: 100 });
        },
        _ => panic!("expected the scroll container's clip first"),
    }
    match &cmds[1] {
        DrawCommand::DrawText { text, rect, .. } => {
            assert_eq!(text, "Content");
            assert_eq!(*rect, Rect { x: 0, y: -100, width: 10, height: 10 });
        },
        _ => panic!("expected the scrolled text"),
    }
    assert!(matches!(&cmds[2], DrawCommand::PopClip));
}

struct CanvasModel;

impl Model for CanvasModel {
    fn view(&self) -> String {
        "<canvas id=\"plot\" style=\"width:64px; height:32px;\"></canvas>".to_string()
    }
    fn update(&mut self, msg: &str, context: &mut Context) {
        if msg == "draw" {
            if let Some(c) = context.canvas_mut("plot") {
                c.dirty = true;
            }
        }
    }
    fn recognizes(&self, msg: &str) -> bool {
        msg == "draw" || msg == "tick"
    }
}

fn canvas_doc() -> MarkupNode {
    el(
        "#document",
        vec![],
        vec![el(
            "canvas",
            vec![("id", "plot"), ("style", "width:64px; height:32px;")],
            vec![],
        )],
    )
}

fn canvas_rects() -> Vec<Rect> {
    vec![
        Rect { x: 0, y: 0, width: 64, height: 32 },
        Rect { x: 0, y: 0, width: 800, height: 600 },
    ]
}

#[test]
fn memoized_update_keeps_the_tree_and_reports_dirty_only_for_canvas_work() {
    let model = CanvasModel;
    let markup = model.view();
    let mut rt = Runtime::new(model, markup, &canvas_doc(), &MockMeasurer).unwrap();
    let rects = canvas_rects();
    rt.set_layout(&rects);

    // The canvas was registered at creation, sized from its style.
    assert_eq!(rt.context().canvas_ids.len(), 1);
    assert_eq!(rt.context().canvases[0].width, 64);
    assert_eq!(rt.context().canvases[0].height, 32);

    // First frame: commands retained for diffing; dirty flags cleared.
    rt.render();
    assert!(!rt.context().canvases[0].dirty);
    let nodes_before = rt.ui().nodes.len();

    // A no-op update with byte-identical markup keeps the tree and owes
    // no redraw.
    let outcome = rt.handle_event(InputEvent::Message("tick".to_string()));
    assert!(matches!(outcome, EventOutcome::Updated(None)));
    assert_eq!(rt.ui().nodes.len(), nodes_before);
    assert!(!rt.finish_update(false), "nothing changed, nothing to redraw");

    // An update that only draws into the canvas still keeps the tree but
    // owes a redraw.
    let outcome = rt.handle_event(InputEvent::Message("draw".to_string()));
    assert!(matches!(outcome, EventOutcome::Updated(None)));
    assert_eq!(rt.ui().nodes.len(), nodes_before);
    assert!(rt.finish_update(false), "a dirty visible canvas owes a redraw");

    // Rendering repaints the canvas region and clears the flag.
    let dirty = rt.render();
    assert_eq!(dirty, Some(Rect { x: 0, y: 0, width: 64, height: 32 }));
    assert!(!rt.context().canvases[0].dirty);
}

struct ToggleModel {
    blue: bool,
}

impl Model for ToggleModel {
    fn view(&self) -> String {
        let color = if self.blue { "blue" } else { "red" };
        format!(
            "<div style=\"background-color:{};height:50px;\"></div><div style=\"background-color:green;height:50px;\"></div>",
            color
        )
    }
    fn update(&mut self, msg: &str, _context: &mut Context) {
        if msg == "toggle" {
            self.blue = !self.blue;
        }
    }
    fn recognizes(&self, msg: &str) -> bool {
        msg == "toggle"
    }
}

fn toggle_doc(blue: bool) -> MarkupNode {
    let color = if blue { "blue" } else { "red" };
    el(
        "#document",
        vec![],
        vec![
            el(
                "div",
                vec![("style", &format!("background-color:{};height:50px;", color))],
                vec![],
            ),
            el(
                "div",
                vec![("style", "background-color:green;height:50px;")],
                vec![],
            ),
        ],
    )
}

fn toggle_rects() -> Vec<Rect> {
    vec![
        Rect { x: 0, y: 0, width: 100, height: 50 },
        Rect { x: 0, y: 50, width: 100, height: 50 },
        Rect { x: 0, y: 0, width: 800, height: 600 },
    ]
}

#[test]
fn toggling_one_leaf_color_dirties_only_its_padded_box() {
    let model = ToggleModel { blue: false };
    let markup = model.view();
    let mut rt = Runtime::new(model, markup, &toggle_doc(false), &MockMeasurer).unwrap();
    let rects = toggle_rects();
    rt.set_layout(&rects);

    // The very first frame has nothing to diff against: repaint all.
    let first = rt.render();
    assert!(first.is_none());

    // Toggle exactly one leaf's color and re-render.
    let outcome = rt.handle_event(InputEvent::Message("toggle".to_string()));
    let new_markup = match outcome {
        EventOutcome::Updated(Some(m)) => m,
        _ => panic!("the toggle changes the markup"),
    };
    assert!(new_markup.contains("blue"));
    rt.rebuild(&toggle_doc(true), &MockMeasurer).unwrap();
    let rects2 = toggle_rects();
    rt.set_layout(&rects2);
    assert!(rt.finish_update(true));

    // The dirty region is the toggled box padded by 10, a proper subset
    // of the 800 by 600 frame, not a full repaint.
    let dirty = rt.render();
    assert_eq!(dirty, Some(Rect { x: -10, y: -10, width: 120, height: 70 }));
}

#[test]
fn identical_frames_produce_no_dirty_region() {
    let model = ScrollDoc;
    let markup = model.view();
    let mut rt = Runtime::new(model, markup, &scroll_doc(), &MockMeasurer).unwrap();
    let rects = scroll_rects();
    rt.set_layout(&rects);
    // No prior frame exists yet, so the first render repaints everything.
    let first = rt.render();
    assert_eq!(first, None);
    // The second frame is identical to the first: nothing to repaint.
    let second = rt.render();
    assert_eq!(second, None);
}

struct DeferredModel;

impl Model for DeferredModel {
    fn view(&self) -> String {
        "<div style=\"height:100px; overflow:scroll;\"><div style=\"height:150px;\"></div><div style=\"height:30px;\" data-on-click=\"item\"></div></div>".to_string()
    }
    fn update(&mut self, msg: &str, context: &mut Context) {
        if msg == "reveal" {
            context.scroll_into_view("item");
        }
    }
    fn recognizes(&self, msg: &str) -> bool {
        msg == "reveal"
    }
}

fn deferred_doc() -> MarkupNode {
    el(
        "#document",
        vec![],
        vec![el(
            "div",
            vec![("style", "height:100px; overflow:scroll;")],
            vec![
                el("div", vec![("style", "height:150px;")], vec![]),
                el("div", vec![("style", "height:30px;"), ("data-on-click", "item")], vec![]),
            ],
        )],
    )
}

fn deferred_rects() -> Vec<Rect> {
    vec![
        Rect { x: 0, y: 0, width: 100, height: 150 },
        Rect { x: 0, y: 150, width: 100, height: 30 },
        Rect { x: 0, y: 0, width: 100, height: 100 },
        Rect { x: 0, y: 0, width: 800, height: 600 },
    ]
}

#[test]
fn deferred_scroll_into_view_snaps_the_target_bottom_aligned() {
    let model = DeferredModel;
    let markup = model.view();
    let mut rt = Runtime::new(model, markup, &deferred_doc(), &MockMeasurer).unwrap();
    let rects = deferred_rects();
    rt.set_layout(&rects);

    let outcome = rt.handle_event(InputEvent::Message("reveal".to_string()));
    assert!(matches!(outcome, EventOutcome::Updated(None)));
    let dirty = rt.finish_update(false);
    assert!(dirty, "a deferred command ran");

    // The target sits at y = 150 with height 30 in a 100-high viewport:
    // bottom-aligned means an offset of 150 + 30 - 100 = 80.
    let offset = rt.ui().scroll_offsets.first().copied().unwrap();
    assert_eq!(offset.2, 80);
    // The persisted map saw the same change.
    assert_eq!(rt.scroll_offsets().first().copied().unwrap().2, 80);
}

#[test]
fn unknown_scroll_into_view_target_is_a_noop() {
    let model = ScrollDoc;
    let markup = model.view();
    let mut rt = Runtime::new(model, markup, &scroll_doc(), &MockMeasurer).unwrap();
    let rects = scroll_rects();
    rt.set_layout(&rects);
    rt.ui.scroll_into_view("nowhere");
    assert!(rt.ui().scroll_offsets.is_empty());
}
