use retained_ui::geometry::Rect;
use retained_ui::graphics::{Context, TextMeasurer};
use retained_ui::markup::MarkupNode;
use retained_ui::runtime::{EventOutcome, InputEvent, Model, Runtime};

fn el(tag: &str, attrs: Vec<(&str, &str)>, children: Vec<MarkupNode>) -> MarkupNode {
    MarkupNode::Element {
        tag: tag.to_string(),
        attrs: attrs
            .into_iter()
            .map(|(k, v)| (k.to_string(), v.to_string()))
            .collect(),
        children,
    }
}

fn txt(s: &str) -> MarkupNode {
    MarkupNode::Text(s.to_string())
}

struct MockMeasurer;

impl TextMeasurer for MockMeasurer {
    fn measure_text(&self, _text: &str, _font_size: u32, _weight: u16) -> (u32, u32) {
        (10, 10)
    }
}

struct MockModel;

impl Model for MockModel {
    fn view(&self) -> String {
        // A scroll container of height 100 with a single child of height
        // 200: content taller than the box.
        r#"
            <div style="height: 100px; overflow: scroll;">
                <div style="height: 200px; flex-shrink: 0;" data-on-click="test_interaction">Content</div>
            </div>
            "#
        .to_string()
    }
    fn update(&mut self, _msg: &str, _context: &mut Context) {}
    fn recognizes(&self, _msg: &str) -> bool {
        true
    }
}

/// The document MockModel's markup parses to.
fn mock_doc() -> MarkupNode {
    el(
        "#document",
        vec![],
        vec![el(
            "div",
            vec![("style", "height: 100px; overflow: scroll;")],
            vec![el(
                "div",
                vec![
                    ("style", "height: 200px; flex-shrink: 0;"),
                    ("data-on-click", "test_interaction"),
                ],
                vec![txt("Content")],
            )],
        )],
    )
}

/// The rectangles a flexbox solve assigns the arena: text leaf, inner
/// child, scroll container, document root, in creation order.
fn mock_rects() -> Vec<Rect> {
    vec![
        Rect { x: 0, y: 0, width: 10, height: 10 },
        Rect { x: 0, y: 0, width: 100, height: 200 },
        Rect { x: 0, y: 0, width: 100, height: 100 },
        Rect { x: 0, y: 0, width: 800, height: 600 },
    ]
}

fn mock_runtime() -> Runtime<MockModel> {
    let model = MockModel;
    let markup = model.view();
    let mut rt = Runtime::new(model, markup, &mock_doc(), &MockMeasurer).unwrap();
    let rects = mock_rects();
    rt.set_layout(&rects);
    rt
}

#[test]
fn test_scroll_persistence() {
    let mut runtime = mock_runtime();

    // Scroll down 10px.
    let handled = matches!(
        runtime.handle_event(InputEvent::Scroll { x: 10, y: 10, delta_x: 0, delta_y: -10 }),
        EventOutcome::Scrolled
    );
    assert!(handled, "Scroll event should be handled");

    let offset = runtime
        .scroll_offsets()
        .first()
        .copied()
        .expect("Should have scroll offset");
    assert_eq!(offset.2, 10, "Offset should be 10.0 after first scroll");

    // An unrelated message leaves the markup byte-identical, so the tree
    // stands and the offset survives.
    let outcome = runtime.handle_event(InputEvent::Message("tick".to_string()));
    assert!(matches!(outcome, EventOutcome::Updated(None)));
    runtime.finish_update(false);

    let offset_after = runtime
        .scroll_offsets()
        .first()
        .copied()
        .expect("Should have scroll offset after tick");
    assert_eq!(
        offset_after.2, 10,
        "Offset should persist after Tick/Ui Recreation"
    );

    // Scroll again: offsets accumulate.
    runtime.handle_event(InputEvent::Scroll { x: 10, y: 10, delta_x: 0, delta_y: -10 });
    let offset_final = runtime
        .scroll_offsets()
        .first()
        .copied()
        .expect("Should have scroll offset");
    assert_eq!(offset_final.2, 20, "Offset should accumulate (10+10=20)");

    // Content height 200 in a 100-high container: the farthest offset is
    // 100, however large the delta.
    runtime.handle_event(InputEvent::Scroll { x: 10, y: 10, delta_x: 0, delta_y: -500 });
    let offset_clamped = runtime
        .scroll_offsets()
        .first()
        .copied()
        .expect("Should have scroll offset");
    assert_eq!(
        offset_clamped.2, 100,
        "Offset should be clamped to max scroll (100.0)"
    );

    // With the container scrolled by (0, 100), a click at (10, 10) lands
    // inside the child and resolves to its interaction.
    let hit = runtime.ui().hit_test(10, 10);
    assert!(hit.is_some(), "Should hit child content after scrolling");
    assert_eq!(hit.unwrap(), "test_interaction".to_string());
}

#[test]
fn round_trip_scroll_clamp_and_hit() {
    let mut runtime = mock_runtime();

    // One huge scroll clamps straight to 100.
    let first = runtime.handle_event(InputEvent::Scroll { x: 10, y: 10, delta_x: 0, delta_y: -500 });
    assert!(matches!(first, EventOutcome::Scrolled));
    assert_eq!(runtime.scroll_offsets().first().unwrap().2, 100);

    // Scrolling again by the same delta changes nothing.
    let second = runtime.handle_event(InputEvent::Scroll { x: 10, y: 10, delta_x: 0, delta_y: -500 });
    assert!(matches!(second, EventOutcome::Ignored));
    assert_eq!(runtime.scroll_offsets().first().unwrap().2, 100);

    // The child is now visible where the pointer sits.
    let hit = runtime.ui().hit_test(10, 10);
    assert_eq!(hit.unwrap(), "test_interaction".to_string());

    // A point outside the container falls on the bare document root,
    // which carries no interaction.
    assert!(runtime.ui().hit_test(500, 10).is_none());
}

#[test]
fn scroll_up_clamps_at_zero() {
    let mut runtime = mock_runtime();
    // Scrolling up from the top stays at the top on both axes.
    let outcome = runtime.handle_event(InputEvent::Scroll { x: 10, y: 10, delta_x: 50, delta_y: 50 });
    assert!(matches!(outcome, EventOutcome::Ignored));
    assert!(runtime.scroll_offsets().is_empty());
}

#[test]
fn scroll_without_scrollable_ancestor_is_noop() {
    struct Plain;
    impl Model for Plain {
        fn view(&self) -> String {
            "<div>hi</div>".to_string()
        }
        fn update(&mut self, _msg: &str, _context: &mut Context) {}
        fn recognizes(&self, _msg: &str) -> bool {
            true
        }
    }
    let doc = el("#document", vec![], vec![el("div", vec![], vec![txt("hi")])]);
    let mut rt = Runtime::new(Plain, "<div>hi</div>".to_string(), &doc, &MockMeasurer).unwrap();
    let rects = vec![
        Rect { x: 0, y: 0, width: 10, height: 10 },
        Rect { x: 0, y: 0, width: 100, height: 100 },
        Rect { x: 0, y: 0, width: 800, height: 600 },
    ];
    rt.set_layout(&rects);
    let outcome = rt.handle_event(InputEvent::Scroll { x: 5, y: 5, delta_x: 0, delta_y: -10 });
    assert!(matches!(outcome, EventOutcome::Ignored));
    assert!(rt.scroll_offsets().is_empty());
}

struct CountingModel {
    count: u32,
}

impl Model for CountingModel {
    fn view(&self) -> String {
        // The scroll container comes first, so its subtree keeps its
        // handles across rebuilds; the varying text follows it.
        format!(
            "<div style=\"height: 100px; overflow: scroll;\"><div style=\"height: 200px;\">Content</div></div><p>count {}</p>",
            self.count
        )
    }
    fn update(&mut self, msg: &str, _context: &mut Context) {
        if msg == "inc" {
            self.count += 1;
        }
    }
    fn recognizes(&self, msg: &str) -> bool {
        msg == "inc"
    }
}

fn counting_doc(count: u32) -> MarkupNode {
    el(
        "#document",
        vec![],
        vec![
            el(
                "div",
                vec![("style", "height: 100px; overflow: scroll;")],
                vec![el(
                    "div",
                    vec![("style", "height: 200px;")],
                    vec![txt("Content")],
                )],
            ),
            el("p", vec![], vec![txt(&format!("count {}", count))]),
        ],
    )
}

fn counting_rects() -> Vec<Rect> {
    vec![
        Rect { x: 0, y: 0, width: 10, height: 10 },
        Rect { x: 0, y: 0, width: 100, height: 200 },
        Rect { x: 0, y: 0, width: 100, height: 100 },
        Rect { x: 0, y: 0, width: 10, height: 10 },
        Rect { x: 0, y: 110, width: 100, height: 10 },
        Rect { x: 0, y: 0, width: 800, height: 600 },
    ]
}

#[test]
fn scroll_offset_survives_rebuild_of_unchanged_subtree() {
    let model = CountingModel { count: 0 };
    let markup = model.view();
    let mut rt = Runtime::new(model, markup, &counting_doc(0), &MockMeasurer).unwrap();
    let rects = counting_rects();
    rt.set_layout(&rects);

    // Scroll the container by 30.
    rt.handle_event(InputEvent::Scroll { x: 10, y: 10, delta_x: 0, delta_y: -30 });
    let key = rt.scroll_offsets().first().copied().unwrap();
    assert_eq!(key.2, 30);

    // An unrelated update changes only the trailing paragraph, so the
    // container keeps its handle; the offset must carry over exactly.
    let outcome = rt.handle_event(InputEvent::Message("inc".to_string()));
    let markup2 = match outcome {
        EventOutcome::Updated(Some(m)) => m,
        _ => panic!("expected fresh markup"),
    };
    assert!(markup2.contains("count 1"));
    rt.rebuild(&counting_doc(1), &MockMeasurer).unwrap();
    let rects2 = counting_rects();
    rt.set_layout(&rects2);
    let dirty = rt.finish_update(true);
    assert!(dirty);

    let restored = rt.ui().scroll_offsets.first().copied().unwrap();
    assert_eq!(restored.0, key.0, "the container keeps its handle");
    assert_eq!(restored.2, 30, "the offset survives the rebuild exactly");
}

struct KeyModel {
    pressed: bool,
}

impl Model for KeyModel {
    fn view(&self) -> String {
        if self.pressed {
            "<p>pressed</p>".to_string()
        } else {
            "<p>idle</p>".to_string()
        }
    }
    fn update(&mut self, msg: &str, _context: &mut Context) {
        if msg == "keydown:x" {
            self.pressed = true;
        }
    }
    fn recognizes(&self, msg: &str) -> bool {
        msg.starts_with("keydown:")
    }
}

#[test]
fn key_events_arrive_as_prefixed_messages() {
    let model = KeyModel { pressed: false };
    let markup = model.view();
    let doc = el("#document", vec![], vec![el("p", vec![], vec![txt("idle")])]);
    let mut rt = Runtime::new(model, markup, &doc, &MockMeasurer).unwrap();
    let rects = vec![
        Rect { x: 0, y: 0, width: 10, height: 10 },
        Rect { x: 0, y: 0, width: 100, height: 20 },
        Rect { x: 0, y: 0, width: 800, height: 600 },
    ];
    rt.set_layout(&rects);

    // A key the model does not recognize is ignored outright.
    let outcome = rt.handle_event(InputEvent::KeyUp("x".to_string()));
    assert!(matches!(outcome, EventOutcome::Ignored));

    // A recognized key arrives as "keydown:" plus the key and updates the
    // model, whose markup then changes.
    let outcome = rt.handle_event(InputEvent::KeyDown("x".to_string()));
    match outcome {
        EventOutcome::Updated(Some(m)) => assert!(m.contains("pressed")),
        _ => panic!("the key press changes the markup"),
    }
}
