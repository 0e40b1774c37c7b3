use vstd::prelude::*;
use vstd::string::StringExecFns;

use crate::geometry::{
    BOUNDS_PAD, CmdView, DrawCommand, RECT_LIMIT, Rect, cmd_eq, cmd_within, rect_within,
    spec_bounds, spec_expand,
};
use crate::graphics::{Canvas, Context, ContextCommand, TextMeasurer, context_wf};
use crate::layout::{COORD_LIMIT, Dimension};
use crate::markup::{MarkupNode, spec_kept};
use crate::paint::spec_ui_commands;
use crate::style::{ContainerStyle, RenderData, dup_style};
use crate::pointer::{
    spec_hit_node, spec_scroll_anchor, spec_scrolled_offset, spec_sitv_map,
};
use crate::ui::{
    BuildError, MAX_NODES, SCROLL_LIMIT, Ui, UiNodeView, assoc_scroll, built_count,
    is_scroll_container, lemma_set_scroll_wf, node_built, same_core, spec_clamp_rect,
    spec_set_scroll,
};

verus! {

/// The application model: it renders itself to markup, consumes messages,
/// and says which message strings it recognizes. Implementations live with
/// the application; the runtime promises nothing about their behavior.
pub trait Model {
    fn view(&self) -> String;

    fn update(&mut self, msg: &str, context: &mut Context);

    fn recognizes(&self, msg: &str) -> bool;
}

/// One input event, in pixels.
pub enum InputEvent {
    Click { x: i64, y: i64 },
    Hover { x: i64, y: i64 },
    Scroll { x: i64, y: i64, delta_x: i64, delta_y: i64 },
    KeyDown(String),
    KeyUp(String),
    Message(String),
}

/// What handling an event did, and what the driver owes next.
pub enum EventOutcome {
    /// Nothing changed.
    Ignored,
    /// A scroll offset moved; redraw without relayout.
    Scrolled,
    /// The model updated. `None`: the markup is byte-identical, the tree
    /// stands. `Some(markup)`: parse the markup and call `rebuild`, then
    /// recompute the layout. Either way, finish with `finish_update`.
    Updated(Option<String>),
}

/// Union of two optional rectangles.
pub open spec fn spec_union_opt(a: Option<Rect>, b: Option<Rect>) -> Option<Rect> {
    match (a, b) {
        (Option::None, x) => x,
        (Option::Some(ra), Option::None) => Option::Some(ra),
        (Option::Some(ra), Option::Some(rb)) => Option::Some(spec_expand(ra, rb)),
    }
}

/// The dirty region two frames differ by, folded from position `i` with
/// the running union `acc`: wherever the lists disagree (or one ends), the
/// padded bounds of both commands join the union.
pub open spec fn spec_diff_from(
    new: Seq<CmdView>,
    old: Seq<CmdView>,
    i: int,
    acc: Option<Rect>,
) -> Option<Rect>
    decreases (if new.len() >= old.len() {
        new.len()
    } else {
        old.len()
    }) - i,
{
    let m = if new.len() >= old.len() {
        new.len() as int
    } else {
        old.len() as int
    };
    if !(0 <= i < m) {
        acc
    } else {
        let here = if i < new.len() && i < old.len() && new[i] == old[i] {
            Option::<Rect>::None
        } else {
            spec_union_opt(
                if i < new.len() {
                    spec_bounds(new[i])
                } else {
                    Option::None
                },
                if i < old.len() {
                    spec_bounds(old[i])
                } else {
                    Option::None
                },
            )
        };
        spec_diff_from(new, old, i + 1, spec_union_opt(acc, here))
    }
}

/// Every rectangle of a command list stays within the engine's bounds.
pub open spec fn cmds_within(cmds: Seq<CmdView>) -> bool {
    forall|i: int| 0 <= i < cmds.len() ==> cmd_within(#[trigger] cmds[i], RECT_LIMIT as int)
}

/// Compare two frames positionally and return the union of the padded
/// bounds of every differing position: exactly `spec_diff_from` at the
/// start.
pub fn diff_commands(new: &Vec<DrawCommand>, old: &Vec<DrawCommand>) -> (r: Option<Rect>)
    requires
        cmds_within(new@.map_values(|c: DrawCommand| c@)),
        cmds_within(old@.map_values(|c: DrawCommand| c@)),
    ensures
        r == spec_diff_from(
            new@.map_values(|c: DrawCommand| c@),
            old@.map_values(|c: DrawCommand| c@),
            0,
            Option::<Rect>::None,
        ),
        r matches Option::Some(rec) ==> rect_within(rec, RECT_LIMIT as int + BOUNDS_PAD as int),
{
    let ghost nv = new@.map_values(|c: DrawCommand| c@);
    let ghost ov = old@.map_values(|c: DrawCommand| c@);
    let m = if new.len() >= old.len() {
        new.len()
    } else {
        old.len()
    };
    let mut acc: Option<Rect> = Option::None;
    let mut i: usize = 0;
    while i < m
        invariant
            i <= m,
            nv == new@.map_values(|c: DrawCommand| c@),
            ov == old@.map_values(|c: DrawCommand| c@),
            cmds_within(nv),
            cmds_within(ov),
            m == (if nv.len() >= ov.len() {
                nv.len()
            } else {
                ov.len()
            }),
            spec_diff_from(nv, ov, i as int, acc) == spec_diff_from(
                nv,
                ov,
                0,
                Option::<Rect>::None,
            ),
            acc matches Option::Some(rec) ==> rect_within(
                rec,
                RECT_LIMIT as int + BOUNDS_PAD as int,
            ),
        decreases m - i,
    {
        let same = if i < new.len() && i < old.len() {
            cmd_eq(&new[i], &old[i])
        } else {
            false
        };
        if !same {
            let bn: Option<Rect> = if i < new.len() {
                new[i].bounds()
            } else {
                Option::None
            };
            let bo: Option<Rect> = if i < old.len() {
                old[i].bounds()
            } else {
                Option::None
            };
            let here: Option<Rect> = match (bn, bo) {
                (Option::None, x) => x,
                (Option::Some(ra), Option::None) => Option::Some(ra),
                (Option::Some(ra), Option::Some(rb)) => Option::Some(ra.expand(rb)),
            };
            acc = match (acc, here) {
                (Option::None, x) => x,
                (Option::Some(ra), Option::None) => Option::Some(ra),
                (Option::Some(ra), Option::Some(rb)) => Option::Some(ra.expand(rb)),
            };
        }
        i = i + 1;
    }
    acc
}

/// Two identical frames produce no dirty region: rendering reports
/// nothing to repaint.
pub proof fn lemma_diff_equal_none(cmds: Seq<CmdView>, i: int)
    ensures
        spec_diff_from(cmds, cmds, i, Option::None) is None,
    decreases cmds.len() - i,
{
    if 0 <= i < cmds.len() {
        lemma_diff_equal_none(cmds, i + 1);
    }
}

/// A tail on which two frames agree adds nothing to the dirty region.
pub proof fn lemma_diff_tail_equal(new: Seq<CmdView>, old: Seq<CmdView>, i: int, acc: Option<Rect>)
    requires
        new.len() == old.len(),
        forall|j: int| i <= j < new.len() ==> new[j] == old[j],
    ensures
        spec_diff_from(new, old, i, acc) == acc,
    decreases new.len() - i,
{
    if 0 <= i < new.len() {
        lemma_diff_tail_equal(new, old, i + 1, acc);
    }
}

/// Changing exactly one command dirties exactly that command's padded
/// bounds, old and new: the dirty region of two equally long frames that
/// differ at a single position is the union of the padded bounds of the
/// two commands there, never a full repaint when either has a rectangle.
pub proof fn lemma_diff_single_change(new: Seq<CmdView>, old: Seq<CmdView>, k: int)
    requires
        new.len() == old.len(),
        0 <= k < new.len(),
        new[k] != old[k],
        forall|j: int| 0 <= j < new.len() && j != k ==> new[j] == old[j],
    ensures
        spec_diff_from(new, old, 0, Option::None) == spec_union_opt(
            spec_bounds(new[k]),
            spec_bounds(old[k]),
        ),
{
    lemma_diff_prefix_equal(new, old, 0, k);
    lemma_diff_tail_equal(
        new,
        old,
        k + 1,
        spec_union_opt(Option::None, spec_union_opt(spec_bounds(new[k]), spec_bounds(old[k]))),
    );
}

/// A prefix on which two frames agree leaves the accumulator untouched up
/// to the first difference.
proof fn lemma_diff_prefix_equal(new: Seq<CmdView>, old: Seq<CmdView>, i: int, k: int)
    requires
        new.len() == old.len(),
        0 <= i <= k < new.len(),
        forall|j: int| 0 <= j < new.len() && j != k ==> new[j] == old[j],
    ensures
        spec_diff_from(new, old, i, Option::None) == spec_diff_from(new, old, k, Option::None),
    decreases k - i,
{
    if i < k {
        lemma_diff_prefix_equal(new, old, i + 1, k);
    }
}

/// The scroll map a rebuilt tree inherits: every saved offset whose node
/// is a scroll container of the new tree carries over, in order.
pub open spec fn spec_restore(
    ns: Seq<UiNodeView>,
    saved: Seq<(usize, i64, i64)>,
    i: int,
    acc: Seq<(usize, i64, i64)>,
) -> Seq<(usize, i64, i64)>
    decreases saved.len() - i,
{
    if !(0 <= i < saved.len()) {
        acc
    } else {
        let e = saved[i];
        let acc2 = if e.0 < ns.len() && is_scroll_container(ns[e.0 as int]) && -SCROLL_LIMIT <= e.1
            <= SCROLL_LIMIT && -SCROLL_LIMIT <= e.2 <= SCROLL_LIMIT {
            spec_set_scroll(acc, e.0, e.1, e.2)
        } else {
            acc
        };
        spec_restore(ns, saved, i + 1, acc2)
    }
}

/// The pixel extent a canvas takes from one resolved style dimension: a
/// fixed pixel length, clamped into the canvas limit, and 200 otherwise.
pub open spec fn spec_canvas_dim(d: Dimension) -> u32 {
    match d {
        Dimension::Px(v) => if 0 <= v && v <= 4096 {
            v as u32
        } else if v > 4096 {
            4096u32
        } else {
            200u32
        },
        _ => 200u32,
    }
}

/// A registry slot holds exactly the canvas a node's entity and resolved
/// style dictate: the node's id, its style-derived extents, and the fresh
/// dirty flag.
pub open spec fn canvas_slot_matches(n: UiNodeView, id: String, c: Canvas) -> bool {
    match n.entity {
        crate::style::EntityView::Canvas(cid, _) => {
            &&& id@ == cid
            &&& c.width == spec_canvas_dim(n.layout_style.width)
            &&& c.height == spec_canvas_dim(n.layout_style.height)
            &&& c.dirty
        },
        _ => false,
    }
}

/// Some canvas node of the arena accounts for this registry slot.
pub open spec fn new_slot_ok(ns: Seq<UiNodeView>, id: String, c: Canvas) -> bool {
    exists|t: int| 0 <= t < ns.len() && canvas_slot_matches(#[trigger] ns[t], id, c)
}

/// The retained-mode runtime: it owns the application model, the current
/// tree, the persisted scroll offsets, the canvas registry, and the last
/// frame's markup and command list, and drives the update, rebuild, and
/// diff cycle.
pub struct Runtime<M: Model> {
    pub model: M,
    pub ui: Ui,
    pub default_style: ContainerStyle,
    pub scroll_offsets: Vec<(usize, i64, i64)>,
    pub context: Context,
    pub last_markup: String,
    pub last_commands: Vec<DrawCommand>,
    /// Whether a frame was ever rendered: until then there is no prior
    /// frame to diff against, and a render repaints everything.
    pub has_frame: bool,
}

impl<M: Model> Runtime<M> {
    /// Everything the runtime owns is sound: the tree is well formed, the
    /// canvas registry is paired, saved offsets are bounded, and the
    /// retained frame stays within the engine's coordinate bounds.
    pub open spec fn wf(&self) -> bool {
        &&& self.ui.wf()
        &&& context_wf(self.context)
        &&& forall|i: int|
            0 <= i < self.scroll_offsets@.len() ==> -SCROLL_LIMIT <= (
            #[trigger] self.scroll_offsets@[i]).1 <= SCROLL_LIMIT && -SCROLL_LIMIT
                <= self.scroll_offsets@[i].2 <= SCROLL_LIMIT
        &&& cmds_within(self.last_commands@.map_values(|c: DrawCommand| c@))
    }

    /// Stand up a runtime over a model: the caller passes the markup the
    /// model rendered and its parsed document. Fails only when the tree
    /// cannot be built.
    pub fn new<T: TextMeasurer>(model: M, markup: String, doc: &MarkupNode, measurer: &T) -> (r:
        Result<Runtime<M>, BuildError>)
        ensures
            // Construction fails only when the tree itself cannot be built.
            r is Ok <==> spec_kept(*doc) && built_count(
                *doc,
                crate::style::spec_default_style(),
            ) <= MAX_NODES,
            r matches Result::Ok(rt) ==> rt.wf() && rt.last_markup@ == markup@ && node_built(
                rt.ui.nodes_view(),
                rt.ui.inter_view(),
                rt.ui.root as int,
                *doc,
                crate::style::spec_default_style(),
            ) && rt.ui.scroll_offsets@.len() == 0 && rt.scroll_offsets@.len() == 0
                && rt.last_commands@.len() == 0 && !rt.has_frame
                && rt.context.commands@.len() == 0 && rt.default_style@
                == crate::style::spec_default_style() && (forall|i: int|
                0 <= i < rt.ui.nodes@.len() ==> (match (#[trigger] rt.ui.nodes_view()[i]).entity {
                    crate::style::EntityView::Canvas(id, _) => spec_canvas_idx(
                        rt.context.canvas_ids@,
                        id,
                    ) >= 0,
                    _ => true,
                })),
    {
        let default_style = ContainerStyle::default();
        let ui = match Ui::new(doc, measurer, dup_style(&default_style)) {
            Result::Ok(ui) => ui,
            Result::Err(e) => {
                return Result::Err(e);
            },
        };
        let mut rt = Runtime {
            model,
            ui,
            default_style,
            scroll_offsets: Vec::new(),
            context: Context::new(),
            last_markup: markup,
            last_commands: Vec::new(),
            has_frame: false,
        };
        rt.sync_canvases();
        Result::Ok(rt)
    }

    /// The current tree.
    pub fn ui(&self) -> (r: &Ui)
        ensures
            r == &self.ui,
    {
        &self.ui
    }

    /// The persisted scroll offsets that outlive rebuilds.
    pub fn scroll_offsets(&self) -> (r: &Vec<(usize, i64, i64)>)
        ensures
            r == &self.scroll_offsets,
    {
        &self.scroll_offsets
    }

    /// The canvas registry and deferred-command queue.
    pub fn context(&self) -> (r: &Context)
        ensures
            r == &self.context,
    {
        &self.context
    }

    /// The command list of the last rendered frame.
    pub fn last_commands(&self) -> (r: &Vec<DrawCommand>)
        ensures
            r == &self.last_commands,
    {
        &self.last_commands
    }

    /// Register a canvas buffer for every canvas entity of the current
    /// tree that has none yet, sized from its resolved style.
    fn sync_canvases(&mut self)
        requires
            context_wf(old(self).context),
        ensures
            context_wf(final(self).context),
            final(self).model == old(self).model,
            final(self).ui == old(self).ui,
            final(self).default_style == old(self).default_style,
            final(self).scroll_offsets == old(self).scroll_offsets,
            final(self).last_markup == old(self).last_markup,
            final(self).last_commands == old(self).last_commands,
            final(self).has_frame == old(self).has_frame,
            final(self).context.commands == old(self).context.commands,
            old(self).context.canvas_ids@.len() <= final(self).context.canvas_ids@.len(),
            forall|i: int|
                0 <= i < old(self).context.canvas_ids@.len()
                    ==> #[trigger] final(self).context.canvas_ids@[i] == old(self).context.canvas_ids@[i] && final(self).context.canvases@[i] == old(self).context.canvases@[i],
            // Afterwards every canvas entity of the tree has a registry slot.
            forall|i: int|
                0 <= i < old(self).ui.nodes@.len() ==> (match (#[trigger] old(self).ui.nodes_view()[i]).entity {
                    crate::style::EntityView::Canvas(id, _) => spec_canvas_idx(
                        final(self).context.canvas_ids@,
                        id,
                    ) >= 0,
                    _ => true,
                }),
            // Every slot added here belongs to a canvas node of the tree
            // and is sized from that node's resolved style.
            forall|j: int|
                old(self).context.canvas_ids@.len() <= j < final(self).context.canvas_ids@.len()
                    ==> new_slot_ok(
                    final(self).ui.nodes_view(),
                    #[trigger] final(self).context.canvas_ids@[j],
                    final(self).context.canvases@[j],
                ),
    {
        let n = self.ui.nodes.len();
        let mut i: usize = 0;
        while i < n
            invariant
                i <= n,
                n == self.ui.nodes@.len(),
                context_wf(self.context),
                self.model == old(self).model,
                self.ui == old(self).ui,
                self.default_style == old(self).default_style,
                self.scroll_offsets == old(self).scroll_offsets,
                self.last_markup == old(self).last_markup,
                self.last_commands == old(self).last_commands,
                self.has_frame == old(self).has_frame,
                self.context.commands == old(self).context.commands,
                old(self).context.canvas_ids@.len() <= self.context.canvas_ids@.len(),
                forall|j: int|
                    0 <= j < old(self).context.canvas_ids@.len() ==> self.context.canvas_ids@[j]
                        == old(self).context.canvas_ids@[j] && self.context.canvases@[j] == old(self).context.canvases@[j],
                forall|j: int|
                    0 <= j < i ==> (match (#[trigger] self.ui.nodes_view()[j]).entity {
                        crate::style::EntityView::Canvas(id, _) => spec_canvas_idx(
                            self.context.canvas_ids@,
                            id,
                        ) >= 0,
                        _ => true,
                    }),
                forall|j: int|
                    old(self).context.canvas_ids@.len() <= j < self.context.canvas_ids@.len()
                        ==> new_slot_ok(
                        self.ui.nodes_view(),
                        #[trigger] self.context.canvas_ids@[j],
                        self.context.canvases@[j],
                    ),
            decreases n - i,
        {
            let is_canvas = match &self.ui.nodes[i].data {
                RenderData::Canvas(_, _) => true,
                _ => false,
            };
            if is_canvas {
                let id = match &self.ui.nodes[i].data {
                    RenderData::Canvas(id, _) => id.clone(),
                    _ => String::new(),
                };
                let exists_already = match self.context.canvas_index(id.as_str()) {
                    Option::Some(k) => {
                        proof {
                            lemma_canvas_idx_found(self.context.canvas_ids@, id@, k as int);
                        }
                        true
                    },
                    Option::None => false,
                };
                if !exists_already {
                    let w: u32 = match self.ui.nodes[i].layout_style.width {
                        Dimension::Px(v) => if 0 <= v && v <= 4096 {
                            v as u32
                        } else if v > 4096 {
                            4096
                        } else {
                            200
                        },
                        _ => 200,
                    };
                    let h: u32 = match self.ui.nodes[i].layout_style.height {
                        Dimension::Px(v) => if 0 <= v && v <= 4096 {
                            v as u32
                        } else if v > 4096 {
                            4096
                        } else {
                            200
                        },
                        _ => 200,
                    };
                    let c = Canvas::new(w, h);
                    let ghost pre_ids = self.context.canvas_ids@;
                    let ghost pre_cs = self.context.canvases@;
                    let ghost pid = id;
                    self.context.canvas_ids.push(id);
                    self.context.canvases.push(c);
                    proof {
                        lemma_canvas_idx_append(pre_ids, pid, pid@);
                        // The freshly pushed slot is witnessed by this node.
                        assert(canvas_slot_matches(
                            self.ui.nodes_view()[i as int],
                            self.context.canvas_ids@[pre_ids.len() as int],
                            self.context.canvases@[pre_ids.len() as int],
                        ));
                        // Earlier new slots keep their witnesses: the push
                        // left their entries untouched.
                        assert forall|j: int|
                            old(self).context.canvas_ids@.len() <= j
                                < self.context.canvas_ids@.len() implies new_slot_ok(
                            self.ui.nodes_view(),
                            #[trigger] self.context.canvas_ids@[j],
                            self.context.canvases@[j],
                        ) by {
                            if j < pre_ids.len() {
                                assert(self.context.canvas_ids@[j] == pre_ids[j]);
                                assert(self.context.canvases@[j] == pre_cs[j]);
                                assert(new_slot_ok(
                                    self.ui.nodes_view(),
                                    pre_ids[j],
                                    pre_cs[j],
                                ));
                            } else {
                                assert(new_slot_ok(
                                    self.ui.nodes_view(),
                                    self.context.canvas_ids@[j],
                                    self.context.canvases@[j],
                                ));
                            }
                        }
                        assert forall|j: int| 0 <= j < i implies (match (#[trigger] self
                            .ui
                            .nodes_view()[j]).entity {
                            crate::style::EntityView::Canvas(cid, _) => spec_canvas_idx(
                                self.context.canvas_ids@,
                                cid,
                            ) >= 0,
                            _ => true,
                        }) by {
                            match self.ui.nodes_view()[j].entity {
                                crate::style::EntityView::Canvas(cid, _) => {
                                    lemma_canvas_idx_append(pre_ids, pid, cid);
                                },
                                _ => {},
                            }
                        }
                    }
                }
            }
            i = i + 1;
        }
    }

    /// Handle one input event. Scrolls resolve inside; clicks, keys, and
    /// direct messages go through the model, and the outcome says whether
    /// the caller must rebuild from returned markup.
    pub fn handle_event(&mut self, event: InputEvent) -> (r: EventOutcome)
        requires
            old(self).wf(),
        ensures
            final(self).wf(),
            ({
                // A click that resolves to no interaction message changes
                // nothing and is ignored.
                match event {
                    InputEvent::Click { x, y } => (match crate::pointer::spec_hit_node(
                        old(self).ui.nodes_view(),
                        old(self).ui.scroll_offsets@,
                        old(self).ui.root as int,
                        x,
                        y,
                        0,
                        0,
                    ) {
                        Option::Some(h) => crate::pointer::spec_interaction_from(
                            old(self).ui.nodes_view(),
                            old(self).ui.inter_view(),
                            h as int,
                        ) is None,
                        Option::None => true,
                    }) ==> r is Ignored && *final(self) == *old(self),
                    _ => true,
                }
            }),
            ({
                match r {
                    EventOutcome::Ignored => true,
                    EventOutcome::Scrolled => final(self).scroll_offsets@ == final(self).ui.scroll_offsets@ && final(self).ui.nodes == old(self).ui.nodes && final(self).last_markup == old(self).last_markup,
                    EventOutcome::Updated(m) => {
                        &&& (m is None ==> final(self).ui == old(self).ui && final(self).scroll_offsets == old(self).scroll_offsets && final(self).last_markup
                            == old(self).last_markup && final(self).last_commands == old(self).last_commands)
                        &&& (m matches Option::Some(mk) ==> final(self).ui == old(self).ui
                            && final(self).last_markup@ == mk@ && final(self).scroll_offsets
                            == old(self).scroll_offsets && final(self).last_commands == old(self).last_commands)
                    },
                }
            }),
            // An ignored event changes nothing at all.
            r is Ignored ==> *final(self) == *old(self),
            // Only a scroll event can scroll, and what it does is exactly
            // the scroll manager's outcome for the clamped delta.
            ({
                match event {
                    InputEvent::Scroll { x, y, delta_x, delta_y } => {
                        let dx = spec_clamp_delta(delta_x);
                        let dy = spec_clamp_delta(delta_y);
                        let ns = old(self).ui.nodes_view();
                        let sc = old(self).ui.scroll_offsets@;
                        let target = match spec_hit_node(
                            ns,
                            sc,
                            old(self).ui.root as int,
                            x,
                            y,
                            0,
                            0,
                        ) {
                            Option::Some(h) => spec_scroll_anchor(ns, h as int),
                            Option::None => Option::<usize>::None,
                        };
                        match target {
                            Option::None => r is Ignored,
                            Option::Some(t) => {
                                let nv = spec_scrolled_offset(ns, sc, t, dx, dy);
                                let old_eff = match assoc_scroll(sc, t) {
                                    Option::Some(o) => o,
                                    Option::None => (0, 0),
                                };
                                if nv.0 == old_eff.0 && nv.1 == old_eff.1 {
                                    r is Ignored
                                } else {
                                    &&& r is Scrolled
                                    &&& final(self).ui.scroll_offsets@ == spec_set_scroll(
                                        sc,
                                        t,
                                        nv.0 as i64,
                                        nv.1 as i64,
                                    )
                                    &&& final(self).ui.interactions == old(self).ui.interactions
                                    &&& final(self).model == old(self).model
                                    &&& final(self).context == old(self).context
                                    &&& final(self).last_commands == old(self).last_commands
                                }
                            },
                        }
                    },
                    InputEvent::Hover { .. } => r is Ignored,
                    _ => !(r is Scrolled),
                }
            }),
    {
        match event {
            InputEvent::Click { x, y } => {
                let msg = match self.ui.hit_test(x, y) {
                    Option::Some(m) => m,
                    Option::None => {
                        return EventOutcome::Ignored;
                    },
                };
                self.process_message(msg.as_str())
            },
            InputEvent::Message(msg) => self.process_message(msg.as_str()),
            InputEvent::KeyDown(key) => {
                let msg = key_message("keydown:", key.as_str());
                self.process_message(msg.as_str())
            },
            InputEvent::KeyUp(key) => {
                let msg = key_message("keyup:", key.as_str());
                self.process_message(msg.as_str())
            },
            InputEvent::Scroll { x, y, delta_x, delta_y } => {
                let dx = clamp_delta(delta_x);
                let dy = clamp_delta(delta_y);
                if self.ui.handle_scroll(x, y, dx, dy) {
                    self.scroll_offsets = dup_scroll(&self.ui.scroll_offsets);
                    proof {
                        assert(self.wf());
                    }
                    EventOutcome::Scrolled
                } else {
                    EventOutcome::Ignored
                }
            },
            InputEvent::Hover { .. } => EventOutcome::Ignored,
        }
    }

    /// Feed one message to the model. An unrecognized message is a no-op;
    /// a recognized one updates the model, and the outcome carries fresh
    /// markup exactly when it differs from the previous frame's.
    fn process_message(&mut self, msg: &str) -> (r: EventOutcome)
        requires
            old(self).wf(),
        ensures
            final(self).wf(),
            !(r is Scrolled),
            r is Ignored ==> *final(self) == *old(self),
            r matches EventOutcome::Updated(m) ==> {
                &&& final(self).ui == old(self).ui
                &&& final(self).scroll_offsets == old(self).scroll_offsets
                &&& final(self).last_commands == old(self).last_commands
                &&& (m is None ==> final(self).last_markup == old(self).last_markup)
                &&& (m matches Option::Some(mk) ==> final(self).last_markup@ == mk@)
            },
    {
        if !self.model.recognizes(msg) {
            return EventOutcome::Ignored;
        }
        self.model.update(msg, &mut self.context);
        self.context.reconcile();
        let markup = self.model.view();
        if crate::chars::str_eq(markup.as_str(), self.last_markup.as_str()) {
            EventOutcome::Updated(Option::None)
        } else {
            let copy = markup.clone();
            self.last_markup = markup;
            EventOutcome::Updated(Option::Some(copy))
        }
    }

    /// Replace the tree with one built from freshly parsed markup, then
    /// re-register canvases and re-apply the persisted scroll offsets by
    /// node handle. On failure the previous tree stands.
    pub fn rebuild<T: TextMeasurer>(&mut self, doc: &MarkupNode, measurer: &T) -> (r: Result<
        (),
        BuildError,
    >)
        requires
            old(self).wf(),
        ensures
            final(self).wf(),
            final(self).scroll_offsets == old(self).scroll_offsets,
            final(self).last_markup == old(self).last_markup,
            final(self).last_commands == old(self).last_commands,
            final(self).model == old(self).model,
            final(self).default_style == old(self).default_style,
            // The rebuild fails only when the new tree cannot be built,
            // and the previous tree then stands.
            r is Ok <==> spec_kept(*doc) && built_count(*doc, old(self).default_style@)
                <= MAX_NODES,
            // Canvases persist: existing registry entries are untouched,
            // and every canvas entity of the new tree has a slot.
            forall|i: int|
                0 <= i < old(self).context.canvas_ids@.len()
                    ==> #[trigger] final(self).context.canvas_ids@[i] == old(self).context.canvas_ids@[i] && final(self).context.canvases@[i] == old(self).context.canvases@[i],
            r is Ok ==> (forall|i: int|
                0 <= i < final(self).ui.nodes@.len() ==> (match (#[trigger] final(self).ui.nodes_view()[i]).entity {
                    crate::style::EntityView::Canvas(id, _) => spec_canvas_idx(
                        final(self).context.canvas_ids@,
                        id,
                    ) >= 0,
                    _ => true,
                })),
            r matches Result::Ok(u) ==> node_built(
                final(self).ui.nodes_view(),
                final(self).ui.inter_view(),
                final(self).ui.root as int,
                *doc,
                final(self).default_style@,
            ) && final(self).ui.scroll_offsets@ == spec_restore(
                final(self).ui.nodes_view(),
                old(self).scroll_offsets@,
                0,
                Seq::empty(),
            ),
            r is Err ==> final(self).ui == old(self).ui,
    {
        let ui = match Ui::new(doc, measurer, dup_style(&self.default_style)) {
            Result::Ok(ui) => ui,
            Result::Err(e) => {
                return Result::Err(e);
            },
        };
        self.ui = ui;
        self.restore_scroll();
        self.sync_canvases();
        Result::Ok(())
    }

    /// Re-apply the persisted scroll offsets onto the freshly built tree:
    /// each saved offset whose node handle names a scroll container of the
    /// new tree carries over.
    fn restore_scroll(&mut self)
        requires
            old(self).ui.wf(),
            old(self).ui.scroll_offsets@.len() == 0,
            forall|i: int|
                0 <= i < old(self).scroll_offsets@.len() ==> -SCROLL_LIMIT <= (
                #[trigger] old(self).scroll_offsets@[i]).1 <= SCROLL_LIMIT && -SCROLL_LIMIT <= old(self).scroll_offsets@[i].2 <= SCROLL_LIMIT,
        ensures
            final(self).ui.wf(),
            final(self).ui.nodes == old(self).ui.nodes,
            final(self).ui.root == old(self).ui.root,
            final(self).ui.interactions == old(self).ui.interactions,
            final(self).ui.scroll_offsets@ == spec_restore(
                old(self).ui.nodes_view(),
                old(self).scroll_offsets@,
                0,
                Seq::empty(),
            ),
            final(self).model == old(self).model,
            final(self).default_style == old(self).default_style,
            final(self).scroll_offsets == old(self).scroll_offsets,
            final(self).context == old(self).context,
            final(self).last_markup == old(self).last_markup,
            final(self).last_commands == old(self).last_commands,
    {
        let ghost ns = self.ui.nodes_view();
        let ghost saved = self.scroll_offsets@;
        let n = self.scroll_offsets.len();
        let mut i: usize = 0;
        proof {
            assert(self.ui.scroll_offsets@ =~= Seq::<(usize, i64, i64)>::empty());
        }
        while i < n
            invariant
                i <= n,
                n == self.scroll_offsets@.len(),
                saved == self.scroll_offsets@,
                ns == self.ui.nodes_view(),
                self.ui.wf(),
                self.ui.nodes == old(self).ui.nodes,
                self.ui.root == old(self).ui.root,
                self.ui.interactions == old(self).ui.interactions,
                self.model == old(self).model,
                self.default_style == old(self).default_style,
                self.scroll_offsets == old(self).scroll_offsets,
                self.context == old(self).context,
                self.last_markup == old(self).last_markup,
                self.last_commands == old(self).last_commands,
                forall|j: int|
                    0 <= j < saved.len() ==> -SCROLL_LIMIT <= (#[trigger] saved[j]).1
                        <= SCROLL_LIMIT && -SCROLL_LIMIT <= saved[j].2 <= SCROLL_LIMIT,
                spec_restore(ns, saved, 0, Seq::empty()) == spec_restore(
                    ns,
                    saved,
                    i as int,
                    self.ui.scroll_offsets@,
                ),
            decreases n - i,
        {
            let e = self.scroll_offsets[i];
            let valid = e.0 < self.ui.nodes.len() && {
                match &self.ui.nodes[e.0].data {
                    RenderData::Container(s) => s.overflow == crate::style::Overflow::Scroll,
                    _ => false,
                }
            };
            if valid {
                let ghost pre_inter = self.ui.inter_view();
                proof {
                    lemma_set_scroll_wf(ns, self.ui.scroll_offsets@, e.0, e.1, e.2);
                }
                self.ui.set_scroll(e.0, e.1, e.2);
                proof {
                    assert(self.ui.inter_view() == pre_inter);
                    assert(self.ui.nodes_view() == ns);
                    assert(crate::ui::scroll_wf(self.ui.nodes_view(), self.ui.scroll_offsets@));
                    assert(0 < self.ui.nodes@.len() <= crate::ui::MAX_NODES);
                    assert(self.ui.root == self.ui.nodes@.len() - 1);
                    assert(self.ui.nodes_view()[self.ui.root as int].parent is None);
                    assert(crate::ui::nodes_wf(self.ui.nodes_view()));
                    assert(forall|q: int|
                        0 <= q < self.ui.inter_view().len() ==> (
                        #[trigger] self.ui.inter_view()[q]).0 < self.ui.nodes@.len());
                    assert(self.ui.wf());
                }
            }
            i = i + 1;
        }
    }

    /// Scroll the node registered under an interaction id into view and
    /// persist the moved offset.
    pub fn scroll_into_view(&mut self, interaction_id: &str)
        requires
            old(self).wf(),
        ensures
            final(self).wf(),
            final(self).ui.scroll_offsets@ == spec_sitv_map(
                old(self).ui.nodes_view(),
                old(self).ui.inter_view(),
                old(self).ui.scroll_offsets@,
                interaction_id@,
            ),
            final(self).scroll_offsets@ == final(self).ui.scroll_offsets@,
            final(self).ui.nodes == old(self).ui.nodes,
            final(self).ui.interactions == old(self).ui.interactions,
            final(self).last_markup == old(self).last_markup,
            final(self).last_commands == old(self).last_commands,
            final(self).context == old(self).context,
            final(self).model == old(self).model,
    {
        self.ui.scroll_into_view(interaction_id);
        self.scroll_offsets = dup_scroll(&self.ui.scroll_offsets);
    }

    /// Apply the layout rectangles the external solver computed for the
    /// current tree, one per node in arena order.
    pub fn set_layout(&mut self, rects: &Vec<Rect>)
        requires
            old(self).wf(),
            rects@.len() == old(self).ui.nodes@.len(),
        ensures
            final(self).wf(),
            final(self).ui.nodes@.len() == old(self).ui.nodes@.len(),
            final(self).ui.root == old(self).ui.root,
            // Every node keeps its entity, constraints, and links, and
            // takes exactly its clamped solver rectangle.
            forall|i: int|
                0 <= i < final(self).ui.nodes@.len() ==> same_core(
                    #[trigger] final(self).ui.nodes_view()[i],
                    old(self).ui.nodes_view()[i],
                ) && final(self).ui.nodes_view()[i].parent == old(self).ui.nodes_view()[i].parent
                    && final(self).ui.nodes_view()[i].rect == spec_clamp_rect(rects@[i]),
            final(self).ui.scroll_offsets == old(self).ui.scroll_offsets,
            final(self).ui.interactions == old(self).ui.interactions,
            final(self).scroll_offsets == old(self).scroll_offsets,
            final(self).last_markup == old(self).last_markup,
            final(self).last_commands == old(self).last_commands,
            final(self).context == old(self).context,
            final(self).model == old(self).model,
    {
        self.ui.set_layout(rects);
    }

    /// Finish an update: drain the deferred commands the model queued,
    /// persist the scroll offsets they moved, and decide whether a redraw
    /// is owed. `relayout` says whether the tree was rebuilt.
    pub fn finish_update(&mut self, relayout: bool) -> (dirty: bool)
        requires
            old(self).wf(),
        ensures
            final(self).wf(),
            final(self).ui.nodes == old(self).ui.nodes,
            final(self).ui.root == old(self).ui.root,
            final(self).ui.interactions == old(self).ui.interactions,
            final(self).last_commands == old(self).last_commands,
            final(self).last_markup == old(self).last_markup,
            final(self).model == old(self).model,
            final(self).has_frame == old(self).has_frame,
            // The canvas registry is only read here: ids, buffers, and
            // dirty flags all stand. Flags clear only in `render`.
            final(self).context.canvas_ids == old(self).context.canvas_ids,
            final(self).context.canvases == old(self).context.canvases,
            final(self).context.commands@.len() == 0,
            // The deferred commands the model queued apply to the tree's
            // scroll map in order, and the result is persisted.
            final(self).ui.scroll_offsets@ == spec_apply_deferred(
                old(self).ui.nodes_view(),
                old(self).ui.inter_view(),
                old(self).ui.scroll_offsets@,
                old(self).context.commands@,
                0,
            ),
            final(self).scroll_offsets@ == final(self).ui.scroll_offsets@,
            // A redraw is owed exactly for a relayout, a deferred command,
            // or a canvas painted by the previous frame that was drawn
            // into.
            dirty == (relayout || old(self).context.commands@.len() > 0
                || spec_frame_canvas_dirty(
                old(self).last_commands@.map_values(|c: DrawCommand| c@),
                old(self).context.canvas_ids@,
                old(self).context.canvases@,
                0,
            )),
    {
        let ghost ns0 = self.ui.nodes_view();
        let ghost iv0 = self.ui.inter_view();
        let ghost sc0 = self.ui.scroll_offsets@;
        let ghost q = self.context.commands@;
        let had_deferred = self.context.commands.len() > 0;
        let n = self.context.commands.len();
        let mut i: usize = 0;
        while i < n
            invariant
                i <= n,
                n == self.context.commands@.len(),
                self.wf(),
                self.ui.nodes == old(self).ui.nodes,
                self.ui.root == old(self).ui.root,
                self.ui.interactions == old(self).ui.interactions,
                ns0 == self.ui.nodes_view(),
                iv0 == self.ui.inter_view(),
                self.scroll_offsets == old(self).scroll_offsets,
                self.last_commands == old(self).last_commands,
                self.last_markup == old(self).last_markup,
                self.model == old(self).model,
                self.has_frame == old(self).has_frame,
                self.default_style == old(self).default_style,
                self.context == old(self).context,
                q == self.context.commands@,
                spec_apply_deferred(ns0, iv0, self.ui.scroll_offsets@, q, i as int)
                    == spec_apply_deferred(ns0, iv0, sc0, q, 0),
            decreases n - i,
        {
            let id = match &self.context.commands[i] {
                ContextCommand::ScrollIntoView(id) => id.clone(),
            };
            self.ui.scroll_into_view(id.as_str());
            proof {
                assert(self.ui.nodes_view() == ns0);
                assert(self.ui.inter_view() == iv0);
            }
            i = i + 1;
        }
        self.context.commands = Vec::new();
        self.scroll_offsets = dup_scroll(&self.ui.scroll_offsets);
        proof {
            assert(self.wf());
        }
        if relayout || had_deferred {
            return true;
        }
        // A canvas painted by the previous frame may have been drawn into;
        // that alone requires a redraw. The dirty flags stay set until an
        // actual render.
        let ghost lcv = self.last_commands@.map_values(|c: DrawCommand| c@);
        let m = self.last_commands.len();
        let mut j: usize = 0;
        while j < m
            invariant
                j <= m,
                m == self.last_commands@.len(),
                m == lcv.len(),
                lcv == self.last_commands@.map_values(|c: DrawCommand| c@),
                self.wf(),
                self.ui.nodes == old(self).ui.nodes,
                self.ui.root == old(self).ui.root,
                self.ui.interactions == old(self).ui.interactions,
                ns0 == old(self).ui.nodes_view(),
                iv0 == old(self).ui.inter_view(),
                sc0 == old(self).ui.scroll_offsets@,
                q == old(self).context.commands@,
                self.ui.scroll_offsets@ == spec_apply_deferred(ns0, iv0, sc0, q, 0),
                self.last_markup == old(self).last_markup,
                self.model == old(self).model,
                self.has_frame == old(self).has_frame,
                self.last_commands == old(self).last_commands,
                self.scroll_offsets@ == self.ui.scroll_offsets@,
                self.context.canvas_ids == old(self).context.canvas_ids,
                self.context.canvases == old(self).context.canvases,
                self.context.commands@.len() == 0,
                spec_frame_canvas_dirty(
                    lcv,
                    self.context.canvas_ids@,
                    self.context.canvases@,
                    0,
                ) == spec_frame_canvas_dirty(
                    lcv,
                    self.context.canvas_ids@,
                    self.context.canvases@,
                    j as int,
                ),
            decreases m - j,
        {
            let dirty_canvas = match &self.last_commands[j] {
                DrawCommand::DrawCanvas { id, .. } => {
                    match self.context.canvas_index(id.as_str()) {
                        Option::Some(ci) => {
                            proof {
                                lemma_canvas_idx_found(
                                    self.context.canvas_ids@,
                                    id@,
                                    ci as int,
                                );
                            }
                            self.context.canvases[ci].dirty
                        },
                        Option::None => {
                            proof {
                                lemma_canvas_idx_missing(self.context.canvas_ids@, id@);
                            }
                            false
                        },
                    }
                },
                _ => false,
            };
            if dirty_canvas {
                return true;
            }
            j = j + 1;
        }
        false
    }
}

/// The scroll map after applying the deferred commands `cmds[i..]` in
/// order: each scrolls its interaction id into view.
pub open spec fn spec_apply_deferred(
    ns: Seq<UiNodeView>,
    iv: Seq<(usize, Seq<char>)>,
    sc: Seq<(usize, i64, i64)>,
    cmds: Seq<ContextCommand>,
    i: int,
) -> Seq<(usize, i64, i64)>
    decreases cmds.len() - i,
{
    if !(0 <= i < cmds.len()) {
        sc
    } else {
        match cmds[i] {
            ContextCommand::ScrollIntoView(id) => spec_apply_deferred(
                ns,
                iv,
                spec_sitv_map(ns, iv, sc, id@),
                cmds,
                i + 1,
            ),
        }
    }
}

/// Whether any canvas command of a frame names a buffer that is flagged
/// dirty, from position `j` on.
pub open spec fn spec_frame_canvas_dirty(
    cmds: Seq<CmdView>,
    ids: Seq<String>,
    cs: Seq<Canvas>,
    j: int,
) -> bool
    decreases cmds.len() - j,
{
    if !(0 <= j < cmds.len()) {
        false
    } else {
        (match cmds[j] {
            CmdView::DrawCanvas { id, .. } => {
                let ci = spec_canvas_idx(ids, id);
                0 <= ci < cs.len() && cs[ci].dirty
            },
            _ => false,
        }) || spec_frame_canvas_dirty(cmds, ids, cs, j + 1)
    }
}

/// The registry slot an id occupies, or `-1`: first match wins.
pub open spec fn spec_canvas_idx(ids: Seq<String>, id: Seq<char>) -> int
    decreases ids.len(),
{
    if ids.len() == 0 {
        -1
    } else if ids[0]@ == id {
        0
    } else {
        let r = spec_canvas_idx(ids.drop_first(), id);
        if r < 0 {
            -1
        } else {
            r + 1
        }
    }
}

/// `spec_canvas_idx` finds exactly the first matching slot.
proof fn lemma_canvas_idx_found(ids: Seq<String>, id: Seq<char>, i: int)
    requires
        0 <= i < ids.len(),
        ids[i]@ == id,
        forall|j: int| 0 <= j < i ==> (#[trigger] ids[j])@ != id,
    ensures
        spec_canvas_idx(ids, id) == i,
    decreases i,
{
    if i > 0 {
        lemma_canvas_idx_found(ids.drop_first(), id, i - 1);
    }
}

/// Appending a slot never unregisters an id, and registers the appended
/// one.
proof fn lemma_canvas_idx_append(ids: Seq<String>, x: String, id: Seq<char>)
    ensures
        spec_canvas_idx(ids, id) >= 0 ==> spec_canvas_idx(ids.push(x), id) == spec_canvas_idx(
            ids,
            id,
        ),
        x@ == id ==> spec_canvas_idx(ids.push(x), id) >= 0,
    decreases ids.len(),
{
    if ids.len() == 0 {
        assert(ids.push(x)[0] == x);
        assert(ids.push(x).drop_first() =~= ids);
    } else {
        assert(ids.push(x)[0] == ids[0]);
        assert(ids.push(x).drop_first() =~= ids.drop_first().push(x));
        lemma_canvas_idx_append(ids.drop_first(), x, id);
    }
}

/// Where no slot matches, `spec_canvas_idx` reports `-1`.
proof fn lemma_canvas_idx_missing(ids: Seq<String>, id: Seq<char>)
    requires
        forall|j: int| 0 <= j < ids.len() ==> (#[trigger] ids[j])@ != id,
    ensures
        spec_canvas_idx(ids, id) == -1,
    decreases ids.len(),
{
    if ids.len() > 0 {
        lemma_canvas_idx_missing(ids.drop_first(), id);
    }
}

/// The dirty union a frame owes its canvases, folded from position `i`:
/// every canvas command whose buffer is flagged dirty joins its raw
/// rectangle into the union.
pub open spec fn spec_canvas_union(
    cmds: Seq<CmdView>,
    ids: Seq<String>,
    cs: Seq<Canvas>,
    i: int,
    acc: Option<Rect>,
) -> Option<Rect>
    decreases cmds.len() - i,
{
    if !(0 <= i < cmds.len()) {
        acc
    } else {
        let here = match cmds[i] {
            CmdView::DrawCanvas { id, rect } => {
                let ci = spec_canvas_idx(ids, id);
                if 0 <= ci < cs.len() && cs[ci].dirty {
                    Option::Some(rect)
                } else {
                    Option::<Rect>::None
                }
            },
            _ => Option::<Rect>::None,
        };
        spec_canvas_union(cmds, ids, cs, i + 1, spec_union_opt(acc, here))
    }
}

impl<M: Model> Runtime<M> {
    /// Produce the next frame: build the command list, diff it against the
    /// previous frame, widen the dirty region by every visible canvas that
    /// was drawn into, clear the canvas dirty flags, and retain the list.
    /// `None` means repaint everything: it is returned on the very first
    /// frame, when no prior frame exists to diff against.
    pub fn render(&mut self) -> (dirty: Option<Rect>)
        requires
            old(self).wf(),
        ensures
            final(self).wf(),
            final(self).ui == old(self).ui,
            final(self).model == old(self).model,
            final(self).scroll_offsets == old(self).scroll_offsets,
            final(self).last_markup == old(self).last_markup,
            final(self).context.canvas_ids == old(self).context.canvas_ids,
            final(self).context.commands == old(self).context.commands,
            final(self).has_frame,
            final(self).last_commands@.map_values(|c: DrawCommand| c@) == spec_ui_commands(
                old(self).ui,
            ),
            forall|i: int|
                0 <= i < final(self).context.canvases@.len()
                    ==> !(#[trigger] final(self).context.canvases@[i]).dirty,
            dirty == (if old(self).has_frame {
                spec_canvas_union(
                    spec_ui_commands(old(self).ui),
                    old(self).context.canvas_ids@,
                    old(self).context.canvases@,
                    0,
                    spec_diff_from(
                        spec_ui_commands(old(self).ui),
                        old(self).last_commands@.map_values(|c: DrawCommand| c@),
                        0,
                        Option::<Rect>::None,
                    ),
                )
            } else {
                Option::<Rect>::None
            }),
    {
        let new_cmds = self.ui.build_commands();
        let ghost nv = new_cmds@.map_values(|c: DrawCommand| c@);
        if !self.has_frame {
            // No prior frame exists: repaint everything, clear the canvas
            // flags, and retain this first frame for the next diff.
            let m0 = self.context.canvases.len();
            let mut j0: usize = 0;
            while j0 < m0
                invariant
                    j0 <= m0,
                    m0 == self.context.canvases@.len(),
                    self.ui == old(self).ui,
                    self.model == old(self).model,
                    self.default_style == old(self).default_style,
                    self.scroll_offsets == old(self).scroll_offsets,
                    self.last_markup == old(self).last_markup,
                    self.last_commands == old(self).last_commands,
                    self.has_frame == old(self).has_frame,
                    self.context.canvas_ids == old(self).context.canvas_ids,
                    self.context.commands == old(self).context.commands,
                    self.context.canvases@.len() == old(self).context.canvases@.len(),
                    forall|t: int| 0 <= t < j0 ==> !(#[trigger] self.context.canvases@[t]).dirty,
                    self.wf(),
                decreases m0 - j0,
            {
                self.context.canvases[j0].dirty = false;
                proof {
                    assert(context_wf(self.context));
                }
                j0 = j0 + 1;
            }
            self.last_commands = new_cmds;
            self.has_frame = true;
            proof {
                assert(self.wf());
            }
            return Option::None;
        }
        let mut acc = diff_commands(&new_cmds, &self.last_commands);
        // Widen by every visible canvas whose buffer was drawn into.
        let n = new_cmds.len();
        let mut i: usize = 0;
        while i < n
            invariant
                i <= n,
                n == new_cmds@.len(),
                self.wf(),
                *self == *old(self),
                nv == new_cmds@.map_values(|c: DrawCommand| c@),
                cmds_within(nv),
                acc matches Option::Some(rec) ==> rect_within(
                    rec,
                    RECT_LIMIT as int + BOUNDS_PAD as int,
                ),
                spec_canvas_union(
                    nv,
                    self.context.canvas_ids@,
                    self.context.canvases@,
                    i as int,
                    acc,
                ) == spec_canvas_union(
                    nv,
                    self.context.canvas_ids@,
                    self.context.canvases@,
                    0,
                    spec_diff_from(
                        nv,
                        self.last_commands@.map_values(|c: DrawCommand| c@),
                        0,
                        Option::<Rect>::None,
                    ),
                ),
            decreases n - i,
        {
            let here: Option<Rect> = match &new_cmds[i] {
                DrawCommand::DrawCanvas { id, rect } => {
                    match self.context.canvas_index(id.as_str()) {
                        Option::Some(ci) => {
                            proof {
                                lemma_canvas_idx_found(
                                    self.context.canvas_ids@,
                                    id@,
                                    ci as int,
                                );
                            }
                            if self.context.canvases[ci].dirty {
                                Option::Some(*rect)
                            } else {
                                Option::None
                            }
                        },
                        Option::None => {
                            proof {
                                lemma_canvas_idx_missing(self.context.canvas_ids@, id@);
                            }
                            Option::None
                        },
                    }
                },
                _ => Option::None,
            };
            acc = match (acc, here) {
                (Option::None, x) => x,
                (Option::Some(ra), Option::None) => Option::Some(ra),
                (Option::Some(ra), Option::Some(rb)) => Option::Some(ra.expand(rb)),
            };
            i = i + 1;
        }
        // Clear the dirty flags: this is the only place they reset.
        let m = self.context.canvases.len();
        let mut j: usize = 0;
        while j < m
            invariant
                j <= m,
                m == self.context.canvases@.len(),
                self.ui == old(self).ui,
                self.model == old(self).model,
                self.default_style == old(self).default_style,
                self.scroll_offsets == old(self).scroll_offsets,
                self.last_markup == old(self).last_markup,
                self.last_commands == old(self).last_commands,
                self.context.canvas_ids == old(self).context.canvas_ids,
                self.context.commands == old(self).context.commands,
                self.context.canvases@.len() == old(self).context.canvases@.len(),
                forall|t: int| 0 <= t < j ==> !(#[trigger] self.context.canvases@[t]).dirty,
                self.wf(),
            decreases m - j,
        {
            self.context.canvases[j].dirty = false;
            proof {
                assert(context_wf(self.context));
            }
            j = j + 1;
        }
        self.last_commands = new_cmds;
        self.has_frame = true;
        proof {
            assert(self.wf());
        }
        acc
    }
}

/// The canonical message string of a key event: the prefix followed by
/// the key, exactly.
pub fn key_message(prefix: &str, key: &str) -> (m: String)
    ensures
        m@ == prefix@ + key@,
{
    let mut m = String::from_str(prefix);
    m.append(key);
    m
}

/// A scroll delta clamped into the engine's coordinate limit.
pub open spec fn spec_clamp_delta(d: i64) -> i64 {
    if d < -COORD_LIMIT {
        (-COORD_LIMIT) as i64
    } else if d > COORD_LIMIT {
        COORD_LIMIT
    } else {
        d
    }
}

/// Clamp a scroll delta into the engine's coordinate limit.
fn clamp_delta(d: i64) -> (r: i64)
    ensures
        r == spec_clamp_delta(d),
        -COORD_LIMIT <= r <= COORD_LIMIT,
{
    if d < -COORD_LIMIT {
        -COORD_LIMIT
    } else if d > COORD_LIMIT {
        COORD_LIMIT
    } else {
        d
    }
}

/// Copy a scroll map.
fn dup_scroll(v: &Vec<(usize, i64, i64)>) -> (r: Vec<(usize, i64, i64)>)
    ensures
        r@ == v@,
{
    let n = v.len();
    let mut out: Vec<(usize, i64, i64)> = Vec::new();
    let mut i: usize = 0;
    while i < n
        invariant
            i <= n,
            n == v@.len(),
            out@ == v@.subrange(0, i as int),
        decreases n - i,
    {
        out.push(v[i]);
        proof {
            assert(out@ =~= v@.subrange(0, i + 1 as int));
        }
        i = i + 1;
    }
    proof {
        assert(v@.subrange(0, n as int) =~= v@);
    }
    out
}

} // verus!
