use vstd::prelude::*;

use crate::geometry::{CmdView, DrawCommand, Rect, RECT_LIMIT, cmd_within, rect_within};
use crate::layout::COORD_LIMIT;
use crate::style::{EntityView, Overflow, StyleView, RenderData};
use crate::ui::{MAX_NODES, SCROLL_LIMIT, Ui, UiNodeView, assoc_scroll, node_wf};

verus! {

/// Bound on an accumulated drawing offset at node `idx`: each step down
/// the tree adds at most one relative coordinate and one scroll offset,
/// and indices strictly decrease.
pub open spec fn off_limit(idx: int) -> int {
    (MAX_NODES - 1 - idx) * (COORD_LIMIT + SCROLL_LIMIT)
}

/// The paint style a node's own box uses, if its entity kind paints one:
/// containers and text runs paint backgrounds and borders.
pub open spec fn box_style(e: EntityView) -> Option<StyleView> {
    match e {
        EntityView::Container(s) => Option::Some(s),
        EntityView::Text(_, s) => Option::Some(s),
        _ => Option::None,
    }
}

/// The overflow mode the command walk honors at a node.
pub open spec fn overflow_of(e: EntityView) -> Overflow {
    match box_style(e) {
        Option::Some(s) => s.overflow,
        Option::None => Overflow::Visible,
    }
}

/// Whether a node paints its own box: it has a background color, a
/// gradient, or a positive border width.
pub open spec fn paints_box(s: StyleView) -> bool {
    s.background_color is Some || s.background_gradient is Some || s.border_width > 0
}

/// The entity-specific command a node emits after its box, if any.
pub open spec fn content_cmds(e: EntityView, rect: Rect) -> Seq<CmdView> {
    match e {
        EntityView::Container(_) => Seq::empty(),
        EntityView::Text(t, s) => seq![
            CmdView::DrawText {
                text: t,
                rect,
                color: s.color,
                font_size: s.font_size,
                weight: s.weight,
            },
        ],
        EntityView::Image(src, s) => seq![
            CmdView::DrawImage { src, rect, border_radius: s.border_radius },
        ],
        EntityView::Checkbox(c, s) => seq![CmdView::DrawCheckbox { rect, checked: c, color: s.color }],
        EntityView::Slider(v, s) => seq![CmdView::DrawSlider { rect, value: v, color: s.color }],
        EntityView::Progress(v, mx, s) => seq![
            CmdView::DrawProgress { rect, value: v, max: mx, color: s.color },
        ],
        EntityView::Canvas(id, _) => seq![CmdView::DrawCanvas { id, rect }],
    }
}

/// The box command a node emits before its content, if it paints one.
pub open spec fn box_cmds(e: EntityView, rect: Rect) -> Seq<CmdView> {
    match box_style(e) {
        Option::Some(s) => if paints_box(s) {
            seq![
                CmdView::DrawRect {
                    rect,
                    color: s.background_color,
                    gradient: s.background_gradient,
                    border_radius: s.border_radius,
                    border_width: s.border_width,
                    border_color: s.border_color,
                },
            ]
        } else {
            Seq::empty()
        },
        Option::None => Seq::empty(),
    }
}

/// The draw commands of the subtree at `idx`, painted at the accumulated
/// offset `(ox, oy)`: the node's box, its content, a clip scope when its
/// overflow is not visible, its children shifted by its scroll offset, and
/// the closing pop.
pub open spec fn spec_node_commands(
    ns: Seq<UiNodeView>,
    sc: Seq<(usize, i64, i64)>,
    idx: int,
    ox: int,
    oy: int,
) -> Seq<CmdView>
    decreases idx, 1int, 0int,
{
    if !(0 <= idx < ns.len()) {
        Seq::empty()
    } else {
        let nd = ns[idx];
        let x = ox + nd.rect.x;
        let y = oy + nd.rect.y;
        let rect = Rect { x: x as i64, y: y as i64, width: nd.rect.width, height: nd.rect.height };
        let overflow = overflow_of(nd.entity);
        let off2 = if overflow == Overflow::Scroll {
            match assoc_scroll(sc, idx as usize) {
                Option::Some((sx, sy)) => (x - sx, y - sy),
                Option::None => (x, y),
            }
        } else {
            (x, y)
        };
        let clip = if overflow != Overflow::Visible {
            seq![CmdView::Clip { rect }]
        } else {
            Seq::empty()
        };
        let pop = if overflow != Overflow::Visible {
            seq![CmdView::PopClip]
        } else {
            Seq::empty()
        };
        box_cmds(nd.entity, rect) + content_cmds(nd.entity, rect) + clip + spec_kids_commands(
            ns,
            sc,
            nd.children,
            idx,
            off2.0,
            off2.1,
            0,
        ) + pop
    }
}

/// The commands of the children `kids[j..]`, all of which lie below
/// `bound` in a well-formed tree.
pub open spec fn spec_kids_commands(
    ns: Seq<UiNodeView>,
    sc: Seq<(usize, i64, i64)>,
    kids: Seq<usize>,
    bound: int,
    ox: int,
    oy: int,
    j: int,
) -> Seq<CmdView>
    decreases bound, 0int, kids.len() - j,
{
    if !(0 <= j < kids.len()) {
        Seq::empty()
    } else if kids[j] < bound && 0 <= bound {
        spec_node_commands(ns, sc, kids[j] as int, ox, oy) + spec_kids_commands(
            ns,
            sc,
            kids,
            bound,
            ox,
            oy,
            j + 1,
        )
    } else {
        spec_kids_commands(ns, sc, kids, bound, ox, oy, j + 1)
    }
}

/// The full paint plan of a tree: its root subtree painted at the origin.
pub open spec fn spec_ui_commands(ui: Ui) -> Seq<CmdView> {
    spec_node_commands(ui.nodes_view(), ui.scroll_offsets@, ui.root as int, 0, 0)
}

/// Emit the subtree at `idx` into `out`.
#[verifier::rlimit(60)]
fn emit_commands(ui: &Ui, idx: usize, ox: i64, oy: i64, out: &mut Vec<DrawCommand>)
    requires
        ui.wf(),
        idx < ui.nodes@.len(),
        -off_limit(idx as int) <= ox <= off_limit(idx as int),
        -off_limit(idx as int) <= oy <= off_limit(idx as int),
    ensures
        final(out)@.map_values(|c: DrawCommand| c@) == old(out)@.map_values(|c: DrawCommand| c@)
            + spec_node_commands(
            ui.nodes_view(),
            ui.scroll_offsets@,
            idx as int,
            ox as int,
            oy as int,
        ),
        forall|i: int|
            old(out)@.len() <= i < final(out)@.len() ==> cmd_within(
                (#[trigger] final(out)@[i])@,
                RECT_LIMIT as int,
            ),
    decreases idx,
{
    let ghost ns = ui.nodes_view();
    let ghost sc = ui.scroll_offsets@;
    let ghost base = out@.map_values(|c: DrawCommand| c@);
    proof {
        assert(node_wf(ns, idx as int));
    }
    let nd = &ui.nodes[idx];
    let x = ox + nd.rect.x;
    let y = oy + nd.rect.y;
    let rect = Rect { x, y, width: nd.rect.width, height: nd.rect.height };
    proof {
        assert(rect_within(rect, RECT_LIMIT as int));
    }
    // The node's own box, when it paints one.
    let mut overflow = Overflow::Visible;
    match &nd.data {
        RenderData::Container(s) | RenderData::Text(_, s) => {
            overflow = s.overflow;
            let paints = match s.background_color {
                Option::Some(_) => true,
                Option::None => match &s.background_gradient {
                    Option::Some(_) => true,
                    Option::None => s.border_width > 0,
                },
            };
            if paints {
                out.push(
                    DrawCommand::DrawRect {
                        rect,
                        color: s.background_color,
                        gradient: crate::style::dup_gradient_opt(&s.background_gradient),
                        border_radius: s.border_radius,
                        border_width: s.border_width,
                        border_color: s.border_color,
                    },
                );
            }
        },
        _ => {},
    }
    // The entity-specific content.
    match &nd.data {
        RenderData::Container(_) => {},
        RenderData::Text(t, s) => {
            out.push(
                DrawCommand::DrawText {
                    text: t.clone(),
                    rect,
                    color: s.color,
                    font_size: s.font_size,
                    weight: s.weight,
                },
            );
        },
        RenderData::Image(src, s) => {
            out.push(
                DrawCommand::DrawImage { src: src.clone(), rect, border_radius: s.border_radius },
            );
        },
        RenderData::Checkbox(c, s) => {
            out.push(DrawCommand::DrawCheckbox { rect, checked: *c, color: s.color });
        },
        RenderData::Slider(v, s) => {
            out.push(DrawCommand::DrawSlider { rect, value: *v, color: s.color });
        },
        RenderData::Progress(v, mx, s) => {
            out.push(DrawCommand::DrawProgress { rect, value: *v, max: *mx, color: s.color });
        },
        RenderData::Canvas(id, _) => {
            out.push(DrawCommand::DrawCanvas { id: id.clone(), rect });
        },
    }
    // Open the clip scope.
    if overflow != Overflow::Visible {
        out.push(DrawCommand::Clip { rect });
    }
    // The offset the children draw at: scrolling shifts them.
    let mut cox = x;
    let mut coy = y;
    if overflow == Overflow::Scroll {
        proof {
            crate::ui::lemma_assoc_scroll_bounds(ns, sc, idx);
        }
        match ui.get_scroll(idx) {
            Option::Some((sx, sy)) => {
                cox = x - sx;
                coy = y - sy;
            },
            Option::None => {},
        }
    }
    let ghost pre_kids = out@.map_values(|c: DrawCommand| c@);
    proof {
        assert(pre_kids =~= base + box_cmds(ns[idx as int].entity, rect) + content_cmds(
            ns[idx as int].entity,
            rect,
        ) + (if overflow_of(ns[idx as int].entity) != Overflow::Visible {
            seq![CmdView::Clip { rect }]
        } else {
            Seq::<CmdView>::empty()
        }));
    }
    let nk = nd.children.len();
    let mut j: usize = 0;
    while j < nk
        invariant
            j <= nk,
            ui.wf(),
            idx < ui.nodes@.len(),
            ns == ui.nodes_view(),
            sc == ui.scroll_offsets@,
            nk == ns[idx as int].children.len(),
            nd.children@ == ns[idx as int].children,
            -off_limit(idx as int) - COORD_LIMIT - SCROLL_LIMIT <= cox <= off_limit(idx as int)
                + COORD_LIMIT + SCROLL_LIMIT,
            -off_limit(idx as int) - COORD_LIMIT - SCROLL_LIMIT <= coy <= off_limit(idx as int)
                + COORD_LIMIT + SCROLL_LIMIT,
            out@.map_values(|c: DrawCommand| c@) + spec_kids_commands(
                ns,
                sc,
                ns[idx as int].children,
                idx as int,
                cox as int,
                coy as int,
                j as int,
            ) == pre_kids + spec_kids_commands(
                ns,
                sc,
                ns[idx as int].children,
                idx as int,
                cox as int,
                coy as int,
                0,
            ),
            forall|i: int|
                old(out)@.len() <= i < out@.len() ==> cmd_within(
                    (#[trigger] out@[i])@,
                    RECT_LIMIT as int,
                ),
            old(out)@.len() <= out@.len(),
        decreases nk - j,
    {
        let kid = nd.children[j];
        proof {
            assert(node_wf(ns, idx as int));
            assert(ns[idx as int].children[j as int] < idx);
            assert(off_limit(kid as int) >= off_limit(idx as int) + COORD_LIMIT + SCROLL_LIMIT);
        }
        let ghost before_child = out@.map_values(|c: DrawCommand| c@);
        let ghost before_len = out@.len();
        emit_commands(ui, kid, cox, coy, out);
        proof {
            assert forall|i: int|
                old(out)@.len() <= i < out@.len() implies cmd_within(
                (#[trigger] out@[i])@,
                RECT_LIMIT as int,
            ) by {
                if i < before_len {
                    assert(out@.map_values(|c: DrawCommand| c@)[i] == before_child[i]);
                }
            }
            assert(out@.map_values(|c: DrawCommand| c@) =~= before_child + spec_node_commands(
                ns,
                sc,
                kid as int,
                cox as int,
                coy as int,
            ));
            assert(spec_kids_commands(ns, sc, ns[idx as int].children, idx as int, cox as int, coy as int, j as int)
                =~= spec_node_commands(ns, sc, kid as int, cox as int, coy as int)
                + spec_kids_commands(ns, sc, ns[idx as int].children, idx as int, cox as int, coy as int, j + 1));
            assert(out@.map_values(|c: DrawCommand| c@) + spec_kids_commands(
                ns,
                sc,
                ns[idx as int].children,
                idx as int,
                cox as int,
                coy as int,
                j + 1,
            ) =~= before_child + spec_kids_commands(
                ns,
                sc,
                ns[idx as int].children,
                idx as int,
                cox as int,
                coy as int,
                j as int,
            ));
        }
        j = j + 1;
    }
    proof {
        assert(spec_kids_commands(
            ns,
            sc,
            ns[idx as int].children,
            idx as int,
            cox as int,
            coy as int,
            nk as int,
        ) =~= Seq::<CmdView>::empty());
        assert(out@.map_values(|c: DrawCommand| c@) =~= pre_kids + spec_kids_commands(
            ns,
            sc,
            ns[idx as int].children,
            idx as int,
            cox as int,
            coy as int,
            0,
        ));
    }
    let ghost after_kids = out@.map_values(|c: DrawCommand| c@);
    // Close the clip scope.
    if overflow != Overflow::Visible {
        out.push(DrawCommand::PopClip);
        proof {
            assert(out@.map_values(|c: DrawCommand| c@) =~= after_kids.push(CmdView::PopClip));
        }
    }
    proof {
        assert(out@.map_values(|c: DrawCommand| c@) =~= base + spec_node_commands(
            ns,
            sc,
            idx as int,
            ox as int,
            oy as int,
        ));
    }
}

impl Ui {
    /// The ordered draw-command list of the whole tree, in paint order:
    /// later commands paint over earlier ones.
    pub fn build_commands(&self) -> (r: Vec<DrawCommand>)
        requires
            self.wf(),
        ensures
            r@.map_values(|c: DrawCommand| c@) == spec_ui_commands(*self),
            forall|i: int|
                0 <= i < r@.len() ==> cmd_within((#[trigger] r@[i])@, RECT_LIMIT as int),
    {
        let mut out: Vec<DrawCommand> = Vec::new();
        proof {
            assert(out@.map_values(|c: DrawCommand| c@) =~= Seq::<CmdView>::empty());
            assert(off_limit(self.root as int) >= 0);
        }
        emit_commands(self, self.root, 0, 0, &mut out);
        out
    }
}

} // verus!
