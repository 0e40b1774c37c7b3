use vstd::prelude::*;

use crate::layout::COORD_LIMIT;
use crate::paint::off_limit;
use crate::style::{Overflow, RenderData};
use crate::ui::{
    MAX_NODES, SCROLL_LIMIT, Ui, UiNodeView, assoc_inter, assoc_scroll, is_scroll_container,
    lemma_assoc_scroll_bounds, lemma_set_scroll, lemma_set_scroll_wf, node_wf, scroll_wf, spec_set_scroll,
    view_str_opt,
};

verus! {

/// The deepest node whose rectangle contains the point, testing children
/// topmost-first, under the accumulated offset `(ax, ay)`.
pub open spec fn spec_hit_node(
    ns: Seq<UiNodeView>,
    sc: Seq<(usize, i64, i64)>,
    idx: int,
    x: i64,
    y: i64,
    ax: int,
    ay: int,
) -> Option<usize>
    decreases idx, 1int, 0int,
{
    if !(0 <= idx < ns.len()) {
        Option::None
    } else {
        let nd = ns[idx];
        let left = ax + nd.rect.x;
        let top = ay + nd.rect.y;
        if left <= x <= left + nd.rect.width && top <= y <= top + nd.rect.height {
            let off2 = if is_scroll_container(nd) {
                match assoc_scroll(sc, idx as usize) {
                    Option::Some((sx, sy)) => (left - sx, top - sy),
                    Option::None => (left, top),
                }
            } else {
                (left, top)
            };
            match spec_hit_kids(ns, sc, nd.children, idx, x, y, off2.0, off2.1, nd.children.len()
                - 1) {
                Option::Some(h) => Option::Some(h),
                Option::None => Option::Some(idx as usize),
            }
        } else {
            Option::None
        }
    }
}

/// Hit-test the children `kids[..=j]` in reverse order, so the child drawn
/// last wins.
pub open spec fn spec_hit_kids(
    ns: Seq<UiNodeView>,
    sc: Seq<(usize, i64, i64)>,
    kids: Seq<usize>,
    bound: int,
    x: i64,
    y: i64,
    ax: int,
    ay: int,
    j: int,
) -> Option<usize>
    decreases bound, 0int, j + 1,
{
    if !(0 <= j < kids.len()) {
        Option::None
    } else if kids[j] < bound && 0 <= bound {
        match spec_hit_node(ns, sc, kids[j] as int, x, y, ax, ay) {
            Option::Some(h) => Option::Some(h),
            Option::None => spec_hit_kids(ns, sc, kids, bound, x, y, ax, ay, j - 1),
        }
    } else {
        spec_hit_kids(ns, sc, kids, bound, x, y, ax, ay, j - 1)
    }
}

/// The interaction message governing node `idx`: its own registration, or
/// the nearest registered ancestor's.
pub open spec fn spec_interaction_from(
    ns: Seq<UiNodeView>,
    iv: Seq<(usize, Seq<char>)>,
    idx: int,
) -> Option<Seq<char>>
    decreases ns.len() - idx,
{
    if !(0 <= idx < ns.len()) {
        Option::None
    } else {
        match assoc_inter(iv, idx as usize) {
            Option::Some(msg) => Option::Some(msg),
            Option::None => match ns[idx].parent {
                Option::Some(p) => if idx < p < ns.len() {
                    spec_interaction_from(ns, iv, p as int)
                } else {
                    Option::None
                },
                Option::None => Option::None,
            },
        }
    }
}

/// The nearest scroll container at or above `idx`.
pub open spec fn spec_scroll_anchor(ns: Seq<UiNodeView>, idx: int) -> Option<usize>
    decreases ns.len() - idx,
{
    if !(0 <= idx < ns.len()) {
        Option::None
    } else if is_scroll_container(ns[idx]) {
        Option::Some(idx as usize)
    } else {
        match ns[idx].parent {
            Option::Some(p) => if idx < p < ns.len() {
                spec_scroll_anchor(ns, p as int)
            } else {
                Option::None
            },
            Option::None => Option::None,
        }
    }
}

/// The extent of a node's content on each axis: the largest right and
/// bottom edge among the children `kids[..j]`, never below zero.
pub open spec fn spec_content_extent(ns: Seq<UiNodeView>, kids: Seq<usize>, j: int) -> (int, int)
    decreases j,
{
    if !(0 < j <= kids.len()) {
        (0, 0)
    } else {
        let rest = spec_content_extent(ns, kids, j - 1);
        if kids[j - 1] < ns.len() {
            let r = ns[kids[j - 1] as int].rect;
            let right = r.x + r.width;
            let bottom = r.y + r.height;
            (
                if right > rest.0 {
                    right
                } else {
                    rest.0
                },
                if bottom > rest.1 {
                    bottom
                } else {
                    rest.1
                },
            )
        } else {
            rest
        }
    }
}

/// One scroll axis clamped into `[0, max(0, content - container)]`.
pub open spec fn spec_clamp_axis(v: int, content: int, container: int) -> int {
    let m = if content - container > 0 {
        content - container
    } else {
        0
    };
    if v < 0 {
        0
    } else if v > m {
        m
    } else {
        v
    }
}

/// The outcome `apply_scroll` commits for a target container: each axis of
/// `old - delta`, clamped against the content extent.
pub open spec fn spec_scrolled_offset(
    ns: Seq<UiNodeView>,
    sc: Seq<(usize, i64, i64)>,
    t: usize,
    dx: i64,
    dy: i64,
) -> (int, int) {
    let old0 = match assoc_scroll(sc, t) {
        Option::Some(o) => o,
        Option::None => (0, 0),
    };
    let nd = ns[t as int];
    let ext = spec_content_extent(ns, nd.children, nd.children.len() as int);
    (
        spec_clamp_axis(old0.0 - dx, ext.0, nd.rect.width as int),
        spec_clamp_axis(old0.1 - dy, ext.1, nd.rect.height as int),
    )
}

impl Ui {
    /// The deepest node containing the point, honoring scroll offsets.
    pub fn hit_test_node(&self, x: i64, y: i64) -> (r: Option<usize>)
        requires
            self.wf(),
        ensures
            r == spec_hit_node(
                self.nodes_view(),
                self.scroll_offsets@,
                self.root as int,
                x,
                y,
                0,
                0,
            ),
            r matches Option::Some(h) ==> h < self.nodes@.len(),
    {
        proof {
            assert(off_limit(self.root as int) >= 0);
        }
        hit_test_recursive(self, self.root, x, y, 0, 0)
    }

    /// The interaction message a click at the point resolves to: the hit
    /// node's nearest registered ancestor's message, if any.
    pub fn hit_test(&self, x: i64, y: i64) -> (r: Option<String>)
        requires
            self.wf(),
        ensures
            view_str_opt(r) == (match spec_hit_node(
                self.nodes_view(),
                self.scroll_offsets@,
                self.root as int,
                x,
                y,
                0,
                0,
            ) {
                Option::Some(h) => spec_interaction_from(
                    self.nodes_view(),
                    self.inter_view(),
                    h as int,
                ),
                Option::None => Option::<Seq<char>>::None,
            }),
    {
        let ghost ns = self.nodes_view();
        let ghost iv = self.inter_view();
        let hit = match self.hit_test_node(x, y) {
            Option::Some(h) => h,
            Option::None => {
                return Option::None;
            },
        };
        let mut cur = hit;
        loop
            invariant
                self.wf(),
                ns == self.nodes_view(),
                iv == self.inter_view(),
                cur < self.nodes@.len(),
                spec_hit_node(ns, self.scroll_offsets@, self.root as int, x, y, 0, 0)
                    == Option::Some(hit),
                spec_interaction_from(ns, iv, hit as int) == spec_interaction_from(
                    ns,
                    iv,
                    cur as int,
                ),
            decreases self.nodes@.len() - cur,
        {
            match self.lookup_interaction(cur) {
                Option::Some(msg) => {
                    proof {
                        assert(spec_interaction_from(ns, iv, cur as int) == Option::Some(msg@));
                    }
                    return Option::Some(msg);
                },
                Option::None => {
                    proof {
                        assert(node_wf(ns, cur as int));
                    }
                    match self.nodes[cur].parent {
                        Option::Some(p) => {
                            cur = p;
                        },
                        Option::None => {
                            proof {
                                assert(spec_interaction_from(ns, iv, cur as int) is None);
                            }
                            return Option::None;
                        },
                    }
                },
            }
        }
    }

    /// The message registered directly on node `k`, if any.
    pub fn lookup_interaction(&self, k: usize) -> (r: Option<String>)
        ensures
            view_str_opt(r) == assoc_inter(self.inter_view(), k),
    {
        let n = self.interactions.len();
        let mut i: usize = 0;
        proof {
            assert(self.inter_view().skip(0) =~= self.inter_view());
        }
        while i < n
            invariant
                i <= n,
                n == self.interactions@.len(),
                n == self.inter_view().len(),
                assoc_inter(self.inter_view(), k) == assoc_inter(
                    self.inter_view().skip(i as int),
                    k,
                ),
            decreases n - i,
        {
            proof {
                assert(self.inter_view().skip(i as int)[0] == self.inter_view()[i as int]);
                assert(self.inter_view().skip(i as int).drop_first() =~= self.inter_view().skip(
                    i + 1 as int,
                ));
            }
            if self.interactions[i].0 == k {
                return Option::Some(self.interactions[i].1.clone());
            }
            i = i + 1;
        }
        proof {
            assert(self.inter_view().skip(n as int).len() == 0);
        }
        Option::None
    }

    /// Apply a pointer-scroll delta at a point: hit-test the point, walk
    /// to the nearest scroll container, and move its offset by the delta,
    /// clamped on each axis into `[0, max(0, content - container)]`.
    /// Reports whether a stored offset actually changed.
    pub fn handle_scroll(&mut self, x: i64, y: i64, delta_x: i64, delta_y: i64) -> (changed: bool)
        requires
            old(self).wf(),
            -COORD_LIMIT <= delta_x <= COORD_LIMIT,
            -COORD_LIMIT <= delta_y <= COORD_LIMIT,
        ensures
            final(self).wf(),
            final(self).nodes == old(self).nodes,
            final(self).root == old(self).root,
            final(self).interactions == old(self).interactions,
            ({
                let ns = old(self).nodes_view();
                let sc = old(self).scroll_offsets@;
                let target = match spec_hit_node(ns, sc, old(self).root as int, x, y, 0, 0) {
                    Option::Some(h) => spec_scroll_anchor(ns, h as int),
                    Option::None => Option::<usize>::None,
                };
                match target {
                    Option::None => final(self).scroll_offsets == old(self).scroll_offsets
                        && !changed,
                    Option::Some(t) => {
                        let nv = spec_scrolled_offset(ns, sc, t, delta_x, delta_y);
                        let old_eff = match assoc_scroll(sc, t) {
                            Option::Some(o) => o,
                            Option::None => (0, 0),
                        };
                        &&& 0 <= nv.0 && 0 <= nv.1
                        &&& changed == !(nv.0 == old_eff.0 && nv.1 == old_eff.1)
                        &&& if changed {
                            final(self).scroll_offsets@ == spec_set_scroll(
                                sc,
                                t,
                                nv.0 as i64,
                                nv.1 as i64,
                            ) && (assoc_scroll(final(self).scroll_offsets@, t) matches Option::Some(
                                o2,
                            ) && o2.0 == nv.0 && o2.1 == nv.1)
                        } else {
                            final(self).scroll_offsets == old(self).scroll_offsets
                        }
                    },
                }
            }),
    {
        let ghost ns = self.nodes_view();
        let ghost sc = self.scroll_offsets@;
        let hit = match self.hit_test_node(x, y) {
            Option::Some(h) => h,
            Option::None => {
                return false;
            },
        };
        // Walk up to the nearest scroll container.
        let mut cur = hit;
        loop
            invariant
                self.wf(),
                self.nodes_view() == ns,
                self.scroll_offsets@ == sc,
                cur < self.nodes@.len(),
                spec_hit_node(ns, sc, self.root as int, x, y, 0, 0) == Option::Some(hit),
                spec_scroll_anchor(ns, hit as int) == spec_scroll_anchor(ns, cur as int),
            ensures
                cur < self.nodes@.len(),
                self.nodes_view() == ns,
                self.scroll_offsets@ == sc,
                self.wf(),
                is_scroll_container(ns[cur as int]),
                spec_scroll_anchor(ns, hit as int) == Option::Some(cur),
            decreases self.nodes@.len() - cur,
        {
            let scrollable = match &self.nodes[cur].data {
                RenderData::Container(s) => s.overflow == Overflow::Scroll,
                _ => false,
            };
            if scrollable {
                proof {
                    assert(spec_scroll_anchor(ns, cur as int) == Option::Some(cur));
                }
                break ;
            }
            proof {
                assert(node_wf(ns, cur as int));
            }
            match self.nodes[cur].parent {
                Option::Some(p) => {
                    cur = p;
                },
                Option::None => {
                    proof {
                        assert(spec_scroll_anchor(ns, cur as int) is None);
                    }
                    return false;
                },
            }
        }
        // Current offset, shifted by the delta.
        let (osx, osy) = match self.get_scroll(cur) {
            Option::Some(o) => o,
            Option::None => (0, 0),
        };
        proof {
            lemma_assoc_scroll_bounds(ns, sc, cur);
        }
        let mut sx = osx - delta_x;
        let mut sy = osy - delta_y;
        // Clamp against the content extent.
        let nd_w = self.nodes[cur].rect.width;
        let nd_h = self.nodes[cur].rect.height;
        let nk = self.nodes[cur].children.len();
        let mut content_w: i64 = 0;
        let mut content_h: i64 = 0;
        let mut j: usize = 0;
        while j < nk
            invariant
                j <= nk,
                self.wf(),
                self.nodes_view() == ns,
                cur < self.nodes@.len(),
                nk == ns[cur as int].children.len(),
                (content_w as int, content_h as int) == spec_content_extent(
                    ns,
                    ns[cur as int].children,
                    j as int,
                ),
                0 <= content_w <= 2 * COORD_LIMIT,
                0 <= content_h <= 2 * COORD_LIMIT,
            decreases nk - j,
        {
            let kid = self.nodes[cur].children[j];
            proof {
                assert(node_wf(ns, cur as int));
                assert(ns[cur as int].children[j as int] < cur);
                assert(node_wf(ns, kid as int));
            }
            let kr = &self.nodes[kid].rect;
            let right = kr.x + kr.width;
            let bottom = kr.y + kr.height;
            if right > content_w {
                content_w = right;
            }
            if bottom > content_h {
                content_h = bottom;
            }
            j = j + 1;
        }
        proof {
            assert(node_wf(ns, cur as int));
        }
        let max_sx = if content_w - nd_w > 0 {
            content_w - nd_w
        } else {
            0
        };
        let max_sy = if content_h - nd_h > 0 {
            content_h - nd_h
        } else {
            0
        };
        if sx < 0 {
            sx = 0;
        } else if sx > max_sx {
            sx = max_sx;
        }
        if sy < 0 {
            sy = 0;
        } else if sy > max_sy {
            sy = max_sy;
        }
        if sx == osx && sy == osy {
            proof {
                lemma_assoc_scroll_bounds(ns, sc, cur);
            }
            // Re-store only when the offset moved; an unchanged offset is
            // a no-op.
            if let Option::Some(_) = self.get_scroll(cur) {
                return false;
            }
            if sx == 0 && sy == 0 {
                return false;
            }
        }
        proof {
            assert(node_wf(ns, cur as int));
            lemma_set_scroll(sc, cur, sx, sy);
            lemma_set_scroll_wf(ns, sc, cur, sx, sy);
        }
        self.set_scroll(cur, sx, sy);
        proof {
            assert(self.nodes_view() == ns);
            assert(self.inter_view() == old(self).inter_view());
            assert(scroll_wf(self.nodes_view(), self.scroll_offsets@));
            assert(self.wf());
        }
        true
    }
}

/// Whatever the delta, a scroll offset the scroll manager commits lies in
/// `[0, max(0, content - container)]` on each axis.
pub proof fn lemma_scroll_offset_clamped(
    ns: Seq<UiNodeView>,
    sc: Seq<(usize, i64, i64)>,
    t: usize,
    dx: i64,
    dy: i64,
)
    requires
        t < ns.len(),
    ensures
        ({
            let nv = spec_scrolled_offset(ns, sc, t, dx, dy);
            let ext = spec_content_extent(
                ns,
                ns[t as int].children,
                ns[t as int].children.len() as int,
            );
            let mx = if ext.0 - ns[t as int].rect.width > 0 {
                ext.0 - ns[t as int].rect.width
            } else {
                0
            };
            let my = if ext.1 - ns[t as int].rect.height > 0 {
                ext.1 - ns[t as int].rect.height
            } else {
                0
            };
            0 <= nv.0 <= mx && 0 <= nv.1 <= my
        }),
{
}

/// The node registered under an interaction id, if any: first registration
/// wins.
pub open spec fn spec_find_inter(iv: Seq<(usize, Seq<char>)>, id: Seq<char>) -> Option<usize>
    decreases iv.len(),
{
    if iv.len() == 0 {
        Option::None
    } else if iv[0].1 == id {
        Option::Some(iv[0].0)
    } else {
        spec_find_inter(iv.drop_first(), id)
    }
}

/// A found registration names one of the map's keys.
proof fn lemma_find_inter_key(iv: Seq<(usize, Seq<char>)>, id: Seq<char>)
    ensures
        spec_find_inter(iv, id) matches Option::Some(n) ==> exists|i: int|
            0 <= i < iv.len() && (#[trigger] iv[i]).0 == n,
    decreases iv.len(),
{
    if iv.len() > 0 && iv[0].1 != id {
        lemma_find_inter_key(iv.drop_first(), id);
        if spec_find_inter(iv.drop_first(), id) is Some {
            let i = choose|i: int|
                0 <= i < iv.drop_first().len() && (#[trigger] iv.drop_first()[i]).0
                    == spec_find_inter(iv.drop_first(), id)->0;
            assert(iv[i + 1] == iv.drop_first()[i]);
        }
    }
}

/// The nearest scroll container strictly above `cur`, together with the
/// start node's vertical position in that container's content space:
/// `acc` accumulates the relative offsets of every node from the start up
/// to `cur`.
pub open spec fn spec_sitv_anchor(ns: Seq<UiNodeView>, cur: int, acc: int) -> Option<(usize, int)>
    decreases ns.len() - cur,
{
    if !(0 <= cur < ns.len()) {
        Option::None
    } else {
        match ns[cur].parent {
            Option::Some(p) => if cur < p < ns.len() {
                if is_scroll_container(ns[p as int]) {
                    Option::Some((p, acc))
                } else {
                    spec_sitv_anchor(ns, p as int, acc + ns[p as int].rect.y)
                }
            } else {
                Option::None
            },
            Option::None => Option::None,
        }
    }
}

/// The vertical offset that brings a node into view inside its scroll
/// container: snap top-aligned when the node lies above the viewport,
/// bottom-aligned when below, otherwise keep the current offset.
pub open spec fn spec_sitv_new_y(
    ns: Seq<UiNodeView>,
    sc: Seq<(usize, i64, i64)>,
    anchor: usize,
    node: usize,
    node_y: int,
) -> int {
    let cy = match assoc_scroll(sc, anchor) {
        Option::Some(o) => o.1 as int,
        Option::None => 0,
    };
    let h = ns[node as int].rect.height as int;
    let ph = ns[anchor as int].rect.height as int;
    if node_y < cy {
        node_y
    } else if node_y + h > cy + ph {
        node_y + h - ph
    } else {
        cy
    }
}

/// The scroll map left behind by scrolling an interaction id into view:
/// resolve the id, walk to the nearest scroll container, and bind its
/// vertical offset to the snap position. A missing registration or a node
/// without a scroll container leaves the map as it was.
pub open spec fn spec_sitv_map(
    ns: Seq<UiNodeView>,
    iv: Seq<(usize, Seq<char>)>,
    sc: Seq<(usize, i64, i64)>,
    id: Seq<char>,
) -> Seq<(usize, i64, i64)> {
    match spec_find_inter(iv, id) {
        Option::None => sc,
        Option::Some(node) => if node < ns.len() {
            match spec_sitv_anchor(ns, node as int, ns[node as int].rect.y as int) {
                Option::None => sc,
                Option::Some((p, node_y)) => {
                    let cx = match assoc_scroll(sc, p) {
                        Option::Some(o) => o.0,
                        Option::None => 0,
                    };
                    spec_set_scroll(sc, p, cx, spec_sitv_new_y(ns, sc, p, node, node_y) as i64)
                },
            }
        } else {
            sc
        },
    }
}

impl Ui {
    /// Scroll the node registered under the given interaction id into view
    /// inside its nearest scroll container, moving only the vertical
    /// offset and only as far as needed. A missing registration or a node
    /// without a scroll container is a no-op.
    pub fn scroll_into_view(&mut self, interaction_id: &str)
        requires
            old(self).wf(),
        ensures
            final(self).wf(),
            final(self).nodes == old(self).nodes,
            final(self).root == old(self).root,
            final(self).interactions == old(self).interactions,
            final(self).scroll_offsets@ == spec_sitv_map(
                old(self).nodes_view(),
                old(self).inter_view(),
                old(self).scroll_offsets@,
                interaction_id@,
            ),
    {
        let ghost ns = self.nodes_view();
        let ghost sc = self.scroll_offsets@;
        let ghost iv = self.inter_view();
        // Resolve the interaction id to its node.
        let n = self.interactions.len();
        let mut i: usize = 0;
        proof {
            assert(iv.skip(0) =~= iv);
        }
        let mut node: usize = 0;
        let mut found = false;
        while i < n
            invariant_except_break
                i <= n,
                !found,
                n == self.interactions@.len(),
                n == iv.len(),
                iv == self.inter_view(),
                spec_find_inter(iv, interaction_id@) == spec_find_inter(
                    iv.skip(i as int),
                    interaction_id@,
                ),
            ensures
                iv == self.inter_view(),
                found ==> i < n && spec_find_inter(iv, interaction_id@) == Option::Some(node)
                    && node == iv[i as int].0,
                !found ==> spec_find_inter(iv, interaction_id@) is None,
            decreases n - i,
        {
            proof {
                assert(iv.skip(i as int)[0] == iv[i as int]);
                assert(iv.skip(i as int).drop_first() =~= iv.skip(i + 1 as int));
            }
            if crate::chars::str_eq(self.interactions[i].1.as_str(), interaction_id) {
                node = self.interactions[i].0;
                found = true;
                break ;
            }
            i = i + 1;
        }
        proof {
            if !found {
                assert(iv.skip(n as int).len() == 0);
            }
        }
        if !found {
            return ;
        }
        proof {
            lemma_find_inter_key(iv, interaction_id@);
            assert(node < self.nodes@.len());
        }
        // Walk up to the nearest scroll container, accumulating the
        // node's vertical position across intermediate ancestors.
        let mut cur = node;
        let mut acc: i64 = self.nodes[node].rect.y;
        proof {
            assert(node_wf(ns, node as int));
        }
        loop
            invariant
                self.wf(),
                self.nodes == old(self).nodes,
                self.root == old(self).root,
                self.interactions == old(self).interactions,
                self.scroll_offsets == old(self).scroll_offsets,
                ns == self.nodes_view(),
                sc == self.scroll_offsets@,
                iv == self.inter_view(),
                node < self.nodes@.len(),
                cur < self.nodes@.len(),
                -((cur + 1) * COORD_LIMIT) <= acc <= (cur + 1) * COORD_LIMIT,
                cur < MAX_NODES,
                spec_find_inter(iv, interaction_id@) == Option::Some(node),
                spec_sitv_anchor(ns, node as int, ns[node as int].rect.y as int)
                    == spec_sitv_anchor(ns, cur as int, acc as int),
            decreases self.nodes@.len() - cur,
        {
            proof {
                assert(node_wf(ns, cur as int));
            }
            let p = match self.nodes[cur].parent {
                Option::Some(p) => p,
                Option::None => {
                    return ;
                },
            };
            let scrollable = match &self.nodes[p].data {
                RenderData::Container(s) => s.overflow == Overflow::Scroll,
                _ => false,
            };
            if scrollable {
                proof {
                    assert(node_wf(ns, p as int));
                    assert(node_wf(ns, node as int));
                    lemma_assoc_scroll_bounds(ns, sc, p);
                }
                let cx = match self.get_scroll(p) {
                    Option::Some(o) => o.0,
                    Option::None => 0,
                };
                let cy = match self.get_scroll(p) {
                    Option::Some(o) => o.1,
                    Option::None => 0,
                };
                let node_h = self.nodes[node].rect.height;
                let p_h = self.nodes[p].rect.height;
                let new_y = if acc < cy {
                    acc
                } else if acc + node_h > cy + p_h {
                    acc + node_h - p_h
                } else {
                    cy
                };
                proof {
                    assert((MAX_NODES as int) * COORD_LIMIT < SCROLL_LIMIT);
                    lemma_set_scroll(sc, p, cx, new_y);
                    lemma_set_scroll_wf(ns, sc, p, cx, new_y);
                }
                self.set_scroll(p, cx, new_y);
                proof {
                    assert(self.nodes_view() == ns);
                    assert(self.inter_view() == old(self).inter_view());
                    assert(scroll_wf(self.nodes_view(), self.scroll_offsets@));
                    assert(self.wf());
                }
                return ;
            }
            proof {
                assert(node_wf(ns, p as int));
                assert(p < MAX_NODES);
            }
            cur = p;
            acc = acc + self.nodes[cur].rect.y;
        }
    }
}

/// Find the deepest node whose rectangle contains `(x, y)`, starting from
/// `idx` at the accumulated offset `(ax, ay)`; children are tested in
/// reverse order so the topmost drawn child wins.
pub fn hit_test_recursive(ui: &Ui, idx: usize, x: i64, y: i64, ax: i64, ay: i64) -> (r: Option<
    usize,
>)
    requires
        ui.wf(),
        idx < ui.nodes@.len(),
        -off_limit(idx as int) <= ax <= off_limit(idx as int),
        -off_limit(idx as int) <= ay <= off_limit(idx as int),
    ensures
        r == spec_hit_node(ui.nodes_view(), ui.scroll_offsets@, idx as int, x, y, ax as int, ay as int),
        r matches Option::Some(h) ==> h < ui.nodes@.len(),
    decreases idx,
{
    let ghost ns = ui.nodes_view();
    let ghost sc = ui.scroll_offsets@;
    proof {
        assert(node_wf(ns, idx as int));
    }
    let nd = &ui.nodes[idx];
    let left = ax + nd.rect.x;
    let top = ay + nd.rect.y;
    if !(x >= left && x <= left + nd.rect.width && y >= top && y <= top + nd.rect.height) {
        return Option::None;
    }
    let mut cax = left;
    let mut cay = top;
    let scrollable = match &nd.data {
        RenderData::Container(s) => s.overflow == Overflow::Scroll,
        _ => false,
    };
    if scrollable {
        proof {
            lemma_assoc_scroll_bounds(ns, sc, idx);
        }
        match ui.get_scroll(idx) {
            Option::Some((sx, sy)) => {
                cax = left - sx;
                cay = top - sy;
            },
            Option::None => {},
        }
    }
    let nk = nd.children.len();
    let mut j: usize = nk;
    while j > 0
        invariant
            j <= nk,
            ui.wf(),
            ns == ui.nodes_view(),
            sc == ui.scroll_offsets@,
            idx < ui.nodes@.len(),
            nk == ns[idx as int].children.len(),
            nd.children@ == ns[idx as int].children,
            spec_hit_node(ns, sc, idx as int, x, y, ax as int, ay as int) == (
            match spec_hit_kids(
                ns,
                sc,
                ns[idx as int].children,
                idx as int,
                x,
                y,
                cax as int,
                cay as int,
                nk - 1,
            ) {
                Option::Some(h) => Option::Some(h),
                Option::None => Option::Some(idx),
            }),
            spec_hit_kids(ns, sc, ns[idx as int].children, idx as int, x, y, cax as int, cay as int, nk - 1)
                == spec_hit_kids(
                ns,
                sc,
                ns[idx as int].children,
                idx as int,
                x,
                y,
                cax as int,
                cay as int,
                j - 1,
            ),
            -off_limit(idx as int) - COORD_LIMIT - SCROLL_LIMIT <= cax <= off_limit(idx as int)
                + COORD_LIMIT + SCROLL_LIMIT,
            -off_limit(idx as int) - COORD_LIMIT - SCROLL_LIMIT <= cay <= off_limit(idx as int)
                + COORD_LIMIT + SCROLL_LIMIT,
        decreases j,
    {
        let kid = nd.children[j - 1];
        proof {
            assert(node_wf(ns, idx as int));
            assert(ns[idx as int].children[j - 1] < idx);
            assert(off_limit(kid as int) >= off_limit(idx as int) + COORD_LIMIT + SCROLL_LIMIT);
        }
        match hit_test_recursive(ui, kid, x, y, cax, cay) {
            Option::Some(h) => {
                return Option::Some(h);
            },
            Option::None => {},
        }
        j = j - 1;
    }
    Option::Some(idx)
}

} // verus!
