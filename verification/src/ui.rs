use vstd::prelude::*;

use crate::chars::{chars_of, spec_words, str_eq};
use crate::css::{parse_inline_style, parse_px, spec_apply_inline, spec_parse_px};
use crate::defaults::{ElementType, get_default_style, spec_default_bundle};
use crate::geometry::Rect;
use crate::graphics::TextMeasurer;
use crate::layout::{COORD_LIMIT, Dimension, EdgeValues, LayoutStyle, spec_default_layout};
use crate::markup::{
    MarkupNode, lemma_mheights_bound, lemma_normalize_empty, mheight, mheights, normalize_text,
    spec_kept, spec_normalize,
};
use crate::style::{
    ContainerStyle, EntityView, Overflow, RenderData, StyleView, inherit_style, spec_inherit,
};

verus! {

broadcast use vstd::std_specs::vec::axiom_vec_decreases_to_view, vstd::seq::axiom_seq_index_decreases;

/// Largest number of nodes one layout tree may hold.
pub const MAX_NODES: usize = 0x1_0000;

/// Largest magnitude a stored scroll offset can take. It bounds every
/// accumulated position sum, so coordinate arithmetic over a whole
/// well-formed tree stays far inside `i64`.
pub const SCROLL_LIMIT: i64 = 0x200_0000_0000;

/// One node of the retained layout tree: its constraints for the external
/// flexbox solver, its render entity, the rectangle the solver assigned
/// (relative to its parent), and its links.
pub struct UiNode {
    pub layout_style: LayoutStyle,
    pub data: RenderData,
    pub rect: Rect,
    pub parent: Option<usize>,
    pub children: Vec<usize>,
}

/// Mathematical value of a `UiNode`.
pub ghost struct UiNodeView {
    pub layout_style: LayoutStyle,
    pub entity: EntityView,
    pub rect: Rect,
    pub parent: Option<usize>,
    pub children: Seq<usize>,
}

impl View for UiNode {
    type V = UiNodeView;

    open spec fn view(&self) -> UiNodeView {
        UiNodeView {
            layout_style: self.layout_style,
            entity: self.data@,
            rect: self.rect,
            parent: self.parent,
            children: self.children@,
        }
    }
}

/// A node rectangle relative to its parent: coordinates and extents within
/// the engine's coordinate limit, extents nonnegative.
pub open spec fn rel_rect_ok(r: Rect) -> bool {
    &&& -COORD_LIMIT <= r.x <= COORD_LIMIT
    &&& -COORD_LIMIT <= r.y <= COORD_LIMIT
    &&& 0 <= r.width <= COORD_LIMIT
    &&& 0 <= r.height <= COORD_LIMIT
}

/// Structural soundness of one node: children were created before it (so
/// indices strictly descend), each child points back at it, its own parent
/// was created after it, and its rectangle is bounded.
pub open spec fn node_wf(ns: Seq<UiNodeView>, i: int) -> bool {
    &&& forall|j: int|
        0 <= j < ns[i].children.len() ==> (#[trigger] ns[i].children[j]) < i && ns[ns[i].children[j] as int].parent
            == Option::Some(i as usize)
    &&& rel_rect_ok(ns[i].rect)
    &&& match ns[i].parent {
        Option::Some(p) => i < p < ns.len() && ns[p as int].children.contains(i as usize),
        Option::None => true,
    }
}

/// Structural soundness of a whole node arena.
pub open spec fn nodes_wf(ns: Seq<UiNodeView>) -> bool {
    forall|i: int| 0 <= i < ns.len() ==> #[trigger] node_wf(ns, i)
}

/// Whether a node is a scroll container: a plain container whose overflow
/// mode is `Scroll`.
pub open spec fn is_scroll_container(n: UiNodeView) -> bool {
    match n.entity {
        EntityView::Container(s) => s.overflow == Overflow::Scroll,
        _ => false,
    }
}

/// The offset stored for node `k`, if any: first match wins.
pub open spec fn assoc_scroll(sc: Seq<(usize, i64, i64)>, k: usize) -> Option<(i64, i64)>
    decreases sc.len(),
{
    if sc.len() == 0 {
        Option::None
    } else if sc[0].0 == k {
        Option::Some((sc[0].1, sc[0].2))
    } else {
        assoc_scroll(sc.drop_first(), k)
    }
}

/// The scroll map with node `k` bound to `(x, y)`: the existing entry is
/// replaced in place, or a new entry appended.
pub open spec fn spec_set_scroll(sc: Seq<(usize, i64, i64)>, k: usize, x: i64, y: i64) -> Seq<
    (usize, i64, i64),
>
    decreases sc.len(),
{
    if sc.len() == 0 {
        seq![(k, x, y)]
    } else if sc[0].0 == k {
        seq![(k, x, y)] + sc.drop_first()
    } else {
        seq![sc[0]] + spec_set_scroll(sc.drop_first(), k, x, y)
    }
}

/// Soundness of a scroll map against an arena: every key names a scroll
/// container, keys are unique, offsets are bounded.
pub open spec fn scroll_wf(ns: Seq<UiNodeView>, sc: Seq<(usize, i64, i64)>) -> bool {
    &&& forall|i: int|
        0 <= i < sc.len() ==> (#[trigger] sc[i]).0 < ns.len() && is_scroll_container(
            ns[sc[i].0 as int],
        ) && -SCROLL_LIMIT <= sc[i].1 <= SCROLL_LIMIT && -SCROLL_LIMIT <= sc[i].2 <= SCROLL_LIMIT
    &&& forall|i: int, j: int| 0 <= i < j < sc.len() ==> (#[trigger] sc[i]).0 != (#[trigger] sc[j]).0
}

/// The retained tree: the node arena in creation order with the root last,
/// the interaction registrations, and the scroll offsets that outlive
/// rebuilds.
pub struct Ui {
    pub nodes: Vec<UiNode>,
    pub root: usize,
    pub interactions: Vec<(usize, String)>,
    pub scroll_offsets: Vec<(usize, i64, i64)>,
}

impl Ui {
    /// The arena as a sequence of node values.
    pub open spec fn nodes_view(&self) -> Seq<UiNodeView> {
        self.nodes@.map_values(|n: UiNode| n@)
    }

    /// The interaction registrations as pairs of node index and message.
    pub open spec fn inter_view(&self) -> Seq<(usize, Seq<char>)> {
        self.interactions@.map_values(|e: (usize, String)| (e.0, e.1@))
    }

    /// Well-formedness of the whole tree.
    pub open spec fn wf(&self) -> bool {
        &&& 0 < self.nodes@.len() <= MAX_NODES
        &&& self.root == self.nodes@.len() - 1
        &&& self.nodes_view()[self.root as int].parent is None
        &&& nodes_wf(self.nodes_view())
        &&& scroll_wf(self.nodes_view(), self.scroll_offsets@)
        &&& forall|i: int|
            0 <= i < self.inter_view().len() ==> (#[trigger] self.inter_view()[i]).0
                < self.nodes@.len()
    }

    /// The stored scroll offset of node `k`, if one exists.
    pub fn get_scroll(&self, k: usize) -> (r: Option<(i64, i64)>)
        ensures
            r == assoc_scroll(self.scroll_offsets@, k),
    {
        let n = self.scroll_offsets.len();
        let mut i: usize = 0;
        proof {
            assert(self.scroll_offsets@.skip(0) =~= self.scroll_offsets@);
        }
        while i < n
            invariant
                i <= n,
                n == self.scroll_offsets@.len(),
                assoc_scroll(self.scroll_offsets@, k) == assoc_scroll(
                    self.scroll_offsets@.skip(i as int),
                    k,
                ),
            decreases n - i,
        {
            let e = self.scroll_offsets[i];
            proof {
                assert(self.scroll_offsets@.skip(i as int)[0] == e);
                assert(self.scroll_offsets@.skip(i as int).drop_first() =~= self.scroll_offsets@
                    .skip(i + 1 as int));
            }
            if e.0 == k {
                return Option::Some((e.1, e.2));
            }
            i = i + 1;
        }
        proof {
            assert(self.scroll_offsets@.skip(n as int).len() == 0);
        }
        Option::None
    }

    /// Bind node `k` to offset `(x, y)` in the scroll map.
    pub fn set_scroll(&mut self, k: usize, x: i64, y: i64)
        ensures
            final(self).scroll_offsets@ == spec_set_scroll(old(self).scroll_offsets@, k, x, y),
            final(self).nodes == old(self).nodes,
            final(self).root == old(self).root,
            final(self).interactions == old(self).interactions,
    {
        let n = self.scroll_offsets.len();
        let mut i: usize = 0;
        proof {
            assert(self.scroll_offsets@.skip(0) =~= self.scroll_offsets@);
            assert(self.scroll_offsets@.take(0) + spec_set_scroll(
                self.scroll_offsets@.skip(0),
                k,
                x,
                y,
            ) =~= spec_set_scroll(self.scroll_offsets@, k, x, y));
        }
        while i < n
            invariant
                i <= n,
                n == self.scroll_offsets@.len(),
                self.nodes == old(self).nodes,
                self.root == old(self).root,
                self.interactions == old(self).interactions,
                self.scroll_offsets == old(self).scroll_offsets,
                forall|j: int| 0 <= j < i ==> (#[trigger] self.scroll_offsets@[j]).0 != k,
                spec_set_scroll(self.scroll_offsets@, k, x, y) =~= self.scroll_offsets@.take(
                    i as int,
                ) + spec_set_scroll(self.scroll_offsets@.skip(i as int), k, x, y),
            decreases n - i,
        {
            let e = self.scroll_offsets[i];
            proof {
                let sc = self.scroll_offsets@;
                assert(sc.skip(i as int)[0] == e);
                assert(sc.skip(i as int).drop_first() =~= sc.skip(i + 1 as int));
            }
            if e.0 == k {
                let ghost before = self.scroll_offsets@;
                self.scroll_offsets.set(i, (k, x, y));
                proof {
                    assert(seq![(k, x, y)] + before.skip(i as int).drop_first() =~= self
                        .scroll_offsets@.skip(i as int));
                    assert(before.take(i as int) =~= self.scroll_offsets@.take(i as int));
                    assert(self.scroll_offsets@.take(i as int) + self.scroll_offsets@.skip(
                        i as int,
                    ) =~= self.scroll_offsets@);
                }
                return ;
            }
            proof {
                let sc = self.scroll_offsets@;
                assert(sc.take(i + 1 as int) =~= sc.take(i as int) + seq![sc[i as int]]);
            }
            i = i + 1;
        }
        let ghost before = self.scroll_offsets@;
        self.scroll_offsets.push((k, x, y));
        proof {
            assert(spec_set_scroll(before.skip(n as int), k, x, y) =~= seq![(k, x, y)]);
            assert(before.take(n as int) =~= before);
            assert(self.scroll_offsets@ =~= before + seq![(k, x, y)]);
        }
    }
}

/// `spec_set_scroll` updates exactly the requested key.
pub proof fn lemma_set_scroll(sc: Seq<(usize, i64, i64)>, k: usize, x: i64, y: i64)
    ensures
        assoc_scroll(spec_set_scroll(sc, k, x, y), k) == Option::Some((x, y)),
        forall|q: usize|
            q != k ==> #[trigger] assoc_scroll(spec_set_scroll(sc, k, x, y), q) == assoc_scroll(
                sc,
                q,
            ),
    decreases sc.len(),
{
    let out = spec_set_scroll(sc, k, x, y);
    if sc.len() == 0 {
        assert(out[0] == (k, x, y));
        assert(out.drop_first() =~= sc);
        assert forall|q: usize| q != k implies #[trigger] assoc_scroll(out, q) == assoc_scroll(
            sc,
            q,
        ) by {
            assert(assoc_scroll(out, q) == assoc_scroll(out.drop_first(), q));
        }
    } else if sc[0].0 == k {
        assert(out[0] == (k, x, y));
        assert(out.drop_first() =~= sc.drop_first());
        assert forall|q: usize| q != k implies #[trigger] assoc_scroll(out, q) == assoc_scroll(
            sc,
            q,
        ) by {
            assert(assoc_scroll(out, q) == assoc_scroll(out.drop_first(), q));
            assert(assoc_scroll(sc, q) == assoc_scroll(sc.drop_first(), q));
        }
    } else {
        lemma_set_scroll(sc.drop_first(), k, x, y);
        assert(out[0] == sc[0]);
        assert(out.drop_first() =~= spec_set_scroll(sc.drop_first(), k, x, y));
        assert(assoc_scroll(out, k) == assoc_scroll(out.drop_first(), k));
        assert forall|q: usize| q != k implies #[trigger] assoc_scroll(out, q) == assoc_scroll(
            sc,
            q,
        ) by {
            if q == sc[0].0 {
                assert(assoc_scroll(out, q) == Option::Some((sc[0].1, sc[0].2)));
                assert(assoc_scroll(sc, q) == Option::Some((sc[0].1, sc[0].2)));
            } else {
                assert(assoc_scroll(out, q) == assoc_scroll(out.drop_first(), q));
                assert(assoc_scroll(sc, q) == assoc_scroll(sc.drop_first(), q));
            }
        }
    }
}

/// `spec_set_scroll` keeps a scroll map well formed when the new entry
/// names a bounded scroll container.
pub proof fn lemma_set_scroll_wf(
    ns: Seq<UiNodeView>,
    sc: Seq<(usize, i64, i64)>,
    k: usize,
    x: i64,
    y: i64,
)
    requires
        scroll_wf(ns, sc),
        k < ns.len(),
        is_scroll_container(ns[k as int]),
        -SCROLL_LIMIT <= x <= SCROLL_LIMIT,
        -SCROLL_LIMIT <= y <= SCROLL_LIMIT,
    ensures
        scroll_wf(ns, spec_set_scroll(sc, k, x, y)),
    decreases sc.len(),
{
    let out = spec_set_scroll(sc, k, x, y);
    if sc.len() == 0 {
    } else if sc[0].0 == k {
        assert(forall|i: int|
            1 <= i < out.len() ==> out[i] == #[trigger] sc.drop_first()[i - 1] && sc.drop_first()[i
                - 1] == sc[i]);
    } else {
        assert(scroll_wf(ns, sc.drop_first()));
        lemma_set_scroll_wf(ns, sc.drop_first(), k, x, y);
        let tail = spec_set_scroll(sc.drop_first(), k, x, y);
        assert(forall|i: int| 1 <= i < out.len() ==> out[i] == #[trigger] tail[i - 1]);
        assert forall|i: int, j: int| 0 <= i < j < out.len() implies (#[trigger] out[i]).0 != (
        #[trigger] out[j]).0 by {
            if i == 0 {
                if tail[j - 1].0 == sc[0].0 {
                    lemma_set_scroll_key_source(sc.drop_first(), k, x, y, j - 1);
                }
            }
        }
    }
}

/// A well-formed scroll map only holds bounded offsets for scroll
/// containers.
pub proof fn lemma_assoc_scroll_bounds(ns: Seq<UiNodeView>, sc: Seq<(usize, i64, i64)>, k: usize)
    requires
        scroll_wf(ns, sc),
    ensures
        assoc_scroll(sc, k) matches Option::Some(o) ==> -SCROLL_LIMIT <= o.0 <= SCROLL_LIMIT
            && -SCROLL_LIMIT <= o.1 <= SCROLL_LIMIT && k < ns.len() && is_scroll_container(
            ns[k as int],
        ),
    decreases sc.len(),
{
    if sc.len() > 0 && sc[0].0 != k {
        assert(scroll_wf(ns, sc.drop_first())) by {
            assert(forall|i: int|
                0 <= i < sc.drop_first().len() ==> sc.drop_first()[i] == #[trigger] sc[i + 1]);
        }
        lemma_assoc_scroll_bounds(ns, sc.drop_first(), k);
    }
}

/// The message registered for node `k`, if any: first match wins.
pub open spec fn assoc_inter(iv: Seq<(usize, Seq<char>)>, k: usize) -> Option<Seq<char>>
    decreases iv.len(),
{
    if iv.len() == 0 {
        Option::None
    } else if iv[0].0 == k {
        Option::Some(iv[0].1)
    } else {
        assoc_inter(iv.drop_first(), k)
    }
}

/// A map whose keys all differ from `k` holds nothing for `k`.
pub proof fn lemma_assoc_inter_none(iv: Seq<(usize, Seq<char>)>, k: usize)
    requires
        forall|i: int| 0 <= i < iv.len() ==> (#[trigger] iv[i]).0 != k,
    ensures
        assoc_inter(iv, k) is None,
    decreases iv.len(),
{
    if iv.len() > 0 {
        lemma_assoc_inter_none(iv.drop_first(), k);
    }
}

/// Appending an entry for a fresh key makes it the key's binding.
pub proof fn lemma_assoc_inter_push(iv: Seq<(usize, Seq<char>)>, k: usize, msg: Seq<char>)
    requires
        forall|i: int| 0 <= i < iv.len() ==> (#[trigger] iv[i]).0 != k,
    ensures
        assoc_inter(iv.push((k, msg)), k) == Option::Some(msg),
    decreases iv.len(),
{
    if iv.len() == 0 {
        assert(iv.push((k, msg))[0] == (k, msg));
    } else {
        assert(iv.push((k, msg))[0] == iv[0]);
        assert(iv.push((k, msg)).drop_first() =~= iv.drop_first().push((k, msg)));
        lemma_assoc_inter_push(iv.drop_first(), k, msg);
    }
}

/// Extending a map with entries whose keys lie at or above `bound` does
/// not change lookups below `bound`.
pub proof fn lemma_assoc_inter_extend(
    iv1: Seq<(usize, Seq<char>)>,
    iv2: Seq<(usize, Seq<char>)>,
    k: usize,
    bound: nat,
)
    requires
        iv1.len() <= iv2.len(),
        forall|i: int| 0 <= i < iv1.len() ==> iv2[i] == iv1[i],
        forall|i: int| iv1.len() <= i < iv2.len() ==> (#[trigger] iv2[i]).0 >= bound,
        k < bound,
    ensures
        assoc_inter(iv2, k) == assoc_inter(iv1, k),
    decreases iv1.len(),
{
    if iv1.len() == 0 {
        lemma_assoc_inter_none(iv2, k);
    } else {
        assert(iv2[0] == iv1[0]);
        if iv1[0].0 != k {
            assert(forall|i: int|
                0 <= i < iv1.drop_first().len() ==> #[trigger] iv2.drop_first()[i]
                    == iv1.drop_first()[i]);
            assert(forall|i: int|
                iv1.drop_first().len() <= i < iv2.drop_first().len() ==> (
                #[trigger] iv2.drop_first()[i]).0 >= bound);
            lemma_assoc_inter_extend(iv1.drop_first(), iv2.drop_first(), k, bound);
        }
    }
}

/// Whether two nodes agree on everything the builder determines: layout
/// constraints, entity, and child list. Parent links and solver rectangles
/// are set later and may differ.
pub open spec fn same_core(a: UiNodeView, b: UiNodeView) -> bool {
    &&& a.layout_style == b.layout_style
    &&& a.entity == b.entity
    &&& a.children == b.children
}

/// The running state of one element's attribute resolution.
pub ghost struct BuildState {
    pub layout_style: LayoutStyle,
    pub style: StyleView,
    pub element_type: ElementType,
    pub slider_value: u32,
    pub progress_value: i64,
    pub progress_max: i64,
    pub checked: bool,
    pub interaction: Option<Seq<char>>,
    pub image_src: Seq<char>,
    pub canvas_id: Seq<char>,
}

/// The effect of one attribute on an element under construction.
pub open spec fn spec_apply_attr(
    st: BuildState,
    tag: Seq<char>,
    name: Seq<char>,
    value: Seq<char>,
) -> BuildState {
    if name == "id"@ {
        BuildState { canvas_id: value, ..st }
    } else if name == "style"@ {
        let r = crate::css::spec_apply_inline(st.style, st.layout_style, value);
        BuildState { style: r.0, layout_style: r.1, ..st }
    } else if name == "type"@ && tag == "input"@ {
        if value == "checkbox"@ {
            BuildState {
                element_type: ElementType::Checkbox,
                layout_style: LayoutStyle {
                    width: Dimension::Px(20),
                    height: Dimension::Px(20),
                    margin: EdgeValues { left: 5, right: 5, top: 0, bottom: 0 },
                    ..st.layout_style
                },
                ..st
            }
        } else if value == "range"@ {
            BuildState {
                element_type: ElementType::Slider,
                layout_style: LayoutStyle {
                    width: Dimension::Px(100),
                    height: Dimension::Px(20),
                    ..st.layout_style
                },
                ..st
            }
        } else {
            st
        }
    } else if name == "value"@ {
        match crate::css::spec_parse_mille(value) {
            Option::Some(mv) => BuildState {
                slider_value: (if mv < 0 {
                    0
                } else if mv > 1000 {
                    1000
                } else {
                    mv
                }) as u32,
                progress_value: mv,
                ..st
            },
            Option::None => st,
        }
    } else if name == "max"@ {
        match crate::css::spec_parse_mille(value) {
            Option::Some(mv) => BuildState { progress_max: mv, ..st },
            Option::None => st,
        }
    } else if name == "checked"@ {
        BuildState { checked: true, ..st }
    } else if name == "width"@ {
        match spec_parse_px(value) {
            Option::Some(p) => BuildState {
                layout_style: LayoutStyle { width: Dimension::Px(p), ..st.layout_style },
                ..st
            },
            Option::None => st,
        }
    } else if name == "height"@ {
        match spec_parse_px(value) {
            Option::Some(p) => BuildState {
                layout_style: LayoutStyle { height: Dimension::Px(p), ..st.layout_style },
                ..st
            },
            Option::None => st,
        }
    } else if name == "src"@ {
        BuildState { image_src: value, ..st }
    } else if name == "data-on-click"@ {
        BuildState { interaction: Option::Some(value), ..st }
    } else {
        st
    }
}

/// An element's attributes applied in source order, from `i` on.
pub open spec fn spec_apply_attrs(
    st: BuildState,
    tag: Seq<char>,
    attrs: Seq<(String, String)>,
    i: int,
) -> BuildState
    decreases attrs.len() - i,
{
    if 0 <= i < attrs.len() {
        spec_apply_attrs(spec_apply_attr(st, tag, attrs[i].0@, attrs[i].1@), tag, attrs, i + 1)
    } else {
        st
    }
}

/// The fully resolved state of an element: inherit from the parent, apply
/// the tag defaults, then the attributes in order.
pub open spec fn spec_element_state(
    tag: Seq<char>,
    attrs: Seq<(String, String)>,
    parent: StyleView,
) -> BuildState {
    let b = spec_default_bundle(tag, spec_inherit(parent));
    spec_apply_attrs(
        BuildState {
            layout_style: b.0,
            style: b.1,
            element_type: b.2,
            slider_value: 0,
            progress_value: 0,
            progress_max: 1000,
            checked: false,
            interaction: Option::None,
            image_src: Seq::empty(),
            canvas_id: Seq::empty(),
        },
        tag,
        attrs,
        0,
    )
}

/// The entity a resolved element state denotes.
pub open spec fn spec_entity(st: BuildState) -> EntityView {
    match st.element_type {
        ElementType::Container => EntityView::Container(st.style),
        ElementType::Image => EntityView::Image(st.image_src, st.style),
        ElementType::Checkbox => EntityView::Checkbox(st.checked, st.style),
        ElementType::Slider => EntityView::Slider(st.slider_value, st.style),
        ElementType::Progress => EntityView::Progress(st.progress_value, st.progress_max, st.style),
        ElementType::Canvas => EntityView::Canvas(st.canvas_id, st.style),
    }
}

/// Box paint never leaks from parent to child: two parents that agree on
/// the inherited fields (text color, font size, weight) resolve any
/// element to the very same state, whatever backgrounds, borders, or
/// overflow modes the parents carry.
pub proof fn lemma_box_paint_never_inherited(
    p1: StyleView,
    p2: StyleView,
    tag: Seq<char>,
    attrs: Seq<(String, String)>,
)
    requires
        p1.color == p2.color,
        p1.font_size == p2.font_size,
        p1.weight == p2.weight,
    ensures
        spec_element_state(tag, attrs, p1) == spec_element_state(tag, attrs, p2),
{
    assert(spec_inherit(p1) == spec_inherit(p2));
}

/// An element without attributes carries exactly its tag's default paint
/// over the reset base: its box-paint state comes from the tag alone,
/// never from the parent.
pub proof fn lemma_attrless_style_is_tag_default(parent: StyleView, tag: Seq<char>)
    ensures
        spec_element_state(tag, Seq::empty(), parent).style == spec_default_bundle(
            tag,
            spec_inherit(parent),
        ).1,
        spec_element_state(tag, Seq::empty(), parent).layout_style == spec_default_bundle(
            tag,
            spec_inherit(parent),
        ).0,
{
}

/// Whether an element kind is a leaf: its markup children are never
/// recursed into.
pub open spec fn is_leaf_type(et: ElementType) -> bool {
    et != ElementType::Container
}

/// How many arena nodes markup node `m` creates under the given parent
/// style: one for itself (none for a discarded text run), plus one per
/// node of every kept child subtree when its resolved kind takes children.
pub open spec fn built_count(m: MarkupNode, parent: StyleView) -> nat
    decreases m, 1int, 0int,
{
    match m {
        MarkupNode::Text(t) => if spec_words(t@).len() > 0 {
            1nat
        } else {
            0nat
        },
        MarkupNode::Element { tag, attrs, children } => {
            let st = spec_element_state(tag@, attrs@, parent);
            if is_leaf_type(st.element_type) {
                1nat
            } else {
                (1 + forest_count(children@, st.style, children@.len() as int)) as nat
            }
        },
    }
}

/// How many arena nodes the first `mi` markup children create together.
pub open spec fn forest_count(ms: Seq<MarkupNode>, inh: StyleView, mi: int) -> nat
    decreases ms, 0int, mi,
{
    if 0 < mi <= ms.len() {
        (forest_count(ms, inh, mi - 1) + built_count(ms[mi - 1], inh)) as nat
    } else {
        0nat
    }
}

/// Counting more children never counts fewer nodes.
pub proof fn lemma_forest_count_mono(ms: Seq<MarkupNode>, inh: StyleView, a: int, b: int)
    requires
        0 <= a <= b <= ms.len(),
    ensures
        forest_count(ms, inh, a) <= forest_count(ms, inh, b),
    decreases b,
{
    if a < b {
        lemma_forest_count_mono(ms, inh, a, b - 1);
    }
}

/// Node `idx` of the arena is exactly what markup node `m` dictates under
/// the given parent style: the styles follow the cascade, the entity has
/// the resolved kind and values, the interaction registration matches, and
/// the children correspond one-to-one to the kept markup children. Text
/// leaves carry their normalized text and a measured size.
pub open spec fn node_built(
    ns: Seq<UiNodeView>,
    iv: Seq<(usize, Seq<char>)>,
    idx: int,
    m: MarkupNode,
    parent: StyleView,
) -> bool
    decreases m, 1int, 0int,
{
    0 <= idx < ns.len() && match m {
        MarkupNode::Text(t) => {
            &&& ns[idx].entity == EntityView::Text(spec_normalize(t@), spec_inherit(parent))
            &&& ns[idx].children.len() == 0
            &&& assoc_inter(iv, idx as usize) is None
            &&& (ns[idx].layout_style.width matches Dimension::Px(w) && 0 <= w <= COORD_LIMIT)
            &&& (ns[idx].layout_style.height matches Dimension::Px(h) && 0 <= h <= COORD_LIMIT)
            &&& ns[idx].layout_style == (LayoutStyle {
                width: ns[idx].layout_style.width,
                height: ns[idx].layout_style.height,
                ..spec_default_layout()
            })
        },
        MarkupNode::Element { tag, attrs, children } => {
            let st = spec_element_state(tag@, attrs@, parent);
            &&& ns[idx].layout_style == st.layout_style
            &&& ns[idx].entity == spec_entity(st)
            &&& assoc_inter(iv, idx as usize) == st.interaction
            &&& if is_leaf_type(st.element_type) {
                ns[idx].children.len() == 0
            } else {
                children_built(
                    ns,
                    iv,
                    ns[idx].children,
                    children@,
                    children@.len() as int,
                    ns[idx].children.len() as int,
                    st.style,
                    idx - forest_count(children@, st.style, children@.len() as int),
                )
            }
        },
    }
}

/// The first `mi` markup children correspond to the first `ki` arena
/// children: discarded text runs produce no node, every kept child is
/// built in order.
pub open spec fn children_built(
    ns: Seq<UiNodeView>,
    iv: Seq<(usize, Seq<char>)>,
    kids: Seq<usize>,
    ms: Seq<MarkupNode>,
    mi: int,
    ki: int,
    inh: StyleView,
    base: int,
) -> bool
    decreases ms, 0int, mi,
{
    if mi <= 0 {
        mi == 0 && ki == 0
    } else if mi > ms.len() {
        false
    } else if !spec_kept(ms[mi - 1]) {
        children_built(ns, iv, kids, ms, mi - 1, ki, inh, base)
    } else {
        &&& 0 < ki <= kids.len()
        // The node-creation order is deterministic: the child's handle is
        // fixed by the sizes of the subtrees built before it.
        &&& kids[ki - 1] as int == base + forest_count(ms, inh, mi) - 1
        &&& node_built(ns, iv, kids[ki - 1] as int, ms[mi - 1], inh)
        &&& children_built(ns, iv, kids, ms, mi - 1, ki - 1, inh, base)
    }
}

/// Two arenas satisfying `node_built` for the same markup agree on
/// everything the builder determines, node by node: handles, entities,
/// child lists, interaction registrations, and layout constraints on every
/// element; only a text leaf's measured size may differ, since it comes
/// from the text measurer (which the design requires to be deterministic).
pub open spec fn subtree_same(
    ns1: Seq<UiNodeView>,
    iv1: Seq<(usize, Seq<char>)>,
    ns2: Seq<UiNodeView>,
    iv2: Seq<(usize, Seq<char>)>,
    idx: int,
    m: MarkupNode,
    parent: StyleView,
) -> bool
    decreases m, 1int, 0int,
{
    &&& 0 <= idx < ns1.len()
    &&& idx < ns2.len()
    &&& ns1[idx].entity == ns2[idx].entity
    &&& ns1[idx].children == ns2[idx].children
    &&& (m matches MarkupNode::Element { .. } ==> ns1[idx].layout_style == ns2[idx].layout_style)
    &&& assoc_inter(iv1, idx as usize) == assoc_inter(iv2, idx as usize)
    &&& match m {
        MarkupNode::Text(_) => true,
        MarkupNode::Element { tag, attrs, children } => {
            let st = spec_element_state(tag@, attrs@, parent);
            is_leaf_type(st.element_type) || forest_same(
                ns1,
                iv1,
                ns2,
                iv2,
                ns1[idx].children,
                children@,
                children@.len() as int,
                ns1[idx].children.len() as int,
                st.style,
            )
        },
    }
}

/// The agreement of `subtree_same`, child by kept child.
pub open spec fn forest_same(
    ns1: Seq<UiNodeView>,
    iv1: Seq<(usize, Seq<char>)>,
    ns2: Seq<UiNodeView>,
    iv2: Seq<(usize, Seq<char>)>,
    kids: Seq<usize>,
    ms: Seq<MarkupNode>,
    mi: int,
    ki: int,
    inh: StyleView,
) -> bool
    decreases ms, 0int, mi,
{
    if !(0 < mi <= ms.len()) {
        true
    } else if !spec_kept(ms[mi - 1]) {
        forest_same(ns1, iv1, ns2, iv2, kids, ms, mi - 1, ki, inh)
    } else {
        &&& (0 < ki <= kids.len() ==> subtree_same(
            ns1,
            iv1,
            ns2,
            iv2,
            kids[ki - 1] as int,
            ms[mi - 1],
            inh,
        ))
        &&& forest_same(ns1, iv1, ns2, iv2, kids, ms, mi - 1, ki - 1, inh)
    }
}

/// Building is deterministic: any two arenas built for the same markup
/// under the same parent style coincide on the whole subtree. Scroll
/// offsets re-applied by handle after a rebuild from identical markup
/// therefore land on the same nodes.
pub proof fn lemma_build_deterministic(
    ns1: Seq<UiNodeView>,
    iv1: Seq<(usize, Seq<char>)>,
    ns2: Seq<UiNodeView>,
    iv2: Seq<(usize, Seq<char>)>,
    idx: int,
    m: MarkupNode,
    parent: StyleView,
)
    requires
        node_built(ns1, iv1, idx, m, parent),
        node_built(ns2, iv2, idx, m, parent),
    ensures
        subtree_same(ns1, iv1, ns2, iv2, idx, m, parent),
    decreases m, 1int, 0int,
{
    match m {
        MarkupNode::Text(_) => {
            assert(ns1[idx].children =~= ns2[idx].children);
        },
        MarkupNode::Element { tag, attrs, children } => {
            let st = spec_element_state(tag@, attrs@, parent);
            if !is_leaf_type(st.element_type) {
                lemma_forest_deterministic(
                    ns1,
                    iv1,
                    ns2,
                    iv2,
                    ns1[idx].children,
                    ns2[idx].children,
                    children@,
                    children@.len() as int,
                    ns1[idx].children.len() as int,
                    ns2[idx].children.len() as int,
                    st.style,
                    idx - forest_count(children@, st.style, children@.len() as int),
                );
                assert(ns1[idx].children =~= ns2[idx].children);
            } else {
                assert(ns1[idx].children =~= ns2[idx].children);
            }
        },
    }
}

/// Two child lists pinned by the same creation order coincide, and their
/// subtrees agree.
proof fn lemma_forest_deterministic(
    ns1: Seq<UiNodeView>,
    iv1: Seq<(usize, Seq<char>)>,
    ns2: Seq<UiNodeView>,
    iv2: Seq<(usize, Seq<char>)>,
    kids1: Seq<usize>,
    kids2: Seq<usize>,
    ms: Seq<MarkupNode>,
    mi: int,
    ki1: int,
    ki2: int,
    inh: StyleView,
    base: int,
)
    requires
        children_built(ns1, iv1, kids1, ms, mi, ki1, inh, base),
        children_built(ns2, iv2, kids2, ms, mi, ki2, inh, base),
    ensures
        ki1 == ki2,
        forall|t: int| 0 <= t < ki1 ==> kids1[t] == kids2[t],
        forest_same(ns1, iv1, ns2, iv2, kids1, ms, mi, ki1, inh),
    decreases ms, 0int, mi,
{
    if mi <= 0 {
    } else if mi > ms.len() {
    } else if !spec_kept(ms[mi - 1]) {
        lemma_forest_deterministic(
            ns1,
            iv1,
            ns2,
            iv2,
            kids1,
            kids2,
            ms,
            mi - 1,
            ki1,
            ki2,
            inh,
            base,
        );
    } else {
        lemma_forest_deterministic(
            ns1,
            iv1,
            ns2,
            iv2,
            kids1,
            kids2,
            ms,
            mi - 1,
            ki1 - 1,
            ki2 - 1,
            inh,
            base,
        );
        assert(kids1[ki1 - 1] == kids2[ki2 - 1]);
        lemma_build_deterministic(ns1, iv1, ns2, iv2, kids1[ki1 - 1] as int, ms[mi - 1], inh);
        assert forall|t: int| 0 <= t < ki1 implies kids1[t] == kids2[t] by {
            if t < ki1 - 1 {
            }
        }
    }
}

/// `node_built` survives arena growth, later parent or rectangle updates,
/// and interaction entries for newer nodes.
pub proof fn lemma_node_built_extend(
    ns1: Seq<UiNodeView>,
    iv1: Seq<(usize, Seq<char>)>,
    ns2: Seq<UiNodeView>,
    iv2: Seq<(usize, Seq<char>)>,
    idx: int,
    m: MarkupNode,
    parent: StyleView,
)
    requires
        node_built(ns1, iv1, idx, m, parent),
        ns1.len() <= ns2.len(),
        forall|i: int| 0 <= i < ns1.len() ==> same_core(#[trigger] ns2[i], ns1[i]),
        iv1.len() <= iv2.len(),
        forall|i: int| 0 <= i < iv1.len() ==> iv2[i] == iv1[i],
        forall|i: int| iv1.len() <= i < iv2.len() ==> (#[trigger] iv2[i]).0 >= ns1.len(),
    ensures
        node_built(ns2, iv2, idx, m, parent),
    decreases m, 1int, 0int,
{
    match m {
        MarkupNode::Text(_) => {
            assert(same_core(ns2[idx], ns1[idx]));
            lemma_assoc_inter_extend(iv1, iv2, idx as usize, ns1.len());
        },
        MarkupNode::Element { tag, attrs, children } => {
            assert(same_core(ns2[idx], ns1[idx]));
            lemma_assoc_inter_extend(iv1, iv2, idx as usize, ns1.len());
            let st = spec_element_state(tag@, attrs@, parent);
            if !is_leaf_type(st.element_type) {
                lemma_children_built_extend(
                    ns1,
                    iv1,
                    ns2,
                    iv2,
                    ns1[idx].children,
                    children@,
                    children@.len() as int,
                    ns1[idx].children.len() as int,
                    st.style,
                    idx - forest_count(children@, st.style, children@.len() as int),
                );
            }
        },
    }
}

/// `children_built` survives the same extensions.
pub proof fn lemma_children_built_extend(
    ns1: Seq<UiNodeView>,
    iv1: Seq<(usize, Seq<char>)>,
    ns2: Seq<UiNodeView>,
    iv2: Seq<(usize, Seq<char>)>,
    kids: Seq<usize>,
    ms: Seq<MarkupNode>,
    mi: int,
    ki: int,
    inh: StyleView,
    base: int,
)
    requires
        children_built(ns1, iv1, kids, ms, mi, ki, inh, base),
        ns1.len() <= ns2.len(),
        forall|i: int| 0 <= i < ns1.len() ==> same_core(#[trigger] ns2[i], ns1[i]),
        iv1.len() <= iv2.len(),
        forall|i: int| 0 <= i < iv1.len() ==> iv2[i] == iv1[i],
        forall|i: int| iv1.len() <= i < iv2.len() ==> (#[trigger] iv2[i]).0 >= ns1.len(),
    ensures
        children_built(ns2, iv2, kids, ms, mi, ki, inh, base),
    decreases ms, 0int, mi,
{
    if mi <= 0 {
    } else if mi > ms.len() {
    } else if !spec_kept(ms[mi - 1]) {
        lemma_children_built_extend(ns1, iv1, ns2, iv2, kids, ms, mi - 1, ki, inh, base);
    } else {
        lemma_node_built_extend(ns1, iv1, ns2, iv2, kids[ki - 1] as int, ms[mi - 1], inh);
        lemma_children_built_extend(ns1, iv1, ns2, iv2, kids, ms, mi - 1, ki - 1, inh, base);
    }
}

/// The node views of an arena vector.
pub open spec fn nv(s: Seq<UiNode>) -> Seq<UiNodeView> {
    s.map_values(|n: UiNode| n@)
}

/// The interaction views of a registration vector.
pub open spec fn ivs(s: Seq<(usize, String)>) -> Seq<(usize, Seq<char>)> {
    s.map_values(|e: (usize, String)| (e.0, e.1@))
}

/// The view of an optional owned message.
pub open spec fn view_str_opt(o: Option<String>) -> Option<Seq<char>> {
    match o {
        Option::Some(s) => Option::Some(s@),
        Option::None => Option::None,
    }
}

/// Interaction keys strictly increase and all lie below `bound`.
pub open spec fn inter_keys_ok(iv: Seq<(usize, Seq<char>)>, bound: nat) -> bool {
    &&& forall|i: int, j: int| 0 <= i < j < iv.len() ==> (#[trigger] iv[i]).0 < (#[trigger] iv[j]).0
    &&& forall|i: int| 0 <= i < iv.len() ==> (#[trigger] iv[i]).0 < bound
}

/// The single fatal failure of tree construction: the arena cannot take
/// another node.
#[derive(Clone, Copy, Debug, PartialEq, Eq, Structural)]
pub enum BuildError {
    /// The tree needs more nodes than the arena can hold.
    TooManyNodes,
    /// The document root is a text run that normalization discards, so
    /// there is no tree to build.
    EmptyDocument,
}

/// The layout constraints a measured text run receives: the measured
/// width and height, clamped into the coordinate limit, as fixed pixel
/// sizes on an otherwise untouched record. The measurement is the
/// authoritative input to the layout engine for this leaf.
pub open spec fn spec_text_leaf(w: u32, h: u32) -> LayoutStyle {
    LayoutStyle {
        width: Dimension::Px(
            if w > COORD_LIMIT {
                COORD_LIMIT
            } else {
                w as i64
            },
        ),
        height: Dimension::Px(
            if h > COORD_LIMIT {
                COORD_LIMIT
            } else {
                h as i64
            },
        ),
        ..spec_default_layout()
    }
}

/// Turn a measured text size into the leaf's layout constraints.
pub fn text_leaf_style(w: u32, h: u32) -> (ls: LayoutStyle)
    ensures
        ls == spec_text_leaf(w, h),
{
    let mut ls = LayoutStyle::default();
    ls.width = Dimension::Px(
        if (w as i64) > COORD_LIMIT {
            COORD_LIMIT
        } else {
            w as i64
        },
    );
    ls.height = Dimension::Px(
        if (h as i64) > COORD_LIMIT {
            COORD_LIMIT
        } else {
            h as i64
        },
    );
    ls
}

/// Build the subtree for markup node `m` into the arena, returning its
/// root index, or nothing for a discarded text run.
#[verifier::rlimit(100)]
fn build_node<M: TextMeasurer>(
    m: &MarkupNode,
    measurer: &M,
    parent_style: &ContainerStyle,
    nodes: &mut Vec<UiNode>,
    interactions: &mut Vec<(usize, String)>,
) -> (r: Result<Option<usize>, BuildError>)
    requires
        old(nodes)@.len() <= MAX_NODES,
        nodes_wf(nv(old(nodes)@)),
        inter_keys_ok(ivs(old(interactions)@), old(nodes)@.len() as nat),
    ensures
        old(nodes)@.len() <= final(nodes)@.len() <= MAX_NODES,
        forall|i: int| 0 <= i < old(nodes)@.len() ==> final(nodes)@[i] == old(nodes)@[i],
        old(interactions)@.len() <= final(interactions)@.len(),
        forall|i: int|
            0 <= i < old(interactions)@.len() ==> final(interactions)@[i] == old(
                interactions,
            )@[i],
        inter_keys_ok(ivs(final(interactions)@), final(nodes)@.len() as nat),
        forall|i: int|
            old(interactions)@.len() <= i < final(interactions)@.len() ==> (#[trigger] ivs(
                final(interactions)@,
            )[i]).0 >= old(nodes)@.len(),
        nodes_wf(nv(final(nodes)@)),
        r matches Result::Ok(res) ==> match res {
            Option::Some(idx) => idx == final(nodes)@.len() - 1 && old(nodes)@.len() <= idx
                && nv(final(nodes)@)[idx as int].parent is None && node_built(
                nv(final(nodes)@),
                ivs(final(interactions)@),
                idx as int,
                *m,
                parent_style@,
            ) && spec_kept(*m),
            Option::None => final(nodes)@.len() == old(nodes)@.len() && final(interactions)@
                == old(interactions)@ && !spec_kept(*m),
        },
        // The build succeeds exactly when the subtree fits in the arena,
        // and then grows it by exactly the subtree's node count.
        r is Ok ==> final(nodes)@.len() == old(nodes)@.len() + built_count(*m, parent_style@),
        r is Err <==> old(nodes)@.len() + built_count(*m, parent_style@) > MAX_NODES,
        r matches Result::Err(e) ==> e == BuildError::TooManyNodes,
    decreases mheight(*m),
{
    match m {
        MarkupNode::Text(t) => {
            let normalized = normalize_text(t.as_str());
            if normalized.as_str().is_empty() {
                proof {
                    lemma_normalize_empty(t@);
                }
                return Result::Ok(Option::None);
            }
            proof {
                lemma_normalize_empty(t@);
            }
            proof {
                assert(built_count(*m, parent_style@) == 1);
            }
            if nodes.len() >= MAX_NODES {
                return Result::Err(BuildError::TooManyNodes);
            }
            let style = inherit_style(parent_style);
            // The measured size is authoritative: it becomes the leaf's
            // fixed layout size, clamped into the coordinate limit.
            let (w, h) = measurer.measure_text(normalized.as_str(), style.font_size, style.weight);
            let ls = text_leaf_style(w, h);
            let idx = nodes.len();
            let ghost pre = nv(nodes@);
            nodes.push(
                UiNode {
                    layout_style: ls,
                    data: RenderData::Text(normalized, style),
                    rect: Rect { x: 0, y: 0, width: 0, height: 0 },
                    parent: Option::None,
                    children: Vec::new(),
                },
            );
            proof {
                let post = nv(nodes@);
                assert(post =~= pre.push(nodes@.last()@));
                assert forall|i: int| 0 <= i < post.len() implies #[trigger] node_wf(post, i) by {
                    if i < pre.len() {
                        assert(node_wf(pre, i));
                        assert(forall|j: int|
                            0 <= j < post[i].children.len() ==> (#[trigger] post[i].children[j])
                                < i && post[post[i].children[j] as int] == pre[post[i].children[j] as int]);
                    }
                }
                // A text leaf never registers an interaction.
                assert(forall|t: int|
                    0 <= t < ivs(interactions@).len() ==> (#[trigger] ivs(interactions@)[t]).0
                        != idx);
                lemma_assoc_inter_none(ivs(interactions@), idx);
            }
            Result::Ok(Option::Some(idx))
        },
        MarkupNode::Element { tag, attrs, children } => {
            let style_base = inherit_style(parent_style);
            let bundle = get_default_style(tag.as_str(), &style_base);
            let mut layout_style = bundle.layout_style;
            let mut style = bundle.container_style;
            let mut element_type = bundle.element_type;
            let mut slider_value: u32 = 0;
            let mut progress_value: i64 = 0;
            let mut progress_max: i64 = 1000;
            let mut checked: bool = false;
            let mut interaction: Option<String> = Option::None;
            let mut image_src: String = String::new();
            let mut canvas_id: String = String::new();
            let ghost tgt = spec_element_state(tag@, attrs@, parent_style@);
            let na = attrs.len();
            let mut ai: usize = 0;
            while ai < na
                invariant
                    ai <= na,
                    na == attrs@.len(),
                    spec_apply_attrs(
                        BuildState {
                            layout_style: layout_style,
                            style: style@,
                            element_type: element_type,
                            slider_value: slider_value,
                            progress_value: progress_value,
                            progress_max: progress_max,
                            checked: checked,
                            interaction: view_str_opt(interaction),
                            image_src: image_src@,
                            canvas_id: canvas_id@,
                        },
                        tag@,
                        attrs@,
                        ai as int,
                    ) == tgt,
                decreases na - ai,
            {
                let ghost prev = BuildState {
                    layout_style: layout_style,
                    style: style@,
                    element_type: element_type,
                    slider_value: slider_value,
                    progress_value: progress_value,
                    progress_max: progress_max,
                    checked: checked,
                    interaction: view_str_opt(interaction),
                    image_src: image_src@,
                    canvas_id: canvas_id@,
                };
                let name = attrs[ai].0.as_str();
                if str_eq(name, "id") {
                    canvas_id = attrs[ai].1.clone();
                } else if str_eq(name, "style") {
                    parse_inline_style(attrs[ai].1.as_str(), &mut style, &mut layout_style);
                } else if str_eq(name, "type") && str_eq(tag.as_str(), "input") {
                    if str_eq(attrs[ai].1.as_str(), "checkbox") {
                        element_type = ElementType::Checkbox;
                        layout_style.width = Dimension::Px(20);
                        layout_style.height = Dimension::Px(20);
                        layout_style.margin = EdgeValues { left: 5, right: 5, top: 0, bottom: 0 };
                    } else if str_eq(attrs[ai].1.as_str(), "range") {
                        element_type = ElementType::Slider;
                        layout_style.width = Dimension::Px(100);
                        layout_style.height = Dimension::Px(20);
                    }
                } else if str_eq(name, "value") {
                    let cv = chars_of(attrs[ai].1.as_str());
                    match crate::css::parse_mille(cv.as_slice()) {
                        Option::Some(mv) => {
                            slider_value = if mv < 0 {
                                0
                            } else if mv > 1000 {
                                1000
                            } else {
                                mv as u32
                            };
                            progress_value = mv;
                        },
                        Option::None => {},
                    }
                } else if str_eq(name, "max") {
                    let cv = chars_of(attrs[ai].1.as_str());
                    match crate::css::parse_mille(cv.as_slice()) {
                        Option::Some(mv) => {
                            progress_max = mv;
                        },
                        Option::None => {},
                    }
                } else if str_eq(name, "checked") {
                    checked = true;
                } else if str_eq(name, "width") {
                    let cv = chars_of(attrs[ai].1.as_str());
                    match parse_px(cv.as_slice()) {
                        Option::Some(p) => {
                            layout_style.width = Dimension::Px(p);
                        },
                        Option::None => {},
                    }
                } else if str_eq(name, "height") {
                    let cv = chars_of(attrs[ai].1.as_str());
                    match parse_px(cv.as_slice()) {
                        Option::Some(p) => {
                            layout_style.height = Dimension::Px(p);
                        },
                        Option::None => {},
                    }
                } else if str_eq(name, "src") {
                    image_src = attrs[ai].1.clone();
                } else if str_eq(name, "data-on-click") {
                    interaction = Option::Some(attrs[ai].1.clone());
                }
                proof {
                    assert((BuildState {
                        layout_style: layout_style,
                        style: style@,
                        element_type: element_type,
                        slider_value: slider_value,
                        progress_value: progress_value,
                        progress_max: progress_max,
                        checked: checked,
                        interaction: view_str_opt(interaction),
                        image_src: image_src@,
                        canvas_id: canvas_id@,
                    }) == spec_apply_attr(prev, tag@, attrs@[ai as int].0@, attrs@[ai as int].1@));
                }
                ai = ai + 1;
            }
            proof {
                assert((BuildState {
                    layout_style: layout_style,
                    style: style@,
                    element_type: element_type,
                    slider_value: slider_value,
                    progress_value: progress_value,
                    progress_max: progress_max,
                    checked: checked,
                    interaction: view_str_opt(interaction),
                    image_src: image_src@,
                    canvas_id: canvas_id@,
                }) == tgt);
            }
            // The attributes are resolved; now the children, unless this
            // element kind is a leaf.
            let mut kids: Vec<usize> = Vec::new();
            if element_type == ElementType::Container {
                let nc = children.len();
                let mut mi: usize = 0;
                while mi < nc
                    invariant
                        mi <= nc,
                        nc == children@.len(),
                        *m == (MarkupNode::Element {
                            tag: (*tag),
                            attrs: (*attrs),
                            children: (*children),
                        }),
                        old(nodes)@.len() <= nodes@.len() <= MAX_NODES,
                        forall|i: int|
                            0 <= i < old(nodes)@.len() ==> nodes@[i] == old(nodes)@[i],
                        nodes_wf(nv(nodes@)),
                        old(interactions)@.len() <= interactions@.len(),
                        forall|i: int|
                            0 <= i < old(interactions)@.len() ==> interactions@[i] == old(
                                interactions,
                            )@[i],
                        inter_keys_ok(ivs(interactions@), nodes@.len() as nat),
                        forall|i: int|
                            old(interactions)@.len() <= i < interactions@.len() ==> (
                            #[trigger] ivs(interactions@)[i]).0 >= old(nodes)@.len(),
                        forall|j: int|
                            0 <= j < kids@.len() ==> old(nodes)@.len() <= (#[trigger] kids@[j])
                                < nodes@.len() && nv(nodes@)[kids@[j] as int].parent is None,
                        forall|i: int, j: int|
                            0 <= i < j < kids@.len() ==> (#[trigger] kids@[i]) < (
                            #[trigger] kids@[j]),
                        children_built(
                            nv(nodes@),
                            ivs(interactions@),
                            kids@,
                            children@,
                            mi as int,
                            kids@.len() as int,
                            style@,
                            old(nodes)@.len() as int,
                        ),
                        element_type == ElementType::Container,
                        tgt == spec_element_state(tag@, attrs@, parent_style@),
                        style@ == tgt.style,
                        element_type == tgt.element_type,
                        nodes@.len() == old(nodes)@.len() + forest_count(
                            children@,
                            style@,
                            mi as int,
                        ),
                    decreases nc - mi,
                {
                    let ghost pns = nv(nodes@);
                    let ghost piv = ivs(interactions@);
                    proof {
                        lemma_mheights_bound(children@, children@.len() as int, mi as int);
                        assert(mheight(children@[mi as int]) < mheight(*m));
                    }
                    let cr = build_node(&children[mi], measurer, &style, nodes, interactions);
                    proof {
                        assert(forall|i: int|
                            0 <= i < pns.len() ==> #[trigger] nv(nodes@)[i] == pns[i]);
                        assert(forall|i: int|
                            0 <= i < piv.len() ==> #[trigger] ivs(interactions@)[i] == piv[i]);
                        assert forall|i: int|
                            old(interactions)@.len() <= i < interactions@.len() implies (
                        #[trigger] ivs(interactions@)[i]).0 >= old(nodes)@.len() by {
                            if i < piv.len() {
                                assert(ivs(interactions@)[i] == piv[i]);
                            }
                        }
                        lemma_children_built_extend(
                            pns,
                            piv,
                            nv(nodes@),
                            ivs(interactions@),
                            kids@,
                            children@,
                            mi as int,
                            kids@.len() as int,
                            style@,
                            old(nodes)@.len() as int,
                        );
                    }
                    match cr {
                        Result::Ok(Option::Some(id)) => {
                            let ghost pk = kids@;
                            kids.push(id);
                            proof {
                                assert(kids@.drop_last() =~= pk);
                                lemma_children_built_kids_grow(
                                    nv(nodes@),
                                    ivs(interactions@),
                                    pk,
                                    kids@,
                                    children@,
                                    mi as int,
                                    pk.len() as int,
                                    style@,
                                    old(nodes)@.len() as int,
                                );
                                assert(kids@[pk.len() as int] == id);
                                assert(children_built(
                                    nv(nodes@),
                                    ivs(interactions@),
                                    kids@,
                                    children@,
                                    mi + 1,
                                    kids@.len() as int,
                                    style@,
                                    old(nodes)@.len() as int,
                                ));
                            }
                        },
                        Result::Ok(Option::None) => {},
                        Result::Err(e) => {
                            proof {
                                lemma_forest_count_mono(
                                    children@,
                                    style@,
                                    mi + 1,
                                    children@.len() as int,
                                );
                            }
                            return Result::Err(e);
                        },
                    }
                    mi = mi + 1;
                }
            }
            // Create this element's node after its children.
            proof {
                if element_type == ElementType::Container {
                    assert(built_count(*m, parent_style@) == 1 + forest_count(
                        children@,
                        tgt.style,
                        children@.len() as int,
                    ));
                } else {
                    assert(built_count(*m, parent_style@) == 1);
                }
            }
            if nodes.len() >= MAX_NODES {
                return Result::Err(BuildError::TooManyNodes);
            }
            let idx = nodes.len();
            let ghost gkids = kids@;
            let ghost pns = nv(nodes@);
            let ghost piv = ivs(interactions@);
            let data = if element_type == ElementType::Container {
                RenderData::Container(style)
            } else if element_type == ElementType::Image {
                RenderData::Image(image_src, style)
            } else if element_type == ElementType::Checkbox {
                RenderData::Checkbox(checked, style)
            } else if element_type == ElementType::Slider {
                RenderData::Slider(slider_value, style)
            } else if element_type == ElementType::Progress {
                RenderData::Progress(progress_value, progress_max, style)
            } else {
                RenderData::Canvas(canvas_id, style)
            };
            proof {
                assert(data@ == spec_entity(tgt));
            }
            nodes.push(
                UiNode {
                    layout_style,
                    data,
                    rect: Rect { x: 0, y: 0, width: 0, height: 0 },
                    parent: Option::None,
                    children: kids,
                },
            );
            proof {
                assert(nv(nodes@) =~= pns.push(nodes@.last()@));
            }
            // Point the children back at this node.
            let nk = nodes[idx].children.len();
            let mut pi: usize = 0;
            while pi < nk
                invariant
                    pi <= nk,
                    idx < nodes@.len(),
                    nodes@.len() == pns.len() + 1,
                    nk == gkids.len(),
                    nv(nodes@)[idx as int].children == gkids,
                    nv(nodes@)[idx as int].layout_style == tgt.layout_style,
                    nv(nodes@)[idx as int].entity == spec_entity(tgt),
                    nv(nodes@)[idx as int].parent is None,
                    nv(nodes@)[idx as int].rect == (Rect { x: 0, y: 0, width: 0, height: 0 }),
                    forall|j: int|
                        0 <= j < gkids.len() ==> old(nodes)@.len() <= (#[trigger] gkids[j]) < idx,
                    forall|i: int, j: int|
                        0 <= i < j < gkids.len() ==> (#[trigger] gkids[i]) < (#[trigger] gkids[j]),
                    forall|i: int|
                        0 <= i < pns.len() ==> same_core(#[trigger] nv(nodes@)[i], pns[i])
                            && nv(nodes@)[i].rect == pns[i].rect,
                    forall|i: int|
                        0 <= i < pns.len() && !gkids.contains(i as usize) ==> #[trigger] nv(
                            nodes@,
                        )[i].parent == pns[i].parent,
                    forall|j: int|
                        0 <= j < pi ==> nv(nodes@)[gkids[j] as int].parent == Option::Some(
                            idx as usize,
                        ),
                    forall|j: int|
                        pi <= j < gkids.len() ==> nv(nodes@)[gkids[j] as int].parent is None,
                    forall|i: int|
                        0 <= i < old(nodes)@.len() && !gkids.contains(i as usize) ==> nodes@[i]
                            == old(nodes)@[i],
                    nodes_wf(pns),
                decreases nk - pi,
            {
                let kid = nodes[idx].children[pi];
                proof {
                    assert(gkids[pi as int] == kid);
                    assert(gkids.contains(kid));
                }
                let ghost bns = nv(nodes@);
                nodes[kid].parent = Option::Some(idx);
                proof {
                    assert(forall|i: int|
                        0 <= i < bns.len() && i != kid ==> #[trigger] nv(nodes@)[i] == bns[i]);
                    assert(same_core(nv(nodes@)[kid as int], bns[kid as int]));
                    assert(nv(nodes@)[kid as int].rect == bns[kid as int].rect);
                    assert forall|i: int|
                        0 <= i < pns.len() && !gkids.contains(i as usize) implies #[trigger] nv(
                        nodes@,
                    )[i].parent == pns[i].parent by {
                        if i == kid {
                            assert(gkids.contains(kid));
                        }
                    }
                }
                pi = pi + 1;
            }
            // Register the interaction, if the attributes carried one.
            match interaction {
                Option::Some(msg) => {
                    proof {
                        assert(forall|i: int|
                            0 <= i < piv.len() ==> (#[trigger] piv[i]).0 < idx);
                        lemma_assoc_inter_push(piv, idx, msg@);
                    }
                    interactions.push((idx, msg));
                    proof {
                        assert(ivs(interactions@) =~= piv.push((idx, msg@)));
                    }
                },
                Option::None => {
                    proof {
                        assert(forall|i: int|
                            0 <= i < piv.len() ==> (#[trigger] piv[i]).0 != idx);
                        lemma_assoc_inter_none(piv, idx);
                    }
                },
            }
            proof {
                let fns = nv(nodes@);
                let fiv = ivs(interactions@);
                assert(forall|j: int|
                    0 <= j < gkids.len() ==> old(nodes)@.len() <= (#[trigger] gkids[j]));
                assert forall|i: int|
                    0 <= i < old(nodes)@.len() implies nodes@[i] == old(nodes)@[i] by {
                    if gkids.contains(i as usize) {
                        let j = choose|j: int| 0 <= j < gkids.len() && gkids[j] == i as usize;
                        assert(old(nodes)@.len() <= gkids[j]);
                    }
                }
                // The subtree relation built for the children still holds
                // in the final arena.
                if element_type == ElementType::Container {
                    lemma_children_built_extend(
                        pns,
                        piv,
                        fns,
                        fiv,
                        gkids,
                        children@,
                        children@.len() as int,
                        gkids.len() as int,
                        tgt.style,
                        old(nodes)@.len() as int,
                    );
                    assert(idx - forest_count(children@, tgt.style, children@.len() as int)
                        == old(nodes)@.len());
                } else {
                    assert(gkids.len() == 0);
                }
                assert(node_built(fns, fiv, idx as int, *m, parent_style@));
                // The whole arena stays well formed.
                assert forall|i: int| 0 <= i < fns.len() implies #[trigger] node_wf(fns, i) by {
                    if i < pns.len() {
                        assert(node_wf(pns, i));
                        assert forall|j: int|
                            0 <= j < fns[i].children.len() implies (#[trigger] fns[i].children[j])
                                < i && fns[fns[i].children[j] as int].parent == Option::Some(
                                i as usize,
                            ) by {
                            let c = fns[i].children[j];
                            assert(pns[i].children[j] == c);
                            assert(pns[c as int].parent == Option::Some(i as usize));
                            if gkids.contains(c) {
                                assert(fns[c as int].parent == Option::Some(idx as usize));
                                assert(false);
                            }
                        }
                        match fns[i].parent {
                            Option::Some(p) => {
                                if gkids.contains(i as usize) {
                                    assert(fns[i].parent == Option::Some(idx as usize));
                                    assert(fns[idx as int].children.contains(i as usize));
                                } else {
                                    assert(pns[i].parent == fns[i].parent);
                                    assert(pns[p as int].children.contains(i as usize));
                                    assert(same_core(fns[p as int], pns[p as int]));
                                }
                            },
                            Option::None => {},
                        }
                    } else {
                        assert(i == idx);
                        assert forall|j: int|
                            0 <= j < fns[i].children.len() implies (#[trigger] fns[i].children[j])
                                < i && fns[fns[i].children[j] as int].parent == Option::Some(
                                i as usize,
                            ) by {
                            assert(gkids.contains(gkids[j]));
                        }
                    }
                }
            }
            Result::Ok(Option::Some(idx))
        },
    }
}

/// Clamp a coordinate into the engine's limit.
pub open spec fn spec_clamp_coord(v: i64) -> i64 {
    if v < -COORD_LIMIT {
        (-COORD_LIMIT) as i64
    } else if v > COORD_LIMIT {
        COORD_LIMIT
    } else {
        v
    }
}

/// Clamp an extent into `[0, COORD_LIMIT]`.
pub open spec fn spec_clamp_len(v: i64) -> i64 {
    if v < 0 {
        0
    } else if v > COORD_LIMIT {
        COORD_LIMIT
    } else {
        v
    }
}

/// A solver rectangle, clamped into the engine's coordinate limits.
pub open spec fn spec_clamp_rect(r: Rect) -> Rect {
    Rect {
        x: spec_clamp_coord(r.x),
        y: spec_clamp_coord(r.y),
        width: spec_clamp_len(r.width),
        height: spec_clamp_len(r.height),
    }
}

impl Ui {
    /// Build a retained tree from a parsed markup document. The default
    /// style seeds the cascade at the root. Fails only when the arena
    /// cannot hold the tree.
    pub fn new<M: TextMeasurer>(
        doc: &MarkupNode,
        measurer: &M,
        default_style: ContainerStyle,
    ) -> (r: Result<Ui, BuildError>)
        ensures
            r matches Result::Ok(ui) ==> ui.wf() && node_built(
                ui.nodes_view(),
                ui.inter_view(),
                ui.root as int,
                *doc,
                default_style@,
            ) && ui.scroll_offsets@.len() == 0 && ui.nodes@.len() == built_count(
                *doc,
                default_style@,
            ),
            // Construction succeeds exactly when the document keeps a root
            // and its tree fits in the arena; each failure mode is owned
            // by one error.
            r is Ok <==> spec_kept(*doc) && built_count(*doc, default_style@) <= MAX_NODES,
            !spec_kept(*doc) ==> r == Result::<Ui, BuildError>::Err(BuildError::EmptyDocument),
            built_count(*doc, default_style@) > MAX_NODES ==> r == Result::<Ui, BuildError>::Err(
                BuildError::TooManyNodes,
            ),
    {
        let mut nodes: Vec<UiNode> = Vec::new();
        let mut interactions: Vec<(usize, String)> = Vec::new();
        proof {
            assert(nv(nodes@) =~= Seq::<UiNodeView>::empty());
            assert(ivs(interactions@) =~= Seq::<(usize, Seq<char>)>::empty());
        }
        match build_node(doc, measurer, &default_style, &mut nodes, &mut interactions) {
            Result::Ok(Option::Some(idx)) => {
                let ui = Ui { nodes, root: idx, interactions, scroll_offsets: Vec::new() };
                proof {
                    assert(ui.nodes_view() == nv(ui.nodes@));
                    assert(scroll_wf(ui.nodes_view(), ui.scroll_offsets@));
                }
                Result::Ok(ui)
            },
            Result::Ok(Option::None) => Result::Err(BuildError::EmptyDocument),
            Result::Err(e) => Result::Err(e),
        }
    }

    /// Install the rectangles the external layout solver computed, one per
    /// node in arena order, each clamped into the engine's limits. Only
    /// the rectangles change.
    pub fn set_layout(&mut self, rects: &Vec<Rect>)
        requires
            old(self).wf(),
            rects@.len() == old(self).nodes@.len(),
        ensures
            final(self).wf(),
            final(self).nodes@.len() == old(self).nodes@.len(),
            final(self).root == old(self).root,
            final(self).interactions == old(self).interactions,
            final(self).scroll_offsets == old(self).scroll_offsets,
            forall|i: int|
                0 <= i < final(self).nodes@.len() ==> same_core(
                    #[trigger] final(self).nodes_view()[i],
                    old(self).nodes_view()[i],
                ) && final(self).nodes_view()[i].parent == old(self).nodes_view()[i].parent
                    && final(self).nodes_view()[i].rect == spec_clamp_rect(rects@[i]),
    {
        let n = self.nodes.len();
        let ghost orig = self.nodes_view();
        let mut i: usize = 0;
        while i < n
            invariant
                i <= n,
                n == self.nodes@.len(),
                n == orig.len(),
                n == rects@.len(),
                self.root == old(self).root,
                self.interactions == old(self).interactions,
                self.scroll_offsets == old(self).scroll_offsets,
                orig == old(self).nodes_view(),
                forall|j: int|
                    0 <= j < n ==> same_core(#[trigger] self.nodes_view()[j], orig[j])
                        && self.nodes_view()[j].parent == orig[j].parent,
                forall|j: int|
                    0 <= j < i ==> (#[trigger] self.nodes_view()[j]).rect == spec_clamp_rect(
                        rects@[j],
                    ),
                forall|j: int|
                    i <= j < n ==> (#[trigger] self.nodes_view()[j]).rect == orig[j].rect,
            decreases n - i,
        {
            let r = rects[i];
            let x = if r.x < -COORD_LIMIT {
                -COORD_LIMIT
            } else if r.x > COORD_LIMIT {
                COORD_LIMIT
            } else {
                r.x
            };
            let y = if r.y < -COORD_LIMIT {
                -COORD_LIMIT
            } else if r.y > COORD_LIMIT {
                COORD_LIMIT
            } else {
                r.y
            };
            let width = if r.width < 0 {
                0
            } else if r.width > COORD_LIMIT {
                COORD_LIMIT
            } else {
                r.width
            };
            let height = if r.height < 0 {
                0
            } else if r.height > COORD_LIMIT {
                COORD_LIMIT
            } else {
                r.height
            };
            let ghost before = self.nodes_view();
            self.nodes[i].rect = Rect { x, y, width, height };
            proof {
                assert(forall|j: int|
                    0 <= j < n && j != i ==> #[trigger] self.nodes_view()[j] == before[j]);
                assert(same_core(self.nodes_view()[i as int], before[i as int]));
                assert(self.nodes_view()[i as int].parent == before[i as int].parent);
            }
            i = i + 1;
        }
        proof {
            let fns = self.nodes_view();
            assert forall|j: int| 0 <= j < fns.len() implies #[trigger] node_wf(fns, j) by {
                assert(node_wf(orig, j));
                assert(rel_rect_ok(fns[j].rect));
                assert(forall|k: int|
                    0 <= k < fns[j].children.len() ==> (#[trigger] fns[j].children[k]) < j && fns[
                        fns[j].children[k] as int
                    ].parent == orig[fns[j].children[k] as int].parent);
                match fns[j].parent {
                    Option::Some(p) => {
                        assert(same_core(fns[p as int], orig[p as int]));
                    },
                    Option::None => {},
                }
            }
            assert(scroll_wf(fns, self.scroll_offsets@)) by {
                assert(forall|i2: int|
                    0 <= i2 < self.scroll_offsets@.len() ==> is_scroll_container(
                        orig[(#[trigger] self.scroll_offsets@[i2]).0 as int],
                    ));
            }
            assert(fns[self.root as int].parent == orig[self.root as int].parent);
            assert(self.inter_view() == old(self).inter_view());
        }
    }
}

/// `children_built` only reads the child list below `ki`, so appending to
/// it changes nothing.
pub proof fn lemma_children_built_kids_grow(
    ns: Seq<UiNodeView>,
    iv: Seq<(usize, Seq<char>)>,
    kids1: Seq<usize>,
    kids2: Seq<usize>,
    ms: Seq<MarkupNode>,
    mi: int,
    ki: int,
    inh: StyleView,
    base: int,
)
    requires
        children_built(ns, iv, kids1, ms, mi, ki, inh, base),
        ki <= kids1.len() <= kids2.len(),
        forall|j: int| 0 <= j < kids1.len() ==> kids2[j] == kids1[j],
    ensures
        children_built(ns, iv, kids2, ms, mi, ki, inh, base),
    decreases ms, 0int, mi,
{
    if mi <= 0 {
    } else if mi > ms.len() {
    } else if !spec_kept(ms[mi - 1]) {
        lemma_children_built_kids_grow(ns, iv, kids1, kids2, ms, mi - 1, ki, inh, base);
    } else {
        lemma_children_built_kids_grow(ns, iv, kids1, kids2, ms, mi - 1, ki - 1, inh, base);
    }
}

/// Every key in an updated scroll map is either the new key or one of the
/// old keys.
proof fn lemma_set_scroll_key_source(
    sc: Seq<(usize, i64, i64)>,
    k: usize,
    x: i64,
    y: i64,
    i: int,
)
    requires
        0 <= i < spec_set_scroll(sc, k, x, y).len(),
    ensures
        spec_set_scroll(sc, k, x, y)[i].0 == k || exists|j: int|
            0 <= j < sc.len() && (#[trigger] sc[j]).0 == spec_set_scroll(sc, k, x, y)[i].0,
    decreases sc.len(),
{
    if sc.len() == 0 {
    } else if sc[0].0 == k {
        if i > 0 {
            assert(spec_set_scroll(sc, k, x, y)[i] == sc.drop_first()[i - 1]);
            assert(sc[i] == sc.drop_first()[i - 1]);
        }
    } else {
        if i == 0 {
            assert(spec_set_scroll(sc, k, x, y)[0] == sc[0]);
        } else {
            lemma_set_scroll_key_source(sc.drop_first(), k, x, y, i - 1);
            assert(spec_set_scroll(sc, k, x, y)[i] == spec_set_scroll(sc.drop_first(), k, x, y)[i
                - 1]);
            if spec_set_scroll(sc.drop_first(), k, x, y)[i - 1].0 != k {
                let j = choose|j: int|
                    0 <= j < sc.drop_first().len() && (#[trigger] sc.drop_first()[j]).0
                        == spec_set_scroll(sc.drop_first(), k, x, y)[i - 1].0;
                assert(sc[j + 1] == sc.drop_first()[j]);
            }
        }
    }
}

} // verus!
