use vstd::prelude::*;

use crate::chars::{chars_of, spec_words, string_from_chars, words};

verus! {

/// A parsed markup node: an element with a tag, attributes in source
/// order, and child nodes, or a run of text. The external markup parser
/// produces this tree; the builder consumes it.
pub enum MarkupNode {
    Element { tag: String, attrs: Vec<(String, String)>, children: Vec<MarkupNode> },
    Text(String),
}

/// The words of `ws` joined by single spaces, starting at `i`.
pub open spec fn spec_join_words(ws: Seq<Seq<char>>, i: int) -> Seq<char>
    decreases ws.len() - i,
{
    if !(0 <= i < ws.len()) {
        Seq::empty()
    } else if i == ws.len() - 1 {
        ws[i]
    } else {
        ws[i] + seq![' '] + spec_join_words(ws, i + 1)
    }
}

/// Whitespace-normalized text: runs of whitespace collapse to single
/// spaces and the ends are trimmed.
pub open spec fn spec_normalize(s: Seq<char>) -> Seq<char> {
    spec_join_words(spec_words(s), 0)
}

/// Whether a text run survives normalization. Elements are always kept;
/// a text node is kept only if it holds a non-whitespace character.
pub open spec fn spec_kept(m: MarkupNode) -> bool {
    match m {
        MarkupNode::Element { .. } => true,
        MarkupNode::Text(t) => spec_words(t@).len() > 0,
    }
}

/// A normalized text run is empty exactly when the text held no word.
pub proof fn lemma_normalize_empty(s: Seq<char>)
    ensures
        (spec_normalize(s).len() == 0) == (spec_words(s).len() == 0),
{
    let ws = spec_words(s);
    if ws.len() > 0 {
        crate::chars::lemma_words_nonempty(s);
        if ws.len() == 1 {
            assert(spec_normalize(s) == ws[0]);
        }
    }
}

/// The height of a markup tree, for termination of the builders.
pub open spec fn mheight(m: MarkupNode) -> nat
    decreases m, 1int, 0int,
{
    match m {
        MarkupNode::Text(_) => 0,
        MarkupNode::Element { children, .. } => 1 + mheights(children@, children@.len() as int),
    }
}

/// The largest height among the first `i` nodes of a forest.
pub open spec fn mheights(s: Seq<MarkupNode>, i: int) -> nat
    decreases s, 0int, i,
{
    if 0 < i <= s.len() {
        let a = mheight(s[i - 1]);
        let b = mheights(s, i - 1);
        if a >= b {
            a
        } else {
            b
        }
    } else {
        0
    }
}

/// Every node of a forest prefix stays within the forest's height bound.
pub proof fn lemma_mheights_bound(s: Seq<MarkupNode>, i: int, j: int)
    requires
        0 <= j < i <= s.len(),
    ensures
        mheight(s[j]) <= mheights(s, i),
    decreases i,
{
    if j < i - 1 {
        lemma_mheights_bound(s, i - 1, j);
    }
}

/// Normalize whitespace in `s`: collapse runs to single spaces, trim ends.
pub fn normalize_text(s: &str) -> (r: String)
    ensures
        r@ == spec_normalize(s@),
{
    let v = chars_of(s);
    let ws = words(v.as_slice());
    let ghost wspec = spec_words(v@);
    let n = ws.len();
    let mut out: Vec<char> = Vec::new();
    if n == 0 {
        return string_from_chars(out.as_slice());
    }
    let mut i: usize = 0;
    while i < n
        invariant
            i <= n,
            n == wspec.len(),
            n > 0,
            ws@.len() == n,
            forall|j: int| 0 <= j < n ==> ws@[j]@ == wspec[j],
            i < n ==> out@ + spec_join_words(wspec, i as int) == spec_join_words(wspec, 0),
            i == n ==> out@ == spec_join_words(wspec, 0),
        decreases n - i,
    {
        let w = &ws[i];
        let m = w.len();
        // Append the word, then a separating space unless it is the last.
        let ghost before = out@;
        let mut k: usize = 0;
        while k < m
            invariant
                k <= m,
                m == w@.len(),
                out@ == before + w@.subrange(0, k as int),
            decreases m - k,
        {
            out.push(w[k]);
            proof {
                assert(out@ =~= before + w@.subrange(0, k + 1 as int));
            }
            k = k + 1;
        }
        proof {
            assert(w@.subrange(0, m as int) =~= w@);
        }
        if i + 1 < n {
            out.push(' ');
            proof {
                assert(out@ =~= before + (wspec[i as int] + seq![' ']));
                assert(out@ + spec_join_words(wspec, i + 1 as int) =~= before + spec_join_words(
                    wspec,
                    i as int,
                ));
            }
        } else {
            proof {
                assert(out@ =~= before + wspec[i as int]);
                assert(out@ =~= before + spec_join_words(wspec, i as int));
            }
        }
        i = i + 1;
    }
    string_from_chars(out.as_slice())
}

} // verus!
