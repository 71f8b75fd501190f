//! The window arena: a flat vector of windows linked into a tree by index.
use vstd::prelude::*;
use vstd::arithmetic::div_mod::lemma_fundamental_div_mod_converse;
use vstd::set_lib::*;

use super::geometry::{
    corner, hidden_rect, Layout, Point, Rgba, Term, lemma_resolve_ok, quad, resolve, resolve_rect, Rect, Vertex, WindowParams,
};

verus! {

/// The largest number of windows an arena holds. Vertex indices are `u32`, and
/// four vertices per window must stay addressable.
pub const MAX_WINDOWS: usize = 0x100_0000;

/// One window of the arena.
pub struct WindowNode {
    /// The window's name; it holds no path separator.
    pub name: String,
    pub params: WindowParams,
    /// The resolved rectangle, in pixels.
    pub rect: Rect,
    /// Child indices, in attachment order (which is also drawing order).
    pub children: Vec<usize>,
    pub parent: Option<usize>,
    /// The window and its descendants own the vertices `vertex_begin .. vertex_end`.
    pub vertex_begin: usize,
    pub vertex_end: usize,
}

/// Why an operation on the window tree was refused.
#[derive(Clone, Copy, Debug, PartialEq, Eq)]
pub enum OverlayError {
    /// The index does not name a window of this arena.
    NoSuchWindow { index: usize },
    /// The child already has a parent.
    AlreadyAttached { child: usize, parent: usize },
    /// The parent already has a child with the child's name.
    NameTaken { child: usize, sibling: usize },
    /// The child is the root, or an ancestor of (or the same as) the parent.
    WouldCycle { child: usize, parent: usize },
    /// The window is not a child of the given parent.
    NotAChild { child: usize, parent: usize },
}

/// What `update` asks to be uploaded to the vertex buffer.
pub enum Upload {
    /// Nothing changed since the last upload.
    Nothing,
    /// The tree was laid out anew: reallocate and write the whole buffer.
    Full,
    /// Only window parameters changed: write each range `begin .. end` of vertices.
    Partial(Vec<(usize, usize)>),
}

/// The 2D overlay: the window arena, its dirty state and its buffers.
pub struct Overlay {
    nodes: Vec<WindowNode>,
    dirty: Vec<usize>,
    needs_reindex: bool,
    vertices: Vec<Vertex>,
    indices: Vec<u32>,
    heights: Ghost<Seq<nat>>,
    hmax: Ghost<nat>,
}

impl Overlay {
    pub closed spec fn nodes(&self) -> Seq<WindowNode> {
        self.nodes@
    }

    pub closed spec fn dirty(&self) -> Seq<usize> {
        self.dirty@
    }

    pub closed spec fn needs_reindex(&self) -> bool {
        self.needs_reindex
    }

    pub closed spec fn vertices(&self) -> Seq<Vertex> {
        self.vertices@
    }

    pub closed spec fn indices(&self) -> Seq<u32> {
        self.indices@
    }

    /// A ghost rank of each window that strictly decreases from parent to child.
    pub closed spec fn heights(&self) -> Seq<nat> {
        self.heights@
    }

    pub closed spec fn hmax(&self) -> nat {
        self.hmax@
    }

    pub open spec fn n(&self) -> int {
        self.nodes().len() as int
    }

    pub open spec fn parent(&self, x: int) -> Option<usize> {
        self.nodes()[x].parent
    }

    pub open spec fn children(&self, x: int) -> Seq<usize> {
        self.nodes()[x].children@
    }

    pub open spec fn begin(&self, x: int) -> int {
        self.nodes()[x].vertex_begin as int
    }

    pub open spec fn end(&self, x: int) -> int {
        self.nodes()[x].vertex_end as int
    }

    /// The parent link of `x` is in range and rises in rank.
    pub open spec fn up_edge(&self, x: int, q: int) -> bool {
        &&& 0 <= x < self.n()
        &&& 0 <= q < self.n()
        &&& self.heights()[x] < self.heights()[q] <= self.hmax()
    }

    /// `a` is `x` or one of its ancestors.
    pub open spec fn anc(&self, a: int, x: int) -> bool
        decreases self.hmax() - self.heights()[x],
    {
        if x == a {
            true
        } else if 0 <= x < self.n() && self.parent(x) is Some {
            let q = self.parent(x)->0 as int;
            if self.up_edge(x, q) {
                self.anc(a, q)
            } else {
                false
            }
        } else {
            false
        }
    }

    /// The window is in the tree under the root.
    pub open spec fn attached(&self, x: int) -> bool {
        0 <= x < self.n() && self.anc(0, x)
    }

    /// The windows of the subtree under `x`, `x` included.
    pub open spec fn subtree(&self, x: int) -> Set<int> {
        Set::new(|y: int| 0 <= y < self.n() && self.anc(x, y))
    }

    /// The tree shape: links in range and mutual, children without repeats, and
    /// ranks that fall from parent to child.
    #[verifier::opaque]
    pub open spec fn wf_shape(&self) -> bool {
        &&& 1 <= self.n() <= MAX_WINDOWS
        &&& self.heights().len() == self.n()
        &&& self.parent(0) is None
        &&& forall|i: int| 0 <= i < self.n() ==> #[trigger] self.heights()[i] <= self.hmax()
        &&& forall|i: int|
            0 <= i < self.n() && #[trigger] self.parent(i) is Some ==> {
                let q = self.parent(i)->0 as int;
                &&& self.up_edge(i, q)
                &&& self.children(q).contains(i as usize)
            }
        &&& forall|i: int, k: int|
            0 <= i < self.n() && 0 <= k < self.children(i).len() ==> {
                let c = #[trigger] self.children(i)[k] as int;
                &&& 0 <= c < self.n()
                &&& self.parent(c) == Some(i as usize)
            }
        &&& forall|i: int| 0 <= i < self.n() ==> (#[trigger] self.children(i)).no_duplicates()
        &&& forall|k: int| 0 <= k < self.dirty().len() ==> #[trigger] self.dirty()[k] < self.n()
    }

    /// Where the `k`-th child of `x` must start: right after the quad of `x`, or
    /// right after the range of the previous child.
    pub open spec fn child_start(&self, x: int, k: int) -> int {
        if k <= 0 {
            self.begin(x) + 4
        } else {
            self.end(self.children(x)[k - 1] as int)
        }
    }

    /// The vertex range of `x` is its own quad followed by the ranges of its
    /// children, back to back, in child order.
    pub open spec fn laid_out(&self, x: int) -> bool {
        &&& forall|k: int|
            0 <= k < self.children(x).len() ==> self.begin(#[trigger] self.children(x)[k] as int)
                == self.child_start(x, k)
        &&& self.end(x) == self.child_start(x, self.children(x).len() as int)
    }

    /// The rectangle of `x`, resolved through its ancestors.
    pub open spec fn resolved(&self, x: int) -> Rect
        decreases self.hmax() - self.heights()[x],
    {
        let params = self.nodes()[x].params;
        if 0 <= x < self.n() && self.parent(x) is Some {
            let q = self.parent(x)->0 as int;
            if self.up_edge(x, q) {
                resolve(params, Some(self.resolved(q)))
            } else {
                resolve(params, None)
            }
        } else {
            resolve(params, None)
        }
    }

    /// What `x` resolves to given its parent's resolved rectangle.
    pub open spec fn parent_rect(&self, x: int) -> Option<Rect> {
        match self.parent(x) {
            Some(q) => Some(self.resolved(q as int)),
            None => None,
        }
    }

    /// `x` holds its resolved rectangle, and its quad stands in `vs` at `begin(x)`.
    pub open spec fn drawn_in(&self, x: int, vs: Seq<Vertex>) -> bool {
        &&& self.nodes()[x].rect == self.resolved(x)
        &&& 0 <= self.begin(x)
        &&& self.begin(x) + 4 <= self.end(x) <= vs.len()
        &&& forall|k: int|
            0 <= k < 4 ==> vs[self.begin(x) + k] == #[trigger] corner(
                self.nodes()[x].params,
                self.resolved(x),
                k,
            )
    }

    /// The triangle index pattern for `quads` quads: `[0,1,2,0,2,3]` offset by
    /// four for each quad.
    pub open spec fn index_pattern(quads: int) -> Seq<u32> {
        Seq::new(
            (6 * quads) as nat,
            |i: int|
                {
                    let q = i / 6;
                    let r = i % 6;
                    let off: int = if r == 0 || r == 3 {
                        0
                    } else if r == 1 {
                        1
                    } else if r == 2 || r == 4 {
                        2
                    } else {
                        3
                    };
                    (4 * q + off) as u32
                },
        )
    }

    /// No reindex is pending and no window is marked dirty. Under `wf`, every
    /// window of the tree is then laid out and drawn in the buffers.
    pub open spec fn is_clean(&self) -> bool {
        &&& !self.needs_reindex()
        &&& self.dirty().len() == 0
    }

    /// The vertex ranges of the tree form the pre-order layout, from zero.
    pub open spec fn layout_ok(&self) -> bool {
        &&& self.begin(0) == 0
        &&& forall|x: int|
            #[trigger] self.attached(x) ==> self.laid_out(x) && 0 <= self.begin(x) && self.begin(x) + 4
                <= self.end(x)
    }

    /// `x` is a dirty window or lies under one.
    pub open spec fn dirty_covers(&self, x: int) -> bool {
        exists|k: int| 0 <= k < self.dirty().len() && #[trigger] self.anc(self.dirty()[k] as int, x)
    }

    /// The buffers match the tree, but for the windows under dirty ones.
    pub open spec fn buffers_current(&self) -> bool {
        &&& self.layout_ok()
        &&& self.end(0) == self.vertices().len()
        &&& self.vertices().len() % 4 == 0
        &&& self.indices() == Self::index_pattern((self.vertices().len() / 4) as int)
        &&& forall|x: int|
            #[trigger] self.attached(x) && !self.dirty_covers(x) ==> self.drawn_in(x, self.vertices())
    }

    /// No two children of one window share a name, so that paths name windows.
    pub open spec fn names_apart(&self) -> bool {
        forall|p: int, a: int, b: int|
            0 <= p < self.n() && 0 <= a < b < self.children(p).len() ==> (#[trigger] self.nodes()[self.children(
                p,
            )[a] as int]).name@ != (#[trigger] self.nodes()[self.children(p)[b] as int]).name@
    }

    /// The invariant of the overlay.
    pub open spec fn wf(&self) -> bool {
        &&& self.wf_shape()
        &&& self.names_apart()
        &&& !self.needs_reindex() ==> self.buffers_current()
    }
}


/// `b` keeps the links, ranks and parameters of every window of `a`, and may
/// hold more windows after them.
pub open spec fn same_links(a: &Overlay, b: &Overlay) -> bool {
    &&& a.n() <= b.n()
    &&& b.heights().len() == b.n()
    &&& a.hmax() == b.hmax()
    &&& forall|i: int| 0 <= i < a.n() ==> #[trigger] b.parent(i) == a.parent(i)
    &&& forall|i: int| 0 <= i < a.n() ==> #[trigger] b.heights()[i] == a.heights()[i]
    &&& forall|i: int| 0 <= i < a.n() ==> #[trigger] b.nodes()[i].params == a.nodes()[i].params
}

proof fn lemma_agree_at(a: &Overlay, b: &Overlay, u: int, x: int)
    requires
        a.wf_shape(),
        same_links(a, b),
        0 <= x < a.n(),
    ensures
        a.anc(u, x) == b.anc(u, x),
        a.resolved(x) == b.resolved(x),
    decreases a.hmax() - a.heights()[x],
{
    reveal(Overlay::wf_shape);
    if a.parent(x) is Some {
        let q = a.parent(x)->0 as int;
        assert(a.up_edge(x, q));
        lemma_agree_at(a, b, u, q);
    }
}

/// Links, ranks and parameters decide ancestry and resolved rectangles.
proof fn lemma_agree(a: &Overlay, b: &Overlay)
    requires
        a.wf_shape(),
        same_links(a, b),
    ensures
        forall|u: int, x: int| 0 <= x < a.n() ==> a.anc(u, x) == #[trigger] b.anc(u, x),
        forall|x: int| 0 <= x < a.n() ==> a.resolved(x) == #[trigger] b.resolved(x),
{
    assert forall|u: int, x: int| 0 <= x < a.n() implies a.anc(u, x) == #[trigger] b.anc(u, x) by {
        lemma_agree_at(a, b, u, x);
    }
    assert forall|x: int| 0 <= x < a.n() implies a.resolved(x) == #[trigger] b.resolved(x) by {
        lemma_agree_at(a, b, 0, x);
    }
}

/// `b` has the links and ranks of `a`, and the parameters of `a` but at `i`.
pub open spec fn same_but_params_at(a: &Overlay, b: &Overlay, i: int) -> bool {
    &&& a.n() == b.n()
    &&& b.heights().len() == b.n()
    &&& a.hmax() == b.hmax()
    &&& forall|y: int| 0 <= y < a.n() ==> #[trigger] b.parent(y) == a.parent(y)
    &&& forall|y: int| 0 <= y < a.n() ==> #[trigger] b.heights()[y] == a.heights()[y]
    &&& forall|y: int| 0 <= y < a.n() && y != i ==> #[trigger] b.nodes()[y].params == a.nodes()[y].params
}

/// Changing the parameters of window `i` changes neither ancestry nor the
/// resolved rectangle of a window outside the subtree of `i`.
proof fn lemma_params_frame(a: &Overlay, b: &Overlay, i: int, u: int, x: int)
    requires
        a.wf_shape(),
        same_but_params_at(a, b, i),
        0 <= x < a.n(),
    ensures
        a.anc(u, x) == b.anc(u, x),
        !a.anc(i, x) ==> a.resolved(x) == b.resolved(x),
    decreases a.hmax() - a.heights()[x],
{
    reveal(Overlay::wf_shape);
    if a.parent(x) is Some {
        let q = a.parent(x)->0 as int;
        assert(a.up_edge(x, q));
        lemma_params_frame(a, b, i, u, q);
        lemma_params_frame(a, b, i, i, q);
    }
}


#[verifier::spinoff_prover]
proof fn lemma_detach_shape(s0: &Overlay, s1: &Overlay, parent: int, child: int, k: int)
    requires
        s0.wf_shape(),
        0 <= parent < s0.n(),
        0 <= child < s0.n(),
        s0.parent(child) == Some(parent as usize),
        0 <= k < s0.children(parent).len(),
        s0.children(parent)[k] == child,
        s1.n() == s0.n(),
        s1.heights() == s0.heights(),
        s1.hmax() == s0.hmax(),
        s1.dirty() == s0.dirty(),
        s1.children(parent) == s0.children(parent).remove(k),
        s1.parent(child) is None,
        forall|i: int| 0 <= i < s0.n() && i != parent ==> #[trigger] s1.nodes()[i].children == s0.nodes()[i].children,
        forall|i: int| 0 <= i < s0.n() && i != child ==> #[trigger] s1.nodes()[i].parent == s0.nodes()[i].parent,
    ensures
        s1.wf_shape(),
{
    s0.lemma_wf_basics();
    let old_c = s0.children(parent);
    reveal(Overlay::wf_shape);
    assert(old_c.no_duplicates());
    assert forall|i: int| 0 <= i < s1.n() && #[trigger] s1.parent(i) is Some implies {
        let q = s1.parent(i)->0 as int;
        &&& s1.up_edge(i, q)
        &&& s1.children(q).contains(i as usize)
    } by {
        let q = s0.parent(i)->0 as int;
        s0.lemma_parent_edge(i);
        if q == parent {
            let m = choose|m: int| 0 <= m < old_c.len() && old_c[m] == i as usize;
            assert(m != k);
            if m < k {
                assert(s1.children(q)[m] == i as usize);
            } else {
                assert(s1.children(q)[m - 1] == i as usize);
            }
        }
    }
    assert forall|i: int, m: int| 0 <= i < s1.n() && 0 <= m < s1.children(i).len() implies {
        let c = #[trigger] s1.children(i)[m] as int;
        &&& 0 <= c < s1.n()
        &&& s1.parent(c) == Some(i as usize)
    } by {
        if i != parent {
            s0.lemma_child_edge(i, m);
            assert(s0.children(i)[m] != child);
        } else {
            let m0 = if m < k { m } else { m + 1 };
            assert(s1.children(i)[m] == old_c[m0]);
            s0.lemma_child_edge(i, m0);
            assert(old_c[m0] != child);
        }
    }
    assert forall|i: int| 0 <= i < s1.n() implies (#[trigger] s1.children(i)).no_duplicates() by {
        assert(s0.children(i).no_duplicates());
        if i == parent {
            assert forall|a: int, b: int| 0 <= a < b < s1.children(i).len() implies s1.children(i)[a]
                != s1.children(i)[b] by {
                let a0 = if a < k { a } else { a + 1 };
                let b0 = if b < k { b } else { b + 1 };
                assert(s1.children(i)[a] == old_c[a0]);
                assert(s1.children(i)[b] == old_c[b0]);
            }
        }
    }
    assert forall|i: int| 0 <= i < s1.n() implies #[trigger] s1.heights()[i] <= s1.hmax() by {
        assert(s0.heights()[i] <= s0.hmax());
    }
}

impl Overlay {
    proof fn lemma_parent_edge(&self, x: int)
        requires
            self.wf_shape(),
            0 <= x < self.n(),
            self.parent(x) is Some,
        ensures
            self.up_edge(x, self.parent(x)->0 as int),
            self.children(self.parent(x)->0 as int).contains(x as usize),
    {
        reveal(Overlay::wf_shape);
    }

    proof fn lemma_child_edge(&self, x: int, k: int)
        requires
            self.wf_shape(),
            0 <= x < self.n(),
            0 <= k < self.children(x).len(),
        ensures
            0 <= self.children(x)[k] < self.n(),
            self.parent(self.children(x)[k] as int) == Some(x as usize),
            self.up_edge(self.children(x)[k] as int, x),
    {
        reveal(Overlay::wf_shape);
        let c = self.children(x)[k] as int;
        self.lemma_parent_edge(c);
    }

    proof fn lemma_wf_basics(&self)
        requires
            self.wf_shape(),
        ensures
            self.heights().len() == self.n(),
            1 <= self.n() <= MAX_WINDOWS,
            self.parent(0) is None,
            forall|k: int| 0 <= k < self.dirty().len() ==> #[trigger] self.dirty()[k] < self.n(),
    {
        reveal(Overlay::wf_shape);
    }

    /// An ancestor ranks at least as high as its descendant, strictly if distinct.
    proof fn lemma_anc_height(&self, a: int, x: int)
        requires
            self.wf_shape(),
            0 <= x < self.n(),
            self.anc(a, x),
        ensures
            0 <= a < self.n(),
            self.heights()[x] <= self.heights()[a],
            a != x ==> self.heights()[x] < self.heights()[a],
        decreases self.hmax() - self.heights()[x],
    {
        reveal(Overlay::wf_shape);
        if x != a {
            let q = self.parent(x)->0 as int;
            self.lemma_anc_height(a, q);
        }
    }

    proof fn lemma_anc_child(&self, a: int, y: int, k: int)
        requires
            self.wf_shape(),
            0 <= y < self.n(),
            self.anc(a, y),
            0 <= k < self.children(y).len(),
        ensures
            self.anc(a, self.children(y)[k] as int),
    {
        reveal(Overlay::wf_shape);
        self.lemma_child_edge(y, k);
    }

    proof fn lemma_anc_trans(&self, a: int, b: int, y: int)
        requires
            self.wf_shape(),
            0 <= y < self.n(),
            self.anc(a, b),
            self.anc(b, y),
        ensures
            self.anc(a, y),
        decreases self.hmax() - self.heights()[y],
    {
        if y != b {
            let q = self.parent(y)->0 as int;
            self.lemma_anc_trans(a, b, q);
        }
    }

    proof fn lemma_anc_linear(&self, a: int, b: int, y: int)
        requires
            self.wf_shape(),
            0 <= y < self.n(),
            self.anc(a, y),
            self.anc(b, y),
        ensures
            self.anc(a, b) || self.anc(b, a),
        decreases self.hmax() - self.heights()[y],
    {
        if y != a && y != b {
            let q = self.parent(y)->0 as int;
            self.lemma_anc_linear(a, b, q);
        }
    }

    /// The subtrees of two distinct children of one window share no window.
    proof fn lemma_siblings_disjoint(&self, x: int, i: int, j: int, y: int)
        requires
            self.wf_shape(),
            0 <= x < self.n(),
            0 <= i < self.children(x).len(),
            0 <= j < self.children(x).len(),
            i != j,
            0 <= y < self.n(),
            self.anc(self.children(x)[i] as int, y),
        ensures
            !self.anc(self.children(x)[j] as int, y),
    {
        reveal(Overlay::wf_shape);
        let ci = self.children(x)[i] as int;
        let cj = self.children(x)[j] as int;
        self.lemma_child_edge(x, i);
        self.lemma_child_edge(x, j);
        assert(ci != cj) by {
            assert(self.children(x).no_duplicates());
        }
        if self.anc(cj, y) {
            self.lemma_anc_linear(ci, cj, y);
            if self.anc(ci, cj) {
                self.lemma_anc_height(ci, x);
            } else {
                self.lemma_anc_height(cj, x);
            }
        }
    }

    /// A proper descendant of `x` lies under one of the children of `x`.
    proof fn lemma_anc_split(&self, x: int, y: int) -> (k: int)
        requires
            self.wf_shape(),
            0 <= x < self.n(),
            0 <= y < self.n(),
            self.anc(x, y),
            y != x,
        ensures
            0 <= k < self.children(x).len(),
            self.anc(self.children(x)[k] as int, y),
        decreases self.hmax() - self.heights()[y],
    {
        reveal(Overlay::wf_shape);
        let q = self.parent(y)->0 as int;
        self.lemma_parent_edge(y);
        if q == x {
            let k = choose|k: int| 0 <= k < self.children(x).len() && self.children(x)[k] == y as usize;
            k
        } else {
            let k = self.lemma_anc_split(x, q);
            let c = self.children(x)[k] as int;
            if y != c {
                assert(self.anc(c, y));
            }
            k
        }
    }
}


/// `b` differs from `a` at most in the resolved rectangles and vertex ranges of
/// its windows.
pub open spec fn same_tree(a: &Overlay, b: &Overlay) -> bool {
    &&& a.n() == b.n()
    &&& same_links(a, b)
    &&& a.dirty() == b.dirty()
    &&& a.needs_reindex() == b.needs_reindex()
    &&& a.vertices() == b.vertices()
    &&& a.indices() == b.indices()
    &&& forall|i: int| 0 <= i < a.n() ==> #[trigger] b.nodes()[i].name == a.nodes()[i].name
    &&& forall|i: int| 0 <= i < a.n() ==> #[trigger] b.children(i) == a.children(i)
}

/// The windows under the first `k` children of `x`, and `x` itself.
pub open spec fn covered(s: &Overlay, x: int, k: int) -> Set<int> {
    Set::new(
        |y: int|
            0 <= y < s.n() && (y == x || exists|j: int|
                0 <= j < k && #[trigger] s.anc(s.children(x)[j] as int, y)),
    )
}

impl Overlay {
    proof fn lemma_same_tree_shape(a: &Overlay, b: &Overlay)
        requires
            a.wf_shape(),
            same_tree(a, b),
        ensures
            b.wf_shape(),
            forall|u: int, x: int| 0 <= x < a.n() ==> a.anc(u, x) == #[trigger] b.anc(u, x),
            forall|x: int| 0 <= x < a.n() ==> a.resolved(x) == #[trigger] b.resolved(x),
    {
        reveal(Overlay::wf_shape);
        lemma_agree(a, b);
        assert forall|i: int| 0 <= i < b.n() && #[trigger] b.parent(i) is Some implies {
            let q = b.parent(i)->0 as int;
            &&& b.up_edge(i, q)
            &&& b.children(q).contains(i as usize)
        } by {
            assert(a.parent(i) is Some);
            let q = a.parent(i)->0 as int;
            assert(a.up_edge(i, q));
            assert(b.children(q) == a.children(q));
        }
        assert forall|i: int, k: int| 0 <= i < b.n() && 0 <= k < b.children(i).len() implies {
            let c = #[trigger] b.children(i)[k] as int;
            &&& 0 <= c < b.n()
            &&& b.parent(c) == Some(i as usize)
        } by {
            assert(b.children(i) == a.children(i));
            a.lemma_child_edge(i, k);
        }
        assert forall|i: int| 0 <= i < b.n() implies (#[trigger] b.children(i)).no_duplicates() by {
            assert(b.children(i) == a.children(i));
            assert(a.children(i).no_duplicates());
        }
        assert forall|i: int| 0 <= i < b.n() implies #[trigger] b.heights()[i] <= b.hmax() by {
            assert(b.parent(i) == a.parent(i));
            assert(a.heights()[i] <= a.hmax());
        }
    }

    /// Lays out the subtree under `x`: resolves each window from its parent,
    /// appends its quad to `out`, and records its vertex range, in pre-order.
    fn layout_subtree(
        &mut self,
        x: usize,
        parent_rect: Option<Rect>,
        out: &mut Vec<Vertex>,
        Ghost(visited): Ghost<Set<int>>,
    )
        requires
            old(self).wf_shape(),
            x < old(self).n(),
            parent_rect == old(self).parent_rect(x as int),
            visited.subset_of(set_int_range(0, old(self).n())),
            forall|y: int| visited.contains(y) ==> !old(self).anc(x as int, y),
            old(out)@.len() == 4 * visited.len(),
        ensures
            final(self).wf_shape(),
            same_tree(old(self), final(self)),
            forall|y: int|
                0 <= y < old(self).n() && !old(self).anc(x as int, y) ==> #[trigger] final(self).nodes()[y]
                    == old(self).nodes()[y],
            final(out)@.len() == 4 * visited.union(old(self).subtree(x as int)).len(),
            final(out)@.len() >= old(out)@.len(),
            final(out)@.subrange(0, old(out)@.len() as int) == old(out)@,
            final(self).begin(x as int) == old(out)@.len(),
            final(self).end(x as int) == final(out)@.len(),
            forall|y: int|
                #![trigger old(self).anc(x as int, y)]
                0 <= y < old(self).n() && old(self).anc(x as int, y) ==> final(self).laid_out(y)
                    && final(self).drawn_in(y, final(out)@),
        decreases self.heights()[x as int],
    {
        let ghost s0 = *self;
        let ghost out0 = out@;
        proof {
            s0.lemma_wf_basics();
            if let Some(p) = parent_rect {
                let q = s0.parent(x as int)->0 as int;
                s0.lemma_parent_edge(x as int);
                lemma_resolve_ok(s0.nodes()[q].params, s0.parent_rect(q));
            }
            lemma_int_range(0, s0.n());
            lemma_len_subset(visited, set_int_range(0, s0.n()));
        }
        let r = resolve_rect(&self.nodes[x].params, parent_rect);
        assert(r == s0.resolved(x as int));
        let begin = out.len();
        let ghost sa = *self;
        self.nodes[x].rect = r;
        self.nodes[x].vertex_begin = begin;
        let corners = quad(&self.nodes[x].params, r);
        out.push(corners[0]);
        out.push(corners[1]);
        out.push(corners[2]);
        out.push(corners[3]);
        let ghost out1 = out@;
        let ghost mut vk = visited.insert(x as int);
        proof {
            let sb = *self;
            assert forall|i: int| 0 <= i < sb.n() && i != x implies #[trigger] sb.nodes()[i] == sa.nodes()[i] by {}
            assert(sb.nodes()[x as int].name == sa.nodes()[x as int].name);
            assert(sb.nodes()[x as int].params == sa.nodes()[x as int].params);
            assert(sb.children(x as int) == sa.children(x as int));
            assert(sb.parent(x as int) == sa.parent(x as int));
            assert(same_tree(&s0, &sb));
            Self::lemma_same_tree_shape(&s0, self);
            assert(!visited.contains(x as int));
            assert(vk =~= visited.union(covered(&s0, x as int, 0)));
        }
        let n_children = self.nodes[x].children.len();
        let mut k: usize = 0;
        while k < n_children
            invariant
                s0 == *old(self),
                s0.wf_shape(),
                x < s0.n(),
                n_children == s0.children(x as int).len(),
                0 <= k <= n_children,
                self.wf_shape(),
                same_tree(&s0, self),
                forall|y: int|
                    0 <= y < s0.n() && !s0.anc(x as int, y) ==> #[trigger] self.nodes()[y]
                        == s0.nodes()[y],
                r == s0.resolved(x as int),
                self.nodes()[x as int].rect == r,
                self.begin(x as int) == out0.len(),
                out1.len() == out0.len() + 4,
                out1.subrange(0, out0.len() as int) == out0,
                forall|j: int|
                    0 <= j < 4 ==> out1[out0.len() + j] == #[trigger] corner(
                        s0.nodes()[x as int].params,
                        r,
                        j,
                    ),
                out@.len() >= out1.len(),
                out@.subrange(0, out1.len() as int) == out1,
                vk == visited.union(covered(&s0, x as int, k as int)),
                visited.subset_of(set_int_range(0, s0.n())),
                forall|y: int| visited.contains(y) ==> !s0.anc(x as int, y),
                out@.len() == 4 * vk.len(),
                self.child_start(x as int, k as int) == out@.len(),
                forall|j: int|
                    0 <= j < k ==> self.begin(#[trigger] self.children(x as int)[j] as int)
                        == self.child_start(x as int, j),
                forall|y: int|
                    #![trigger covered(&s0, x as int, k as int).contains(y)]
                    y != x && covered(&s0, x as int, k as int).contains(y) ==> self.laid_out(y)
                        && self.drawn_in(y, out@),
            decreases n_children - k,
        {
            let c = self.nodes[x].children[k];
            let ghost sk = *self;
            let ghost outk = out@;
            proof {
                s0.lemma_child_edge(x as int, k as int);
                assert(sk.children(x as int) == s0.children(x as int));
                assert(c == s0.children(x as int)[k as int]);
                Self::lemma_same_tree_shape(&s0, &sk);
                assert forall|y: int| vk.contains(y) implies !sk.anc(c as int, y) by {
                    if 0 <= y < s0.n() {
                        assert(sk.anc(c as int, y) == s0.anc(c as int, y));
                    }
                    if s0.anc(c as int, y) {
                        if visited.contains(y) {
                            s0.lemma_anc_child(x as int, x as int, k as int);
                            s0.lemma_anc_trans(x as int, c as int, y);
                        } else if y == x as int {
                            s0.lemma_anc_height(c as int, y);
                        } else {
                            let j = choose|j: int|
                                0 <= j < k && #[trigger] s0.anc(s0.children(x as int)[j] as int, y);
                            s0.lemma_siblings_disjoint(x as int, j, k as int, y);
                        }
                    }
                }
                assert(vk.subset_of(set_int_range(0, s0.n())));
                assert(sk.heights()[c as int] == s0.heights()[c as int]);
                assert(s0.heights()[c as int] < s0.heights()[x as int]);
            }
            self.layout_subtree(c, Some(r), out, Ghost(vk));
            proof {
                let s2 = *self;
                Self::lemma_same_tree_shape(&s0, &s2);
                Self::lemma_same_tree_shape(&sk, &s2);
                assert(sk.subtree(c as int) =~= s0.subtree(c as int));
                let vk2 = vk.union(sk.subtree(c as int));
                assert(vk2 =~= visited.union(covered(&s0, x as int, k as int + 1)));
                vk = vk2;
                assert(out@.subrange(0, out1.len() as int) =~= out1) by {
                    assert(out@.subrange(0, outk.len() as int) == outk);
                    assert(outk.subrange(0, out1.len() as int) == out1);
                }
                // windows covered before this child keep their layout
                assert forall|y: int|
                    #![trigger covered(&s0, x as int, k as int + 1).contains(y)]
                    y != x && covered(&s0, x as int, k as int + 1).contains(y) implies self.laid_out(y)
                        && self.drawn_in(y, out@) by {
                    if s0.anc(c as int, y) {
                    } else {
                        let j = choose|j: int|
                            0 <= j < k + 1 && #[trigger] s0.anc(s0.children(x as int)[j] as int, y);
                        assert(j < k);
                        assert(covered(&s0, x as int, k as int).contains(y));
                        assert(sk.laid_out(y) && sk.drawn_in(y, outk));
                        let cj = s0.children(x as int)[j] as int;
                        assert forall|m: int| 0 <= m < s0.children(y).len() implies !s0.anc(
                            c as int,
                            #[trigger] s0.children(y)[m] as int,
                        ) by {
                            s0.lemma_anc_child(cj, y, m);
                            s0.lemma_child_edge(y, m);
                            s0.lemma_siblings_disjoint(x as int, j, k as int, s0.children(y)[m] as int);
                        }
                        s0.lemma_siblings_disjoint(x as int, j, k as int, y);
                        assert(s2.nodes()[y] == sk.nodes()[y]);
                        assert forall|m: int| 0 <= m < s0.children(y).len() implies s2.nodes()[#[trigger] s0.children(y)[m] as int]
                            == sk.nodes()[s0.children(y)[m] as int] by {
                            s0.lemma_child_edge(y, m);
                        }
                        assert(s2.children(y) == sk.children(y));
                        assert(s2.laid_out(y));
                        assert forall|i: int| 0 <= i < 4 implies #[trigger] out@[sk.begin(y) + i] == outk[sk.begin(y) + i] by {
                            assert(out@.subrange(0, outk.len() as int)[sk.begin(y) + i] == outk[sk.begin(y) + i]);
                        }
                    }
                }
                assert(!s0.anc(c as int, x as int)) by {
                    if s0.anc(c as int, x as int) {
                        s0.lemma_anc_height(c as int, x as int);
                    }
                }
                assert(s2.nodes()[x as int] == sk.nodes()[x as int]);
                assert(s2.children(x as int) == sk.children(x as int));
                assert forall|j: int|
                    0 <= j < k + 1 implies #[trigger] s2.nodes()[s0.children(x as int)[j] as int]
                        == sk.nodes()[s0.children(x as int)[j] as int] || j == k by {
                    if j < k {
                        let cj = s0.children(x as int)[j] as int;
                        s0.lemma_child_edge(x as int, j);
                        assert(s0.anc(cj, cj));
                        s0.lemma_siblings_disjoint(x as int, j, k as int, cj);
                    }
                }
                assert forall|j: int|
                    0 <= j < k + 1 implies s2.begin(#[trigger] s2.children(x as int)[j] as int)
                        == s2.child_start(x as int, j) by {
                    if j < k {
                        assert(s2.nodes()[s0.children(x as int)[j] as int]
                            == sk.nodes()[s0.children(x as int)[j] as int]);
                        assert(sk.begin(sk.children(x as int)[j] as int) == sk.child_start(x as int, j));
                    }
                    if j > 0 {
                        assert(s2.nodes()[s0.children(x as int)[j - 1] as int]
                            == sk.nodes()[s0.children(x as int)[j - 1] as int]);
                    }
                }
                assert(s2.child_start(x as int, k as int + 1) == out@.len());
                assert forall|y: int| 0 <= y < s0.n() && !s0.anc(x as int, y) implies #[trigger] s2.nodes()[y]
                    == s0.nodes()[y] by {
                    if s0.anc(c as int, y) {
                        s0.lemma_anc_child(x as int, x as int, k as int);
                        s0.lemma_anc_trans(x as int, c as int, y);
                    }
                    assert(sk.nodes()[y] == s0.nodes()[y]);
                }
            }
            k += 1;
        }
        let ghost sl = *self;
        self.nodes[x].vertex_end = out.len();
        proof {
            let s3 = *self;
            assert forall|i: int| 0 <= i < s3.n() && i != x implies #[trigger] s3.nodes()[i] == sl.nodes()[i] by {}
            assert(s3.nodes()[x as int].name == sl.nodes()[x as int].name);
            assert(s3.nodes()[x as int].params == sl.nodes()[x as int].params);
            assert(s3.children(x as int) == sl.children(x as int));
            assert(s3.parent(x as int) == sl.parent(x as int));
            assert(same_tree(&sl, &s3));
            Self::lemma_same_tree_shape(&s0, &s3);
            assert(covered(&s0, x as int, n_children as int) =~= s0.subtree(x as int)) by {
                assert forall|y: int| s0.subtree(x as int).contains(y) implies covered(&s0, x as int, n_children as int).contains(y) by {
                    if y != x {
                        let j = s0.lemma_anc_split(x as int, y);
                    }
                }
                assert forall|y: int| covered(&s0, x as int, n_children as int).contains(y) implies s0.subtree(x as int).contains(y) by {
                    if y != x {
                        let j = choose|j: int|
                            0 <= j < n_children && #[trigger] s0.anc(s0.children(x as int)[j] as int, y);
                        s0.lemma_child_edge(x as int, j);
                        assert(s0.anc(x as int, s0.children(x as int)[j] as int));
                        s0.lemma_anc_trans(x as int, s0.children(x as int)[j] as int, y);
                    }
                }
            }
            assert forall|y: int|
                #![trigger s0.anc(x as int, y)]
                0 <= y < s0.n() && s0.anc(x as int, y) implies s3.laid_out(y) && s3.drawn_in(y, out@) by {
                if y == x {
                    assert forall|m: int| 0 <= m < s0.children(x as int).len() implies #[trigger] s3.nodes()[s0.children(x as int)[m] as int]
                        == sl.nodes()[s0.children(x as int)[m] as int] by {
                        s0.lemma_child_edge(x as int, m);
                    }
                    assert(s3.children(x as int) == s0.children(x as int));
                    assert(sl.children(x as int) == s0.children(x as int));
                    assert forall|m: int| 0 <= m < s3.children(x as int).len() implies s3.begin(#[trigger] s3.children(x as int)[m] as int)
                        == s3.child_start(x as int, m) by {
                        assert(sl.begin(sl.children(x as int)[m] as int) == sl.child_start(x as int, m));
                        if m > 0 {
                            assert(s3.nodes()[s0.children(x as int)[m - 1] as int]
                                == sl.nodes()[s0.children(x as int)[m - 1] as int]);
                        }
                    }
                    if n_children > 0 {
                        assert(s3.nodes()[s0.children(x as int)[n_children - 1] as int]
                            == sl.nodes()[s0.children(x as int)[n_children - 1] as int]);
                    }
                    assert(s3.laid_out(x as int));
                    assert(s3.resolved(x as int) == s0.resolved(x as int));
                    assert forall|i: int| 0 <= i < 4 implies #[trigger] out@[out0.len() + i] == out1[out0.len() + i] by {
                        assert(out@.subrange(0, out1.len() as int)[out0.len() + i] == out1[out0.len() + i]);
                    }
                } else {
                    assert(covered(&s0, x as int, n_children as int).contains(y));
                    assert(sl.laid_out(y) && sl.drawn_in(y, out@));
                    let j = s0.lemma_anc_split(x as int, y);
                    let cj = s0.children(x as int)[j] as int;
                    s0.lemma_child_edge(x as int, j);
                    assert(!s0.anc(cj, x as int)) by {
                        if s0.anc(cj, x as int) {
                            s0.lemma_anc_height(cj, x as int);
                        }
                    }
                    assert forall|m: int| 0 <= m < s0.children(y).len() implies #[trigger] s3.nodes()[s0.children(y)[m] as int]
                        == sl.nodes()[s0.children(y)[m] as int] by {
                        s0.lemma_anc_child(cj, y, m);
                        s0.lemma_child_edge(y, m);
                    }
                    assert(s3.nodes()[y] == sl.nodes()[y]);
                    assert(s3.children(y) == s0.children(y));
                    Self::lemma_same_tree_shape(&s0, &sl);
                }
            }
            assert(out@.subrange(0, out0.len() as int) =~= out0) by {
                assert(out@.subrange(0, out1.len() as int) == out1);
            }
        }
    }
}


/// The vertex ranges of the windows in `ds` that are in the tree, in order.
pub open spec fn ranges_of(s: &Overlay, ds: Seq<usize>) -> Seq<(usize, usize)>
    decreases ds.len(),
{
    if ds.len() == 0 {
        Seq::empty()
    } else {
        let d = ds.last() as int;
        let rest = ranges_of(s, ds.drop_last());
        if s.attached(d) {
            rest.push((s.nodes()[d].vertex_begin, s.nodes()[d].vertex_end))
        } else {
            rest
        }
    }
}

/// What `update` does, given the overlay before and after it and its result.
pub open spec fn update_post(before: &Overlay, after: &Overlay, r: &Upload) -> bool {
    &&& after.wf()
    &&& after.is_clean()
    &&& before.is_clean() ==> r is Nothing && after == before
    &&& before.needs_reindex() ==> r is Full
    &&& !before.is_clean() ==> {
        &&& after.n() == before.n()
        &&& forall|i: int|
            0 <= i < before.n() ==> {
                &&& #[trigger] after.nodes()[i].name == before.nodes()[i].name
                &&& after.nodes()[i].params == before.nodes()[i].params
                &&& after.nodes()[i].parent == before.nodes()[i].parent
                &&& after.children(i) == before.children(i)
            }
        &&& forall|i: int|
            0 <= i < before.n() && !before.attached(i) ==> #[trigger] after.nodes()[i]
                == before.nodes()[i]
    }
    &&& !before.needs_reindex() ==> {
        &&& after.vertices().len() == before.vertices().len()
        &&& forall|x: int|
            #[trigger] after.attached(x) ==> after.begin(x) == before.begin(x) && after.end(x)
                == before.end(x)
    }
    &&& !before.needs_reindex() && before.dirty().len() > 0 ==> (r matches Upload::Partial(v) && v@
        == ranges_of(after, before.dirty()) && forall|i: int|
        0 <= i < before.vertices().len() && !in_ranges(v@, i) ==> #[trigger] after.vertices()[i]
            == before.vertices()[i])
}

proof fn lemma_div6(q: int, m: int)
    requires
        0 <= m < 6,
    ensures
        (6 * q + m) / 6 == q,
        (6 * q + m) % 6 == m,
{
    lemma_fundamental_div_mod_converse(6 * q + m, 6, q, m);
}

/// The triangle indices for `quads` quads.
fn build_indices(quads: usize) -> (v: Vec<u32>)
    requires
        quads <= MAX_WINDOWS,
    ensures
        v@ == Overlay::index_pattern(quads as int),
{
    let mut v: Vec<u32> = Vec::new();
    let mut i: usize = 0;
    while i < quads
        invariant
            i <= quads <= MAX_WINDOWS,
            v@ =~= Overlay::index_pattern(i as int),
        decreases quads - i,
    {
        let b = 4 * i as u32;
        v.push(b);
        v.push(b + 1);
        v.push(b + 2);
        v.push(b);
        v.push(b + 2);
        v.push(b + 3);
        proof {
            assert forall|m: int| 0 <= m < 6 implies #[trigger] v@[6 * i + m] == Overlay::index_pattern(
                i as int + 1,
            )[6 * i + m] by {
                lemma_div6(i as int, m);
            }
            assert forall|j: int| 0 <= j < 6 * i implies #[trigger] v@[j] == Overlay::index_pattern(
                i as int + 1,
            )[j] by {
                assert(v@[j] == Overlay::index_pattern(i as int)[j]);
            }
            assert(v@ =~= Overlay::index_pattern(i as int + 1)) by {
                assert forall|j: int| 0 <= j < v@.len() implies #[trigger] v@[j] == Overlay::index_pattern(
                    i as int + 1,
                )[j] by {
                    if j >= 6 * i {
                        assert(v@[6 * i + (j - 6 * i)] == Overlay::index_pattern(i as int + 1)[6 * i + (j - 6 * i)]);
                    }
                }
            }
        }
        i += 1;
    }
    v
}

impl Overlay {
    /// Walks up from `x`; tells whether `a` is `x` or one of its ancestors.
    fn is_ancestor(&self, a: usize, x: usize) -> (r: bool)
        requires
            self.wf_shape(),
            x < self.n(),
        ensures
            r == self.anc(a as int, x as int),
    {
        let mut cur = x;
        loop
            invariant
                self.wf_shape(),
                cur < self.n(),
                self.anc(a as int, x as int) == self.anc(a as int, cur as int),
            decreases self.hmax() - self.heights()[cur as int],
        {
            if cur == a {
                return true;
            }
            match self.nodes[cur].parent {
                None => {
                    return false;
                },
                Some(q) => {
                    proof {
                        self.lemma_parent_edge(cur as int);
                    }
                    cur = q;
                },
            }
        }
    }

    /// The vertex ranges of the dirty windows that are in the tree.
    fn dirty_ranges(&self, dirty: &Vec<usize>) -> (v: Vec<(usize, usize)>)
        requires
            self.wf_shape(),
            forall|k: int| 0 <= k < dirty@.len() ==> #[trigger] dirty@[k] < self.n(),
        ensures
            v@ == ranges_of(self, dirty@),
    {
        let mut v: Vec<(usize, usize)> = Vec::new();
        let mut k: usize = 0;
        while k < dirty.len()
            invariant
                self.wf_shape(),
                forall|j: int| 0 <= j < dirty@.len() ==> #[trigger] dirty@[j] < self.n(),
                k <= dirty@.len(),
                v@ == ranges_of(self, dirty@.subrange(0, k as int)),
            decreases dirty@.len() - k,
        {
            let d = dirty[k];
            proof {
                assert(dirty@.subrange(0, k as int + 1).drop_last() =~= dirty@.subrange(0, k as int));
            }
            if self.is_ancestor(0, d) {
                v.push((self.nodes[d].vertex_begin, self.nodes[d].vertex_end));
            }
            k += 1;
        }
        proof {
            assert(dirty@.subrange(0, dirty@.len() as int) =~= dirty@);
        }
        v
    }

    /// Brings the vertex and index buffers up to date, and tells what to upload.
    ///
    /// After a change of the tree's shape every window is laid out anew and the
    /// whole buffer is to be written. After parameter changes only, the ranges of
    /// the changed windows are listed. Otherwise nothing is to be written.
    pub fn update(&mut self) -> (r: Upload)
        requires
            old(self).wf(),
        ensures
            update_post(old(self), final(self), &r),
    {
        if !self.needs_reindex && self.dirty.len() == 0 {
            return Upload::Nothing;
        }
        let ghost s0 = *self;
        proof {
            s0.lemma_wf_basics();
        }
        let mut out: Vec<Vertex> = Vec::new();
        proof {
            assert(Set::<int>::empty().subset_of(set_int_range(0, s0.n())));
            assert(Set::<int>::empty().len() == 0);
        }
        self.layout_subtree(0, None, &mut out, Ghost(Set::empty()));
        let ghost s1 = *self;
        proof {
            Self::lemma_same_tree_shape(&s0, &s1);
            lemma_int_range(0, s0.n());
            assert(Set::<int>::empty().union(s0.subtree(0)) =~= s0.subtree(0));
            lemma_len_subset(s0.subtree(0), set_int_range(0, s0.n()));
        }
        let quads = out.len() / 4;
        self.vertices = out;
        self.indices = build_indices(quads);
        let was_reindex = self.needs_reindex;
        self.needs_reindex = false;
        let mut dirty: Vec<usize> = Vec::new();
        core::mem::swap(&mut dirty, &mut self.dirty);
        proof {
            let s2 = *self;
            assert(same_links(&s1, &s2));
            lemma_agree(&s1, &s2);
            reveal(Overlay::wf_shape);
            assert(s2.wf_shape());
            assert forall|x: int| #[trigger] s2.attached(x) implies s2.laid_out(x) && s2.drawn_in(x, s2.vertices()) by {
                assert(s0.anc(0, x));
                assert(s1.laid_out(x));
            }
            assert(s2.buffers_current());
        }
        if was_reindex {
            Upload::Full
        } else {
            let ranges = self.dirty_ranges(&dirty);
            proof {
                let s2 = *self;
                assert(same_shape(&s0, &s2));
                lemma_partial_frame(&s0, &s2, ranges@);
            }
            Upload::Partial(ranges)
        }
    }
}


/// The parameters of the root window of a `width` by `height` viewport.
pub open spec fn root_params(width: u32, height: u32) -> WindowParams {
    WindowParams {
        pos: Layout { x: Term { w: 0, h: 0, px: 0 }, y: Term { w: 0, h: 0, px: 0 } },
        size: Layout {
            x: Term { w: 0, h: 0, px: width as i32 },
            y: Term { w: 0, h: 0, px: height as i32 },
        },
        color: [Rgba { r: 0, g: 0, b: 0, a: 0 }, Rgba { r: 0, g: 0, b: 0, a: 0 }, Rgba { r: 0, g: 0, b: 0, a: 0 }, Rgba { r: 0, g: 0, b: 0, a: 0 }],
        texcoord: [Point { x: 0, y: 0 }, Point { x: 0, y: 0 }, Point { x: 0, y: 0 }, Point { x: 0, y: 0 }],
        shown: true,
    }
}

/// The path separator.
pub const SEPARATOR: char = '/';

/// `p` has a child whose name is `name`.
pub open spec fn has_child_named(s: &Overlay, p: int, name: Seq<char>) -> bool {
    exists|k: int|
        0 <= k < s.children(p).len() && (#[trigger] s.nodes()[s.children(p)[k] as int]).name@ == name
}

/// Which error `attach(parent, child)` gives, when it gives one of those that
/// depend on the inputs alone.
pub open spec fn attach_refusal(s: &Overlay, parent: usize, child: usize) -> Option<OverlayError> {
    if parent >= s.n() {
        Some(OverlayError::NoSuchWindow { index: parent })
    } else if child >= s.n() {
        Some(OverlayError::NoSuchWindow { index: child })
    } else if s.parent(child as int) is Some {
        Some(OverlayError::AlreadyAttached { child, parent: s.parent(child as int)->0 })
    } else {
        None
    }
}

impl Overlay {
    /// A new overlay covering a `width` by `height` viewport, holding only the
    /// root window, already laid out: the root's quad fills the viewport and the
    /// buffers hold it.
    pub fn new(width: u32, height: u32) -> (r: Overlay)
        requires
            width <= i32::MAX,
            height <= i32::MAX,
        ensures
            r.wf(),
            r.n() == 1,
            r.nodes()[0].name@ == Seq::<char>::empty(),
            r.nodes()[0].params == root_params(width, height),
            r.children(0).len() == 0,
            r.parent(0) is None,
            r.is_clean(),
            r.nodes()[0].rect == (Rect {
                pos: Point { x: 0, y: 0 },
                size: Point { x: width as i64, y: height as i64 },
            }),
            r.begin(0) == 0,
            r.end(0) == 4,
            r.vertices().len() == 4,
            forall|k: int|
                0 <= k < 4 ==> #[trigger] r.vertices()[k] == corner(
                    root_params(width, height),
                    r.nodes()[0].rect,
                    k,
                ),
            r.indices() == Overlay::index_pattern(1),
    {
        let zero = Term { w: 0, h: 0, px: 0 };
        let params = WindowParams {
            pos: Layout { x: zero, y: zero },
            size: Layout {
                x: Term { w: 0, h: 0, px: width as i32 },
                y: Term { w: 0, h: 0, px: height as i32 },
            },
            color: [Rgba { r: 0, g: 0, b: 0, a: 0 }; 4],
            texcoord: [Point { x: 0, y: 0 }; 4],
            shown: true,
        };
        let root = WindowNode {
            name: String::new(),
            params,
            rect: Rect { pos: Point { x: 0, y: 0 }, size: Point { x: 0, y: 0 } },
            children: Vec::new(),
            parent: None,
            vertex_begin: 0,
            vertex_end: 0,
        };
        let mut nodes: Vec<WindowNode> = Vec::new();
        nodes.push(root);
        let mut r = Overlay {
            nodes,
            dirty: Vec::new(),
            needs_reindex: true,
            vertices: Vec::new(),
            indices: Vec::new(),
            heights: Ghost(Seq::empty().push(0nat)),
            hmax: Ghost(0nat),
        };
        proof {
            reveal(Overlay::wf_shape);
            assert(r.nodes()[0].params.color =~= root_params(width, height).color);
            assert(r.nodes()[0].params.texcoord =~= root_params(width, height).texcoord);
        }
        let ghost r0 = r;
        let _ = r.update();
        proof {
            r.lemma_wf_basics();
            assert(!r0.is_clean());
            assert(r.nodes()[0].name == r0.nodes()[0].name);
            assert(r.nodes()[0].params == r0.nodes()[0].params);
            assert(r.children(0) == r0.children(0));
            assert(r.parent(0) == r0.parent(0));
            assert(r.attached(0));
            assert(r.laid_out(0));
            assert(!r.dirty_covers(0));
            assert(r.drawn_in(0, r.vertices()));
            assert(r.resolved(0) == resolve(root_params(width, height), None));
        }
        r
    }

    /// How many windows the arena holds.
    pub fn len(&self) -> (r: usize)
        ensures
            r == self.n(),
    {
        self.nodes.len()
    }

    /// Adds a detached window to the arena and returns its index.
    pub fn make_window(&mut self, name: &str, params: WindowParams) -> (r: usize)
        requires
            old(self).wf(),
            old(self).n() < MAX_WINDOWS,
            !name@.contains(SEPARATOR),
        ensures
            final(self).wf(),
            r == old(self).n(),
            final(self).n() == old(self).n() + 1,
            final(self).nodes()[r as int].name@ == name@,
            final(self).nodes()[r as int].params == params,
            final(self).parent(r as int) is None,
            final(self).children(r as int).len() == 0,
            forall|i: int| 0 <= i < old(self).n() ==> #[trigger] final(self).nodes()[i] == old(self).nodes()[i],
            final(self).dirty() == old(self).dirty(),
            final(self).needs_reindex() == old(self).needs_reindex(),
            final(self).vertices() == old(self).vertices(),
            final(self).indices() == old(self).indices(),
    {
        let ghost s0 = *self;
        let node = WindowNode {
            name: name.to_owned(),
            params,
            rect: Rect { pos: Point { x: 0, y: 0 }, size: Point { x: 0, y: 0 } },
            children: Vec::new(),
            parent: None,
            vertex_begin: 0,
            vertex_end: 0,
        };
        let r = self.nodes.len();
        self.nodes.push(node);
        self.heights = Ghost(self.heights@.push(0nat));
        proof {
            let s1 = *self;
            s0.lemma_wf_basics();
            assert(same_links(&s0, &s1));
            lemma_agree(&s0, &s1);
            assert(s1.wf_shape()) by {
                reveal(Overlay::wf_shape);
                assert forall|i: int, k: int| 0 <= i < s1.n() && 0 <= k < s1.children(i).len() implies {
                    let c = #[trigger] s1.children(i)[k] as int;
                    &&& 0 <= c < s1.n()
                    &&& s1.parent(c) == Some(i as usize)
                } by {
                    assert(s1.nodes()[i] == s0.nodes()[i]);
                    s0.lemma_child_edge(i, k);
                }
                assert forall|i: int| 0 <= i < s1.n() && #[trigger] s1.parent(i) is Some implies {
                    let q = s1.parent(i)->0 as int;
                    &&& s1.up_edge(i, q)
                    &&& s1.children(q).contains(i as usize)
                } by {
                    s0.lemma_parent_edge(i);
                    assert(s1.nodes()[s1.parent(i)->0 as int] == s0.nodes()[s0.parent(i)->0 as int]);
                }
                assert forall|i: int| 0 <= i < s1.n() implies (#[trigger] s1.children(i)).no_duplicates() by {
                    if i < s0.n() {
                        assert(s1.nodes()[i] == s0.nodes()[i]);
                    }
                }
            }
            if !s0.needs_reindex() {
                assert forall|x: int| #[trigger] s1.attached(x) implies s1.laid_out(x) && 0 <= s1.begin(x)
                    && s1.begin(x) + 4 <= s1.end(x) && (!s1.dirty_covers(x) ==> s1.drawn_in(x, s1.vertices())) by {
                    if x == r {
                        assert(!s1.anc(0, x));
                    } else {
                        assert(s0.attached(x));
                        assert(s1.nodes()[x] == s0.nodes()[x]);
                        assert forall|k: int| 0 <= k < s0.children(x).len() implies #[trigger] s1.nodes()[s0.children(x)[k] as int]
                            == s0.nodes()[s0.children(x)[k] as int] by {
                            s0.lemma_child_edge(x, k);
                        }
                        assert(s0.laid_out(x));
                        if !s1.dirty_covers(x) {
                            if s0.dirty_covers(x) {
                                let k = choose|k: int| 0 <= k < s0.dirty().len() && #[trigger] s0.anc(s0.dirty()[k] as int, x);
                                assert(s1.anc(s1.dirty()[k] as int, x));
                            }
                        }
                    }
                }
                assert(s1.nodes()[0] == s0.nodes()[0]);
            }
            assert forall|p: int, a: int, b: int|
                0 <= p < s1.n() && 0 <= a < b < s1.children(p).len() implies (#[trigger] s1.nodes()[s1.children(
                    p,
                )[a] as int]).name@ != (#[trigger] s1.nodes()[s1.children(p)[b] as int]).name@ by {
                assert(p < s0.n());
                assert(s1.nodes()[p] == s0.nodes()[p]);
                s0.lemma_child_edge(p, a);
                s0.lemma_child_edge(p, b);
                assert(s1.nodes()[s0.children(p)[a] as int] == s0.nodes()[s0.children(p)[a] as int]);
                assert(s1.nodes()[s0.children(p)[b] as int] == s0.nodes()[s0.children(p)[b] as int]);
            }
        }
        r
    }
}


/// The change that a successful `attach(parent, child)` makes.
pub open spec fn attach_post(before: &Overlay, after: &Overlay, parent: usize, child: usize) -> bool {
    &&& after.n() == before.n()
    &&& after.needs_reindex()
    &&& after.dirty() == before.dirty()
    &&& after.children(parent as int) == before.children(parent as int).push(child)
    &&& after.parent(child as int) == Some(parent)
    &&& forall|i: int|
        0 <= i < before.n() && i != parent ==> #[trigger] after.children(i) == before.children(i)
    &&& forall|i: int| 0 <= i < before.n() && i != child ==> #[trigger] after.parent(i) == before.parent(i)
    &&& forall|i: int|
        0 <= i < before.n() ==> #[trigger] after.nodes()[i].name == before.nodes()[i].name
            && after.nodes()[i].params == before.nodes()[i].params
}

/// The change that a successful `detach(parent, child)` makes.
pub open spec fn detach_post(before: &Overlay, after: &Overlay, parent: usize, child: usize) -> bool {
    &&& after.n() == before.n()
    &&& after.needs_reindex()
    &&& after.dirty() == before.dirty()
    &&& exists|k: int|
        0 <= k < before.children(parent as int).len() && before.children(parent as int)[k] == child
            && after.children(parent as int) == before.children(parent as int).remove(k)
    &&& after.parent(child as int) is None
    &&& forall|i: int|
        0 <= i < before.n() && i != parent ==> #[trigger] after.children(i) == before.children(i)
    &&& forall|i: int| 0 <= i < before.n() && i != child ==> #[trigger] after.parent(i) == before.parent(i)
    &&& forall|i: int|
        0 <= i < before.n() ==> #[trigger] after.nodes()[i].name == before.nodes()[i].name
            && after.nodes()[i].params == before.nodes()[i].params
}

impl Overlay {
    /// Attaches `child` as the last child of `parent`.
    ///
    /// Refused, leaving the overlay as it was, when an index names no window,
    /// when `child` already has a parent, when `parent` already has a child of
    /// the same name, or when `child` is the root or an ancestor of `parent`.
    pub fn attach(&mut self, parent: usize, child: usize) -> (r: Result<(), OverlayError>)
        requires
            old(self).wf(),
        ensures
            final(self).wf(),
            attach_refusal(old(self), parent, child) matches Some(e) ==> r == Err::<(), OverlayError>(e),
            attach_refusal(old(self), parent, child) is None ==> if has_child_named(
                old(self),
                parent as int,
                old(self).nodes()[child as int].name@,
            ) {
                r matches Err(OverlayError::NameTaken { child: c, sibling }) && c == child
                    && old(self).children(parent as int).contains(sibling)
                    && old(self).nodes()[sibling as int].name@ == old(self).nodes()[child as int].name@
            } else if child == 0 || old(self).anc(child as int, parent as int) {
                r == Err::<(), OverlayError>(OverlayError::WouldCycle { child, parent })
            } else {
                r is Ok
            },
            r is Err ==> *final(self) == *old(self),
            r is Ok ==> attach_post(old(self), final(self), parent, child),
    {
        if parent >= self.nodes.len() {
            return Err(OverlayError::NoSuchWindow { index: parent });
        }
        if child >= self.nodes.len() {
            return Err(OverlayError::NoSuchWindow { index: child });
        }
        if let Some(q) = self.nodes[child].parent {
            return Err(OverlayError::AlreadyAttached { child, parent: q });
        }
        let found = self.first_child_named(parent, &self.nodes[child].name);
        proof {
            lemma_first_named(self, parent as int, self.nodes()[child as int].name@, 0);
        }
        if let Some(sibling) = found {
            return Err(OverlayError::NameTaken { child, sibling });
        }
        if child == 0 || self.is_ancestor(child, parent) {
            return Err(OverlayError::WouldCycle { child, parent });
        }
        let ghost s0 = *self;
        let ghost shift: nat = if s0.heights()[child as int] + 1 > s0.heights()[parent as int] {
            (s0.heights()[child as int] + 1 - s0.heights()[parent as int]) as nat
        } else {
            0nat
        };
        self.nodes[parent].children.push(child);
        self.nodes[child].parent = Some(parent);
        self.needs_reindex = true;
        self.heights = Ghost(
            Seq::new(
                s0.n() as nat,
                |y: int|
                    if s0.anc(child as int, y) {
                        s0.heights()[y]
                    } else {
                        s0.heights()[y] + shift
                    },
            ),
        );
        self.hmax = Ghost(s0.hmax() + shift);
        proof {
            let s1 = *self;
            s0.lemma_wf_basics();
            assert(parent != child);
            assert forall|i: int| 0 <= i < s0.n() && i != parent implies #[trigger] s1.nodes()[i].children
                == s0.nodes()[i].children by {}
            assert forall|i: int| 0 <= i < s0.n() && i != child implies #[trigger] s1.nodes()[i].parent
                == s0.nodes()[i].parent by {}
            assert(s1.children(parent as int) == s0.children(parent as int).push(child));
            assert(!s0.children(parent as int).contains(child)) by {
                reveal(Overlay::wf_shape);
                if s0.children(parent as int).contains(child) {
                    let k = choose|k: int| 0 <= k < s0.children(parent as int).len()
                        && s0.children(parent as int)[k] == child;
                    s0.lemma_child_edge(parent as int, k);
                }
            }
            assert(s1.wf_shape()) by {
                reveal(Overlay::wf_shape);
                assert forall|i: int| 0 <= i < s1.n() && #[trigger] s1.parent(i) is Some implies {
                    let q = s1.parent(i)->0 as int;
                    &&& s1.up_edge(i, q)
                    &&& s1.children(q).contains(i as usize)
                } by {
                    if i != child {
                        let q = s0.parent(i)->0 as int;
                        s0.lemma_parent_edge(i);
                        assert(s1.children(q).contains(i as usize)) by {
                            if q == parent {
                                let k = choose|k: int| 0 <= k < s0.children(q).len()
                                    && s0.children(q)[k] == i as usize;
                                assert(s1.children(q)[k] == i as usize);
                            }
                        }
                    } else {
                        assert(s1.children(parent as int)[s0.children(parent as int).len() as int] == child);
                    }
                }
                assert forall|i: int, k: int| 0 <= i < s1.n() && 0 <= k < s1.children(i).len() implies {
                    let c = #[trigger] s1.children(i)[k] as int;
                    &&& 0 <= c < s1.n()
                    &&& s1.parent(c) == Some(i as usize)
                } by {
                    if i != parent || k < s0.children(parent as int).len() {
                        s0.lemma_child_edge(i, k);
                        let c = s0.children(i)[k] as int;
                        assert(c != child);
                    }
                }
                assert forall|i: int| 0 <= i < s1.n() implies (#[trigger] s1.children(i)).no_duplicates() by {
                    assert(s0.children(i).no_duplicates());
                }
                assert forall|i: int| 0 <= i < s1.n() implies #[trigger] s1.heights()[i] <= s1.hmax() by {
                    assert(s0.heights()[i] <= s0.hmax());
                }
            }
            assert forall|i: int| 0 <= i < s0.n() implies #[trigger] s1.nodes()[i].name == s0.nodes()[i].name by {}
            assert forall|p: int, a: int, b: int|
                0 <= p < s1.n() && 0 <= a < b < s1.children(p).len() implies (#[trigger] s1.nodes()[s1.children(
                    p,
                )[a] as int]).name@ != (#[trigger] s1.nodes()[s1.children(p)[b] as int]).name@ by {
                if p != parent || b < s0.children(parent as int).len() {
                    assert(s1.children(p)[a] == s0.children(p)[a]);
                    assert(s1.children(p)[b] == s0.children(p)[b]);
                    s0.lemma_child_edge(p, a);
                    s0.lemma_child_edge(p, b);
                } else {
                    assert(s1.children(p)[a] == s0.children(p)[a]);
                    assert(s1.children(p)[b] == child);
                    s0.lemma_child_edge(p, a);
                    assert(s0.nodes()[s0.children(parent as int)[a] as int].name@ != s0.nodes()[child as int].name@);
                }
            }
        }
        Ok(())
    }

    /// Detaches `child` from `parent`.
    ///
    /// Refused, leaving the overlay as it was, when an index names no window or
    /// when `child` is not a child of `parent`.
    pub fn detach(&mut self, parent: usize, child: usize) -> (r: Result<(), OverlayError>)
        requires
            old(self).wf(),
        ensures
            final(self).wf(),
            parent >= old(self).n() ==> r == Err::<(), OverlayError>(
                OverlayError::NoSuchWindow { index: parent },
            ),
            parent < old(self).n() && child >= old(self).n() ==> r == Err::<(), OverlayError>(
                OverlayError::NoSuchWindow { index: child },
            ),
            parent < old(self).n() && child < old(self).n() && old(self).parent(child as int) != Some(parent)
                ==> r == Err::<(), OverlayError>(OverlayError::NotAChild { child, parent }),
            parent < old(self).n() && child < old(self).n() && old(self).parent(child as int) == Some(parent)
                ==> r is Ok,
            r is Err ==> *final(self) == *old(self),
            r is Ok ==> detach_post(old(self), final(self), parent, child),
    {
        if parent >= self.nodes.len() {
            return Err(OverlayError::NoSuchWindow { index: parent });
        }
        if child >= self.nodes.len() {
            return Err(OverlayError::NoSuchWindow { index: child });
        }
        if self.nodes[child].parent != Some(parent) {
            return Err(OverlayError::NotAChild { child, parent });
        }
        let ghost s0 = *self;
        proof {
            s0.lemma_parent_edge(child as int);
        }
        let mut k: usize = 0;
        let len = self.nodes[parent].children.len();
        while k < len && self.nodes[parent].children[k] != child
            invariant
                *self == s0,
                s0.wf_shape(),
                parent < s0.n(),
                len == s0.children(parent as int).len(),
                k <= len,
                s0.children(parent as int).contains(child),
                forall|j: int| 0 <= j < k ==> s0.children(parent as int)[j] != child,
            decreases len - k,
        {
            k += 1;
        }
        assert(k < len && s0.children(parent as int)[k as int] == child);
        self.nodes[parent].children.remove(k);
        self.nodes[child].parent = None;
        self.needs_reindex = true;
        proof {
            let s1 = *self;
            s0.lemma_wf_basics();
            assert forall|i: int| 0 <= i < s0.n() && i != parent implies #[trigger] s1.nodes()[i].children
                == s0.nodes()[i].children by {}
            assert forall|i: int| 0 <= i < s0.n() && i != child implies #[trigger] s1.nodes()[i].parent
                == s0.nodes()[i].parent by {}
            assert(s1.children(parent as int) == s0.children(parent as int).remove(k as int));
            lemma_detach_shape(&s0, &s1, parent as int, child as int, k as int);
            assert forall|i: int| 0 <= i < s0.n() implies #[trigger] s1.nodes()[i].name == s0.nodes()[i].name by {}
            assert forall|p: int, a: int, b: int|
                0 <= p < s1.n() && 0 <= a < b < s1.children(p).len() implies (#[trigger] s1.nodes()[s1.children(
                    p,
                )[a] as int]).name@ != (#[trigger] s1.nodes()[s1.children(p)[b] as int]).name@ by {
                let a0 = if p == parent && a >= k { a + 1 } else { a };
                let b0 = if p == parent && b >= k { b + 1 } else { b };
                assert(s1.children(p)[a] == s0.children(p)[a0]);
                assert(s1.children(p)[b] == s0.children(p)[b0]);
                s0.lemma_child_edge(p, a0);
                s0.lemma_child_edge(p, b0);
            }
        }
        Ok(())
    }

    /// Replaces the parameters of window `index` and marks it dirty.
    pub fn modify(&mut self, index: usize, params: WindowParams) -> (r: Result<(), OverlayError>)
        requires
            old(self).wf(),
        ensures
            final(self).wf(),
            index >= old(self).n() ==> r == Err::<(), OverlayError>(
                OverlayError::NoSuchWindow { index },
            ) && *final(self) == *old(self),
            index < old(self).n() ==> {
                &&& r is Ok
                &&& final(self).n() == old(self).n()
                &&& final(self).nodes()[index as int].params == params
                &&& final(self).nodes()[index as int].name == old(self).nodes()[index as int].name
                &&& final(self).children(index as int) == old(self).children(index as int)
                &&& final(self).parent(index as int) == old(self).parent(index as int)
                &&& forall|i: int|
                    0 <= i < old(self).n() && i != index ==> #[trigger] final(self).nodes()[i]
                        == old(self).nodes()[i]
                &&& final(self).nodes()[index as int].rect == old(self).nodes()[index as int].rect
                &&& final(self).begin(index as int) == old(self).begin(index as int)
                &&& final(self).end(index as int) == old(self).end(index as int)
                &&& final(self).dirty() == old(self).dirty().push(index)
                &&& final(self).needs_reindex() == old(self).needs_reindex()
            },
            final(self).vertices() == old(self).vertices(),
            final(self).indices() == old(self).indices(),
    {
        if index >= self.nodes.len() {
            return Err(OverlayError::NoSuchWindow { index });
        }
        let ghost s0 = *self;
        self.nodes[index].params = params;
        self.dirty.push(index);
        proof {
            let s1 = *self;
            s0.lemma_wf_basics();
            assert forall|i: int| 0 <= i < s0.n() && i != index implies #[trigger] s1.nodes()[i]
                == s0.nodes()[i] by {}
            assert(s1.wf_shape()) by {
                reveal(Overlay::wf_shape);
                assert forall|i: int| 0 <= i < s1.n() && #[trigger] s1.parent(i) is Some implies {
                    let q = s1.parent(i)->0 as int;
                    &&& s1.up_edge(i, q)
                    &&& s1.children(q).contains(i as usize)
                } by {
                    s0.lemma_parent_edge(i);
                }
                assert forall|i: int, m: int| 0 <= i < s1.n() && 0 <= m < s1.children(i).len() implies {
                    let c = #[trigger] s1.children(i)[m] as int;
                    &&& 0 <= c < s1.n()
                    &&& s1.parent(c) == Some(i as usize)
                } by {
                    s0.lemma_child_edge(i, m);
                }
                assert forall|i: int| 0 <= i < s1.n() implies (#[trigger] s1.children(i)).no_duplicates() by {
                    assert(s0.children(i).no_duplicates());
                }
                assert forall|k: int| 0 <= k < s1.dirty().len() implies #[trigger] s1.dirty()[k] < s1.n() by {
                    if k < s0.dirty().len() {
                        assert(s0.dirty()[k] < s0.n());
                    }
                }
            }
            if !s0.needs_reindex() {
                assert(same_but_params_at(&s0, &s1, index as int));
                assert forall|u: int, x: int| 0 <= x < s0.n() implies s0.anc(u, x) == #[trigger] s1.anc(u, x) by {
                    lemma_params_frame(&s0, &s1, index as int, u, x);
                }
                assert forall|x: int| #[trigger] s1.attached(x) implies s1.laid_out(x) && 0 <= s1.begin(x)
                    && s1.begin(x) + 4 <= s1.end(x) && (!s1.dirty_covers(x) ==> s1.drawn_in(x, s1.vertices())) by {
                    assert(s0.attached(x));
                    assert forall|k: int| 0 <= k < s0.children(x).len() implies #[trigger] s1.nodes()[s0.children(x)[k] as int].vertex_begin
                        == s0.nodes()[s0.children(x)[k] as int].vertex_begin && s1.nodes()[s0.children(x)[k] as int].vertex_end
                        == s0.nodes()[s0.children(x)[k] as int].vertex_end by {
                        s0.lemma_child_edge(x, k);
                        if s0.children(x)[k] != index {
                            assert(s1.nodes()[s0.children(x)[k] as int] == s0.nodes()[s0.children(x)[k] as int]);
                        }
                    }
                    assert(s0.laid_out(x));
                    assert(s1.children(x) == s0.children(x));
                    assert(s1.begin(x) == s0.begin(x) && s1.end(x) == s0.end(x)) by {
                        if x != index {
                            assert(s1.nodes()[x] == s0.nodes()[x]);
                        }
                    }
                    assert forall|k: int| 0 <= k <= s1.children(x).len() implies #[trigger] s1.child_start(x, k) == s0.child_start(x, k) by {
                        if k > 0 {
                            s0.lemma_child_edge(x, k - 1);
                            assert(s1.nodes()[s0.children(x)[k - 1] as int].vertex_end == s0.nodes()[s0.children(x)[k - 1] as int].vertex_end);
                        }
                    }
                    assert(s1.laid_out(x)) by {
                        assert forall|k: int| 0 <= k < s1.children(x).len() implies s1.begin(#[trigger] s1.children(x)[k] as int)
                            == s1.child_start(x, k) by {
                            assert(s1.nodes()[s0.children(x)[k] as int].vertex_begin == s0.nodes()[s0.children(x)[k] as int].vertex_begin);
                            assert(s1.child_start(x, k) == s0.child_start(x, k));
                        }
                        assert(s1.child_start(x, s1.children(x).len() as int) == s0.child_start(x, s0.children(x).len() as int));
                    }
                    if !s1.dirty_covers(x) {
                        assert(!s1.anc(index as int, x)) by {
                            assert(s1.dirty()[s0.dirty().len() as int] == index);
                        }
                        assert(!s0.dirty_covers(x)) by {
                            if s0.dirty_covers(x) {
                                let k = choose|k: int| 0 <= k < s0.dirty().len() && #[trigger] s0.anc(s0.dirty()[k] as int, x);
                                assert(s1.dirty()[k] == s0.dirty()[k]);
                                assert(s1.anc(s1.dirty()[k] as int, x));
                            }
                        }
                        assert(s0.drawn_in(x, s0.vertices()));
                        lemma_params_frame(&s0, &s1, index as int, 0, x);
                        assert(x != index);
                        assert(s1.nodes()[x] == s0.nodes()[x]);
                    }
                }
                assert(s1.nodes()[0].vertex_begin == s0.nodes()[0].vertex_begin);
                assert(s1.nodes()[0].vertex_end == s0.nodes()[0].vertex_end);
            }
            assert forall|p: int, a: int, b: int|
                0 <= p < s1.n() && 0 <= a < b < s1.children(p).len() implies (#[trigger] s1.nodes()[s1.children(
                    p,
                )[a] as int]).name@ != (#[trigger] s1.nodes()[s1.children(p)[b] as int]).name@ by {
                assert(s1.children(p) == s0.children(p));
                s0.lemma_child_edge(p, a);
                s0.lemma_child_edge(p, b);
                assert(s1.nodes()[s0.children(p)[a] as int].name == s0.nodes()[s0.children(p)[a] as int].name);
                assert(s1.nodes()[s0.children(p)[b] as int].name == s0.nodes()[s0.children(p)[b] as int].name);
            }
        }
        Ok(())
    }
}


/// The sum of the range lengths of the first `k` children of `x`.
pub open spec fn child_span_sum(s: &Overlay, x: int, k: int) -> int
    decreases k,
{
    if k <= 0 {
        0
    } else {
        let c = s.children(x)[k - 1] as int;
        child_span_sum(s, x, k - 1) + (s.end(c) - s.begin(c))
    }
}

/// Once laid out (from an update until the next change of shape), every window
/// of the tree spans its own four vertices plus the ranges of its children, and
/// the ranges of two siblings never overlap.
pub proof fn lemma_ranges_contiguous(s: &Overlay, x: int)
    requires
        s.wf(),
        !s.needs_reindex(),
        s.attached(x),
    ensures
        s.end(x) - s.begin(x) == 4 + child_span_sum(s, x, s.children(x).len() as int),
        forall|i: int, j: int|
            0 <= i < j < s.children(x).len() ==> s.end(#[trigger] s.children(x)[i] as int) <= s.begin(
                #[trigger] s.children(x)[j] as int,
            ),
{
    let len = s.children(x).len() as int;
    assert(s.laid_out(x));
    assert forall|k: int| 0 <= k < len implies s.attached(#[trigger] s.children(x)[k] as int) by {
        s.lemma_anc_child(0, x, k);
        s.lemma_child_edge(x, k);
    }
    assert forall|k: int| 0 <= k <= len implies #[trigger] s.child_start(x, k) == s.begin(x) + 4
        + child_span_sum(s, x, k) && s.child_start(x, k) >= s.begin(x) + 4 by {
        lemma_child_start_sum(s, x, k);
    }
    assert forall|i: int, j: int|
        0 <= i < j < len implies s.end(#[trigger] s.children(x)[i] as int) <= s.begin(
            #[trigger] s.children(x)[j] as int,
        ) by {
        lemma_child_start_mono(s, x, i + 1, j);
    }
}

proof fn lemma_child_start_sum(s: &Overlay, x: int, k: int)
    requires
        s.wf_shape(),
        s.layout_ok(),
        s.attached(x),
        0 <= k <= s.children(x).len(),
    ensures
        s.child_start(x, k) == s.begin(x) + 4 + child_span_sum(s, x, k),
        s.child_start(x, k) >= s.begin(x) + 4,
    decreases k,
{
    if k > 0 {
        lemma_child_start_sum(s, x, k - 1);
        s.lemma_anc_child(0, x, k - 1);
        s.lemma_child_edge(x, k - 1);
        let c = s.children(x)[k - 1] as int;
        assert(s.attached(c));
        assert(s.laid_out(x));
    }
}

proof fn lemma_child_start_mono(s: &Overlay, x: int, a: int, b: int)
    requires
        s.wf_shape(),
        s.layout_ok(),
        s.attached(x),
        0 <= a <= b <= s.children(x).len(),
    ensures
        s.child_start(x, a) <= s.child_start(x, b),
    decreases b - a,
{
    if a < b {
        lemma_child_start_mono(s, x, a, b - 1);
        s.lemma_anc_child(0, x, b - 1);
        s.lemma_child_edge(x, b - 1);
        let c = s.children(x)[b - 1] as int;
        assert(s.attached(c));
        assert(s.laid_out(x));
    }
}

/// Once laid out, the ranges follow a pre-order walk: the first child's range
/// starts right after the window's own quad, each later child's range starts
/// where the previous sibling's ends, and the window's range ends with its last
/// child's.
pub proof fn lemma_preorder_layout(s: &Overlay, x: int)
    requires
        s.wf(),
        !s.needs_reindex(),
        s.attached(x),
    ensures
        s.children(x).len() > 0 ==> s.begin(s.children(x)[0] as int) == s.begin(x) + 4,
        forall|k: int|
            0 < k < s.children(x).len() ==> s.begin(#[trigger] s.children(x)[k] as int) == s.end(
                s.children(x)[k - 1] as int,
            ),
        s.children(x).len() == 0 ==> s.end(x) == s.begin(x) + 4,
        s.children(x).len() > 0 ==> s.end(x) == s.end(s.children(x).last() as int),
{
    assert(s.laid_out(x));
}

/// A second update with no change in between uploads nothing and changes
/// nothing.
pub proof fn lemma_update_twice(s0: &Overlay, s1: &Overlay, s2: &Overlay, r1: &Upload, r2: &Upload)
    requires
        s0.wf(),
        update_post(s0, s1, r1),
        update_post(s1, s2, r2),
    ensures
        *r2 is Nothing,
        s2 == s1,
{
}

/// Once updated, a hidden window of the tree sits at `(-1, -1)` with no extent,
/// and its quad in the vertex buffer is degenerate.
pub proof fn lemma_hidden_window(s: &Overlay, x: int)
    requires
        s.wf(),
        s.is_clean(),
        s.attached(x),
        !s.nodes()[x].params.shown,
    ensures
        s.nodes()[x].rect == hidden_rect(),
        forall|k: int| 0 <= k < 4 ==> (#[trigger] s.vertices()[s.begin(x) + k]).pos == hidden_rect().pos,
{
    assert(s.drawn_in(x, s.vertices()));
    assert forall|k: int| 0 <= k < 4 implies (#[trigger] s.vertices()[s.begin(x) + k]).pos == hidden_rect().pos by {
        assert(s.vertices()[s.begin(x) + k] == corner(s.nodes()[x].params, s.resolved(x), k));
    }
}

impl Overlay {
    /// The index of the root window.
    pub fn root(&self) -> (r: usize)
        ensures
            r == 0,
    {
        0
    }

    /// The window at `index`.
    pub fn window(&self, index: usize) -> (r: &WindowNode)
        requires
            index < self.n(),
        ensures
            *r == self.nodes()[index as int],
    {
        &self.nodes[index]
    }

    /// The shared vertex buffer, as of the last update.
    pub fn vertex_buffer(&self) -> (r: &Vec<Vertex>)
        ensures
            r@ == self.vertices(),
    {
        &self.vertices
    }

    /// The triangle index buffer, as of the last update.
    pub fn index_buffer(&self) -> (r: &Vec<u32>)
        ensures
            r@ == self.indices(),
    {
        &self.indices
    }
}


/// The pieces of `p` between separators, as `str::split` gives them: a path
/// with no separator is one piece, and two separators in a row give an empty
/// piece between them.
pub open spec fn path_segments(p: Seq<char>) -> Seq<Seq<char>> {
    split_from(p, Seq::empty())
}

/// Splits `p` at separators, `cur` being the piece read so far.
pub open spec fn split_from(p: Seq<char>, cur: Seq<char>) -> Seq<Seq<char>>
    decreases p.len(),
{
    if p.len() == 0 {
        seq![cur]
    } else if p[0] == SEPARATOR {
        seq![cur] + split_from(p.skip(1), Seq::empty())
    } else {
        split_from(p.skip(1), cur.push(p[0]))
    }
}

/// Relies on `str::split` with a `char` pattern: it yields the pieces between
/// occurrences of the separator, in order, empty pieces included.
#[verifier::external_body]
fn split_path(path: &str) -> (r: Vec<String>)
    ensures
        r@.len() == path_segments(path@).len(),
        forall|k: int| 0 <= k < r@.len() ==> (#[trigger] r@[k])@ == path_segments(path@)[k],
{
    path.split(SEPARATOR).map(|piece| piece.to_string()).collect()
}

/// The first child of `x` from position `k` on whose name is `name`.
pub open spec fn first_named_from(s: &Overlay, x: int, name: Seq<char>, k: int) -> Option<usize>
    decreases s.children(x).len() - k,
{
    if k < 0 || k >= s.children(x).len() {
        None
    } else if s.nodes()[s.children(x)[k] as int].name@ == name {
        Some(s.children(x)[k])
    } else {
        first_named_from(s, x, name, k + 1)
    }
}

/// The window reached from `x` by following the names in `segs`, each naming a
/// child of the window before it.
pub open spec fn lookup(s: &Overlay, x: int, segs: Seq<Seq<char>>) -> Option<usize>
    decreases segs.len(),
{
    if segs.len() == 0 {
        Some(x as usize)
    } else {
        match first_named_from(s, x, segs[0], 0) {
            Some(c) => lookup(s, c as int, segs.skip(1)),
            None => None,
        }
    }
}

/// The first child found from position `k` on has the name, and none is found
/// exactly when no child from there on has it.
proof fn lemma_first_named(s: &Overlay, p: int, name: Seq<char>, k: int)
    requires
        0 <= k,
    ensures
        first_named_from(s, p, name, k) matches Some(c) ==> s.children(p).contains(c)
            && s.nodes()[c as int].name@ == name,
        first_named_from(s, p, name, k) is None ==> forall|j: int|
            k <= j < s.children(p).len() ==> (#[trigger] s.nodes()[s.children(p)[j] as int]).name@ != name,
    decreases s.children(p).len() - k,
{
    if k < s.children(p).len() {
        lemma_first_named(s, p, name, k + 1);
    }
}

impl Overlay {
    /// The first child of `p` named `name`.
    fn first_child_named(&self, p: usize, name: &String) -> (r: Option<usize>)
        requires
            self.wf_shape(),
            p < self.n(),
        ensures
            r == first_named_from(self, p as int, name@, 0),
            r matches Some(c) ==> c < self.n(),
    {
        let children = &self.nodes[p].children;
        let mut k: usize = 0;
        while k < children.len()
            invariant
                self.wf_shape(),
                p < self.n(),
                children@ == self.children(p as int),
                k <= children@.len(),
                first_named_from(self, p as int, name@, 0) == first_named_from(self, p as int, name@, k as int),
            decreases children@.len() - k,
        {
            let c = children[k];
            proof {
                self.lemma_child_edge(p as int, k as int);
            }
            if self.nodes[c].name == *name {
                return Some(c);
            }
            k += 1;
        }
        None
    }

    /// The window at `path` below `from`: names separated by `/`, each naming a
    /// child of the window before it. `None` when a name matches no child.
    pub fn child(&self, from: usize, path: &str) -> (r: Option<usize>)
        requires
            self.wf(),
            from < self.n(),
        ensures
            r == lookup(self, from as int, path_segments(path@)),
    {
        let segs = split_path(path);
        let ghost views = path_segments(path@);
        let mut cur = from;
        let mut i: usize = 0;
        proof {
            assert(views.skip(0) =~= views);
        }
        while i < segs.len()
            invariant
                self.wf(),
                cur < self.n(),
                i <= segs@.len(),
                views == path_segments(path@),
                segs@.len() == views.len(),
                forall|k: int| 0 <= k < segs@.len() ==> (#[trigger] segs@[k])@ == views[k],
                lookup(self, from as int, views) == lookup(self, cur as int, views.skip(i as int)),
            decreases segs@.len() - i,
        {
            proof {
                assert(views.skip(i as int).len() > 0);
                assert(views.skip(i as int)[0] == views[i as int]);
                assert(views.skip(i as int).skip(1) =~= views.skip(i as int + 1));
            }
            match self.first_child_named(cur, &segs[i]) {
                Some(c) => {
                    cur = c;
                },
                None => {
                    proof {
                        assert(segs@[i as int]@ == views[i as int]);
                        assert(first_named_from(self, cur as int, views.skip(i as int)[0], 0) is None);
                        assert(lookup(self, cur as int, views.skip(i as int)) is None);
                    }
                    return None;
                },
            }
            i += 1;
        }
        proof {
            assert(views.skip(i as int).len() == 0);
        }
        Some(cur)
    }
}


/// The names from the top of `x`'s tree down to `x`.
pub open spec fn name_chain(s: &Overlay, x: int) -> Seq<Seq<char>>
    decreases s.hmax() - s.heights()[x],
{
    if 0 <= x < s.n() && s.parent(x) is Some && s.up_edge(x, s.parent(x)->0 as int) {
        name_chain(s, s.parent(x)->0 as int).push(s.nodes()[x].name@)
    } else {
        seq![s.nodes()[x].name@]
    }
}

/// The pieces joined with a separator between each two.
pub open spec fn joined(parts: Seq<Seq<char>>) -> Seq<char>
    decreases parts.len(),
{
    if parts.len() == 0 {
        Seq::empty()
    } else if parts.len() == 1 {
        parts[0]
    } else {
        joined(parts.drop_last()) + seq![SEPARATOR] + parts.last()
    }
}

/// Relies on `[String]::join` with a one-character separator: the pieces in
/// order with the separator between each two.
#[verifier::external_body]
fn join_path(names: &Vec<String>) -> (r: String)
    ensures
        r@ == joined(names@.map_values(|n: String| n@)),
{
    names.join(SEPARATOR.to_string().as_str())
}

impl Overlay {
    /// The path of window `index` from the top of its tree: the names along the
    /// way joined with `/`.
    pub fn full_path(&self, index: usize) -> (r: String)
        requires
            self.wf(),
            index < self.n(),
        ensures
            r@ == joined(name_chain(self, index as int)),
    {
        let mut names: Vec<String> = Vec::new();
        let mut cur = index;
        proof {
            self.lemma_wf_basics();
            assert(names@.map_values(|n: String| n@) =~= Seq::<Seq<char>>::empty());
            assert(name_chain(self, index as int) =~= name_chain(self, cur as int) + names@.map_values(
                |n: String| n@,
            ));
        }
        loop
            invariant_except_break
                name_chain(self, index as int) == name_chain(self, cur as int) + names@.map_values(
                    |n: String| n@,
                ),
            invariant
                self.wf(),
                self.heights().len() == self.n(),
                cur < self.n(),
            ensures
                name_chain(self, index as int) == names@.map_values(|n: String| n@),
            decreases self.hmax() - self.heights()[cur as int],
        {
            let ghost before = names@;
            names.insert(0, self.nodes[cur].name.clone());
            proof {
                assert(names@.map_values(|n: String| n@) =~= seq![self.nodes()[cur as int].name@]
                    + before.map_values(|n: String| n@));
            }
            match self.nodes[cur].parent {
                None => {
                    proof {
                        assert(name_chain(self, cur as int) =~= seq![self.nodes()[cur as int].name@]);
                        assert(name_chain(self, index as int) =~= names@.map_values(|n: String| n@));
                    }
                    break;
                },
                Some(q) => {
                    proof {
                        self.lemma_parent_edge(cur as int);
                        assert(name_chain(self, cur as int) == name_chain(self, q as int).push(
                            self.nodes()[cur as int].name@,
                        ));
                        assert(name_chain(self, index as int) =~= name_chain(self, q as int)
                            + names@.map_values(|n: String| n@));
                    }
                    cur = q;
                },
            }
        }
        join_path(&names)
    }
}


/// `b` has the tree shape and ranks of `a`.
pub open spec fn same_shape(a: &Overlay, b: &Overlay) -> bool {
    &&& a.n() == b.n()
    &&& b.heights().len() == b.n()
    &&& a.hmax() == b.hmax()
    &&& forall|y: int| 0 <= y < a.n() ==> #[trigger] b.parent(y) == a.parent(y)
    &&& forall|y: int| 0 <= y < a.n() ==> #[trigger] b.heights()[y] == a.heights()[y]
    &&& forall|y: int| 0 <= y < a.n() ==> #[trigger] b.children(y) == a.children(y)
}

/// `i` lies in one of the ranges `begin .. end`.
pub open spec fn in_ranges(v: Seq<(usize, usize)>, i: int) -> bool {
    exists|j: int| 0 <= j < v.len() && #[trigger] v[j].0 <= i < v[j].1
}

proof fn lemma_anc_links(a: &Overlay, b: &Overlay, u: int, x: int)
    requires
        a.wf_shape(),
        same_shape(a, b),
        0 <= x < a.n(),
    ensures
        a.anc(u, x) == b.anc(u, x),
    decreases a.hmax() - a.heights()[x],
{
    if a.parent(x) is Some {
        let q = a.parent(x)->0 as int;
        a.lemma_parent_edge(x);
        lemma_anc_links(a, b, u, q);
    }
}

/// Two layouts of one tree give each window a range of the same length.
proof fn lemma_span_eq(a: &Overlay, b: &Overlay, x: int)
    requires
        a.wf_shape(),
        b.wf_shape(),
        same_shape(a, b),
        a.layout_ok(),
        b.layout_ok(),
        a.attached(x),
    ensures
        a.end(x) - a.begin(x) == b.end(x) - b.begin(x),
    decreases a.heights()[x], a.children(x).len() + 1,
{
    let len = a.children(x).len() as int;
    lemma_anc_links(a, b, 0, x);
    assert(b.attached(x));
    assert(b.children(x) == a.children(x));
    lemma_span_sum_eq(a, b, x, len);
    lemma_child_start_sum(a, x, len);
    lemma_child_start_sum(b, x, len);
    assert(a.laid_out(x));
    assert(b.laid_out(x));
}

proof fn lemma_span_sum_eq(a: &Overlay, b: &Overlay, x: int, k: int)
    requires
        a.wf_shape(),
        b.wf_shape(),
        same_shape(a, b),
        a.layout_ok(),
        b.layout_ok(),
        a.attached(x),
        0 <= k <= a.children(x).len(),
    ensures
        child_span_sum(a, x, k) == child_span_sum(b, x, k),
    decreases a.heights()[x], k,
{
    if k > 0 {
        lemma_span_sum_eq(a, b, x, k - 1);
        a.lemma_child_edge(x, k - 1);
        a.lemma_anc_child(0, x, k - 1);
        let c = a.children(x)[k - 1] as int;
        assert(b.children(x) == a.children(x));
        lemma_span_eq(a, b, c);
    }
}

/// Two layouts of one tree agree on every range.
#[verifier::spinoff_prover]
#[verifier::rlimit(40)]
proof fn lemma_begin_eq(a: &Overlay, b: &Overlay, x: int)
    requires
        a.wf_shape(),
        b.wf_shape(),
        same_shape(a, b),
        a.layout_ok(),
        b.layout_ok(),
        a.attached(x),
    ensures
        a.begin(x) == b.begin(x),
        a.end(x) == b.end(x),
    decreases a.hmax() - a.heights()[x],
{
    lemma_span_eq(a, b, x);
    if x == 0 {
        assert(a.begin(0) == 0 && b.begin(0) == 0);
    } else {
        a.lemma_parent_edge(x);
        let q = a.parent(x)->0 as int;
        assert(a.attached(q));
        lemma_begin_eq(a, b, q);
        let k = choose|k: int| 0 <= k < a.children(q).len() && a.children(q)[k] == x as usize;
        lemma_anc_links(a, b, 0, q);
        assert(b.attached(q));
        assert(b.children(q) == a.children(q));
        a.lemma_wf_basics();
        assert(a.children(q)[k] as int == x);
        lemma_child_begin(a, q, k);
        lemma_child_begin(b, q, k);
        lemma_span_sum_eq(a, b, q, k);
    }
}

proof fn lemma_child_begin(s: &Overlay, q: int, k: int)
    requires
        s.wf_shape(),
        s.layout_ok(),
        s.attached(q),
        0 <= k < s.children(q).len(),
    ensures
        s.begin(s.children(q)[k] as int) == s.begin(q) + 4 + child_span_sum(s, q, k),
{
    assert(s.laid_out(q));
    lemma_child_start_sum(s, q, k);
}

proof fn lemma_find_slot(s: &Overlay, x: int, idx: int, m: int) -> (k: int)
    requires
        s.wf_shape(),
        s.layout_ok(),
        s.attached(x),
        0 < m <= s.children(x).len(),
        s.child_start(x, 0) <= idx < s.child_start(x, m),
    ensures
        0 <= k < m,
        s.child_start(x, k) <= idx < s.child_start(x, k + 1),
    decreases m,
{
    if idx >= s.child_start(x, m - 1) {
        m - 1
    } else {
        lemma_find_slot(s, x, idx, m - 1)
    }
}

/// Every vertex of a window's range lies in the quad of a window under it.
proof fn lemma_cover(s: &Overlay, x: int, idx: int) -> (y: int)
    requires
        s.wf_shape(),
        s.layout_ok(),
        s.attached(x),
        s.begin(x) <= idx < s.end(x),
    ensures
        s.attached(y),
        s.anc(x, y),
        s.begin(y) <= idx < s.begin(y) + 4,
    decreases s.heights()[x],
{
    if idx < s.begin(x) + 4 {
        x
    } else {
        let len = s.children(x).len() as int;
        assert(s.laid_out(x));
        if len == 0 {
            assert(false);
        }
        let k = lemma_find_slot(s, x, idx, len);
        s.lemma_child_edge(x, k);
        s.lemma_anc_child(0, x, k);
        s.lemma_anc_child(x, x, k);
        let c = s.children(x)[k] as int;
        assert(s.attached(c));
        assert(s.laid_out(c));
        let y = lemma_cover(s, c, idx);
        s.lemma_anc_trans(x, c, y);
        y
    }
}

/// The range of a window holds the range of every window under it.
proof fn lemma_nest(s: &Overlay, d: int, y: int)
    requires
        s.wf_shape(),
        s.layout_ok(),
        s.attached(y),
        s.anc(d, y),
    ensures
        s.begin(d) <= s.begin(y),
        s.end(y) <= s.end(d),
    decreases s.hmax() - s.heights()[y],
{
    if y != d {
        s.lemma_parent_edge(y);
        let q = s.parent(y)->0 as int;
        s.lemma_wf_basics();
        assert(y != 0);
        assert(s.attached(q));
        lemma_nest(s, d, q);
        let k = choose|k: int| 0 <= k < s.children(q).len() && s.children(q)[k] == y as usize;
        assert(s.laid_out(q));
        lemma_child_start_sum(s, q, k);
        lemma_child_start_mono(s, q, k + 1, s.children(q).len() as int);
    }
}

proof fn lemma_ranges_hold(s: &Overlay, ds: Seq<usize>, k: int)
    requires
        0 <= k < ds.len(),
        s.attached(ds[k] as int),
    ensures
        exists|j: int|
            0 <= j < ranges_of(s, ds).len() && #[trigger] ranges_of(s, ds)[j] == (
                s.nodes()[ds[k] as int].vertex_begin,
                s.nodes()[ds[k] as int].vertex_end,
            ),
    decreases ds.len(),
{
    let rest = ranges_of(s, ds.drop_last());
    if k == ds.len() - 1 {
        assert(ranges_of(s, ds)[rest.len() as int] == (
            s.nodes()[ds[k] as int].vertex_begin,
            s.nodes()[ds[k] as int].vertex_end,
        ));
    } else {
        lemma_ranges_hold(s, ds.drop_last(), k);
        let j = choose|j: int|
            0 <= j < rest.len() && #[trigger] rest[j] == (
                s.nodes()[ds[k] as int].vertex_begin,
                s.nodes()[ds[k] as int].vertex_end,
            );
        assert(ranges_of(s, ds)[j] == rest[j]);
    }
}


/// After a relayout that changed no window's shape, every vertex outside the
/// ranges of the dirty windows is as it was, and every range is where it was.
#[verifier::spinoff_prover]
proof fn lemma_partial_frame(s0: &Overlay, s2: &Overlay, v: Seq<(usize, usize)>)
    requires
        s0.wf(),
        !s0.needs_reindex(),
        s2.wf(),
        s2.is_clean(),
        same_shape(s0, s2),
        forall|y: int| 0 <= y < s0.n() ==> #[trigger] s2.nodes()[y].params == s0.nodes()[y].params,
        v == ranges_of(s2, s0.dirty()),
    ensures
        s2.vertices().len() == s0.vertices().len(),
        forall|x: int|
            #[trigger] s2.attached(x) ==> s2.begin(x) == s0.begin(x) && s2.end(x) == s0.end(x),
        forall|i: int|
            0 <= i < s0.vertices().len() && !in_ranges(v, i) ==> #[trigger] s2.vertices()[i]
                == s0.vertices()[i],
{
    s0.lemma_wf_basics();
    assert(s0.attached(0));
    lemma_begin_eq(s0, s2, 0);
    assert forall|x: int| #[trigger] s2.attached(x) implies s2.begin(x) == s0.begin(x) && s2.end(x) == s0.end(x) by {
        lemma_anc_links(s0, s2, 0, x);
        lemma_begin_eq(s0, s2, x);
    }
    assert(same_links(s0, s2));
    lemma_agree(s0, s2);
    assert forall|i: int|
        0 <= i < s0.vertices().len() && !in_ranges(v, i) implies #[trigger] s2.vertices()[i]
            == s0.vertices()[i] by {
        let y = lemma_cover(s0, 0, i);
        lemma_anc_links(s0, s2, 0, y);
        if s0.dirty_covers(y) {
            let k = choose|k: int| 0 <= k < s0.dirty().len() && #[trigger] s0.anc(s0.dirty()[k] as int, y);
            let d = s0.dirty()[k] as int;
            s0.lemma_anc_linear(0, d, y);
            assert(s0.attached(d));
            lemma_nest(s0, d, y);
            lemma_anc_links(s0, s2, 0, d);
            lemma_begin_eq(s0, s2, d);
            lemma_ranges_hold(s2, s0.dirty(), k);
            let j = choose|j: int|
                0 <= j < ranges_of(s2, s0.dirty()).len() && #[trigger] ranges_of(s2, s0.dirty())[j] == (
                    s2.nodes()[d].vertex_begin,
                    s2.nodes()[d].vertex_end,
                );
            assert(v[j].0 <= i < v[j].1);
            assert(false);
        } else {
            assert(s0.drawn_in(y, s0.vertices()));
            assert(!s2.dirty_covers(y));
            assert(s2.buffers_current());
            assert(s2.attached(y));
            assert(s2.drawn_in(y, s2.vertices()));
            lemma_begin_eq(s0, s2, y);
            let j = i - s0.begin(y);
            assert(s0.vertices()[s0.begin(y) + j] == corner(s0.nodes()[y].params, s0.resolved(y), j));
            assert(s2.vertices()[s2.begin(y) + j] == corner(s2.nodes()[y].params, s2.resolved(y), j));
        }
    }
}

} // verus!
