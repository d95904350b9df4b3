use vstd::prelude::*;
use crate::geom::{Point, Transform, scale, scale_coord, lemma_identity_fixes, lemma_scale_by_one};

verus! {

broadcast use vstd::std_specs::vec::group_vec_axioms, vstd::seq::group_seq_axioms;

/// An 8-bit RGB color.
#[derive(Clone, Copy, Debug, PartialEq, Eq, Structural)]
pub struct Color {
    pub red: u8,
    pub green: u8,
    pub blue: u8,
}

impl Color {
    pub open spec fn black_spec() -> Color {
        Color { red: 0, green: 0, blue: 0 }
    }

    pub fn black() -> (c: Color)
        ensures
            c == Color::black_spec(),
    {
        Color { red: 0, green: 0, blue: 0 }
    }
}

/// A flattened drawable. Paths are closed polygons of device-space points;
/// the closing edge back to the first point is implicit. Opacities are 8-bit
/// fixed point: 0 is transparent and 255 opaque.
#[derive(Clone, Debug)]
pub enum Node {
    Fill { color: Color, opacity: u8, path: Vec<Point> },
    Stroke {
        color: Color,
        opacity: u8,
        stroke_color: Color,
        stroke_opacity: u8,
        /// Stroke width in sub-pixel units.
        stroke: u64,
        path: Vec<Point>,
    },
}

/// What a `Node` holds, with its path as a sequence.
pub enum NodeView {
    Fill { color: Color, opacity: u8, path: Seq<Point> },
    Stroke {
        color: Color,
        opacity: u8,
        stroke_color: Color,
        stroke_opacity: u8,
        stroke: u64,
        path: Seq<Point>,
    },
}

impl View for Node {
    type V = NodeView;

    open spec fn view(&self) -> NodeView {
        match self {
            Node::Fill { color, opacity, path } => NodeView::Fill {
                color: *color,
                opacity: *opacity,
                path: path@,
            },
            Node::Stroke { color, opacity, stroke_color, stroke_opacity, stroke, path } =>
                NodeView::Stroke {
                color: *color,
                opacity: *opacity,
                stroke_color: *stroke_color,
                stroke_opacity: *stroke_opacity,
                stroke: *stroke,
                path: path@,
            },
        }
    }
}

impl NodeView {
    pub open spec fn path(self) -> Seq<Point> {
        match self {
            NodeView::Fill { path, .. } => path,
            NodeView::Stroke { path, .. } => path,
        }
    }

    /// The same node with `f` applied to every point of its path.
    pub open spec fn map_path(self, f: spec_fn(Point) -> Point) -> NodeView {
        match self {
            NodeView::Fill { color, opacity, path } => NodeView::Fill {
                color,
                opacity,
                path: path.map_values(f),
            },
            NodeView::Stroke { color, opacity, stroke_color, stroke_opacity, stroke, path } =>
                NodeView::Stroke {
                color,
                opacity,
                stroke_color,
                stroke_opacity,
                stroke,
                path: path.map_values(f),
            },
        }
    }

    /// The node moved by the affine map `t`.
    pub open spec fn transformed(self, t: Transform) -> NodeView {
        self.map_path(|p: Point| t.apply_spec(p))
    }

    /// The node with its x coordinates scaled by `nx / dx` and its y coordinates by `ny / dy`.
    pub open spec fn rescaled(self, nx: i64, dx: i64, ny: i64, dy: i64) -> NodeView {
        self.map_path(|p: Point| Point { x: scale(p.x, nx, dx), y: scale(p.y, ny, dy) })
    }
}

/// The views of a sequence of nodes.
pub open spec fn views(s: Seq<Node>) -> Seq<NodeView> {
    s.map_values(|n: Node| n@)
}

fn transform_points(path: &mut Vec<Point>, t: &Transform)
    ensures
        final(path)@ == old(path)@.map_values(|p: Point| t.apply_spec(p)),
{
    let n = path.len();
    let mut i: usize = 0;
    while i < n
        invariant
            n == old(path)@.len(),
            path@.len() == n,
            0 <= i <= n,
            forall|j: int| 0 <= j < i ==> path@[j] == t.apply_spec(old(path)@[j]),
            forall|j: int| i <= j < n ==> path@[j] == old(path)@[j],
        decreases n - i,
    {
        let q = t.apply(path[i]);
        path.set(i, q);
        i += 1;
    }
    assert(path@ =~= old(path)@.map_values(|p: Point| t.apply_spec(p)));
}

fn rescale_points(path: &mut Vec<Point>, nx: i64, dx: i64, ny: i64, dy: i64)
    requires
        dx > 0,
        dy > 0,
    ensures
        final(path)@ == old(path)@.map_values(
            |p: Point| Point { x: scale(p.x, nx, dx), y: scale(p.y, ny, dy) },
        ),
{
    let n = path.len();
    let mut i: usize = 0;
    while i < n
        invariant
            n == old(path)@.len(),
            path@.len() == n,
            0 <= i <= n,
            dx > 0,
            dy > 0,
            forall|j: int|
                0 <= j < i ==> path@[j] == (Point {
                    x: scale(old(path)@[j].x, nx, dx),
                    y: scale(old(path)@[j].y, ny, dy),
                }),
            forall|j: int| i <= j < n ==> path@[j] == old(path)@[j],
        decreases n - i,
    {
        let p = path[i];
        let q = Point { x: scale_coord(p.x, nx, dx), y: scale_coord(p.y, ny, dy) };
        path.set(i, q);
        i += 1;
    }
    assert(path@ =~= old(path)@.map_values(
        |p: Point| Point { x: scale(p.x, nx, dx), y: scale(p.y, ny, dy) },
    ));
}

impl Node {
    /// Moves the node's path by `t`; the identity map is a no-op.
    pub fn transform(&mut self, t: Transform)
        ensures
            final(self)@ == old(self)@.transformed(t),
    {
        if t.is_identity() {
            proof {
                let s = old(self)@.path();
                assert forall|j: int| 0 <= j < s.len() implies t.apply_spec(s[j]) == s[j] by {
                    lemma_identity_fixes(t, s[j]);
                }
                assert(s.map_values(|p: Point| t.apply_spec(p)) =~= s);
            }
            return;
        }
        match self {
            Node::Fill { path, .. } => transform_points(path, &t),
            Node::Stroke { path, .. } => transform_points(path, &t),
        }
    }

    /// Scales the node's x coordinates by `nx / dx` and its y coordinates by `ny / dy`.
    pub fn rescale(&mut self, nx: i64, dx: i64, ny: i64, dy: i64)
        requires
            dx > 0,
            dy > 0,
        ensures
            final(self)@ == old(self)@.rescaled(nx, dx, ny, dy),
    {
        match self {
            Node::Fill { path, .. } => rescale_points(path, nx, dx, ny, dy),
            Node::Stroke { path, .. } => rescale_points(path, nx, dx, ny, dy),
        }
    }
}

/// Every drawable has at least one point.
pub open spec fn all_nonempty(s: Seq<NodeView>) -> bool {
    forall|k: int| 0 <= k < s.len() ==> (#[trigger] s[k]).path().len() > 0
}

/// The drawables of `s` resized from `w0` by `h0` to `w` by `h`.
pub open spec fn resized(s: Seq<NodeView>, w: i64, w0: i64, h: i64, h0: i64) -> Seq<NodeView> {
    s.map_values(|v: NodeView| v.rescaled(w, w0, h, h0))
}

/// A flattened scene: its canvas size in sub-pixel units and its drawables in
/// paint order. The drawables as flattened, and the size they were flattened
/// at, are kept: every resize starts from them, so resizing loses nothing.
#[derive(Clone, Debug)]
pub struct Tree {
    pub width: i64,
    pub height: i64,
    pub children: Vec<Node>,
    pub built_width: i64,
    pub built_height: i64,
    pub built: Vec<Node>,
}

impl Tree {
    /// Sizes are positive, every drawable has a point, and the drawables are
    /// those as flattened, resized to the current size.
    pub open spec fn wf(&self) -> bool {
        &&& self.width > 0
        &&& self.height > 0
        &&& self.built_width > 0
        &&& self.built_height > 0
        &&& all_nonempty(self.built_nodes())
        &&& self.nodes() == self.resized_nodes(self.width, self.height)
    }

    /// The scene's drawables, in paint order.
    pub open spec fn nodes(&self) -> Seq<NodeView> {
        views(self.children@)
    }

    /// The drawables as flattened, at the size they were flattened at.
    pub open spec fn built_nodes(&self) -> Seq<NodeView> {
        views(self.built@)
    }

    /// The drawables for a canvas of `w` by `h` sub-pixel units.
    pub open spec fn resized_nodes(&self, w: i64, h: i64) -> Seq<NodeView> {
        resized(self.built_nodes(), w, self.built_width, h, self.built_height)
    }

    /// A scene whose drawables were flattened at `w` by `h` sub-pixel units.
    pub fn from_nodes(children: Vec<Node>, w: i64, h: i64) -> (r: Tree)
        requires
            w > 0,
            h > 0,
            all_nonempty(views(children@)),
        ensures
            r.wf(),
            r.width == w,
            r.height == h,
            r.nodes() == views(children@),
            r.built_width == w,
            r.built_height == h,
            r.built_nodes() == views(children@),
    {
        let built = copy_nodes(&children);
        proof {
            lemma_rescale_same_size(views(children@), w, h);
        }
        Tree { width: w, height: h, children, built_width: w, built_height: h, built }
    }

    /// Resizes the canvas to `w` by `h` sub-pixel units: every point as
    /// flattened is scaled by `w / built_width` across and `h / built_height`
    /// down. Resizing to the current size changes nothing.
    pub fn resize(&mut self, w: i64, h: i64)
        requires
            old(self).wf(),
            w > 0,
            h > 0,
        ensures
            final(self).wf(),
            final(self).width == w,
            final(self).height == h,
            final(self).built_width == old(self).built_width,
            final(self).built_height == old(self).built_height,
            final(self).built_nodes() == old(self).built_nodes(),
            final(self).nodes() == old(self).resized_nodes(w, h),
    {
        if w == self.width && h == self.height {
            return;
        }
        let (bw, bh) = (self.built_width, self.built_height);
        let n = self.built.len();
        let mut children: Vec<Node> = Vec::new();
        let mut i: usize = 0;
        while i < n
            invariant
                n == self.built@.len(),
                0 <= i <= n,
                bw == self.built_width,
                bh == self.built_height,
                bw > 0,
                bh > 0,
                *self == *old(self),
                children@.len() == i,
                forall|j: int| 0 <= j < i ==> #[trigger] children@[j]@ == self.built@[j]@.rescaled(w, bw, h, bh),
            decreases n - i,
        {
            let mut node = self.built[i].duplicate();
            node.rescale(w, bw, h, bh);
            children.push(node);
            i += 1;
        }
        assert(views(children@) =~= self.resized_nodes(w, h));
        self.children = children;
        self.width = w;
        self.height = h;
    }
}

impl Node {
    /// A copy of this node.
    pub fn duplicate(&self) -> (r: Node)
        ensures
            r@ == self@,
    {
        match self {
            Node::Fill { color, opacity, path } => Node::Fill {
                color: *color,
                opacity: *opacity,
                path: path.clone(),
            },
            Node::Stroke { color, opacity, stroke_color, stroke_opacity, stroke, path } => Node::Stroke {
                color: *color,
                opacity: *opacity,
                stroke_color: *stroke_color,
                stroke_opacity: *stroke_opacity,
                stroke: *stroke,
                path: path.clone(),
            },
        }
    }
}

fn copy_nodes(v: &Vec<Node>) -> (r: Vec<Node>)
    ensures
        views(r@) == views(v@),
{
    let mut r: Vec<Node> = Vec::new();
    let mut i: usize = 0;
    while i < v.len()
        invariant
            0 <= i <= v@.len(),
            r@.len() == i,
            forall|j: int| 0 <= j < i ==> #[trigger] r@[j]@ == v@[j]@,
        decreases v@.len() - i,
    {
        r.push(v[i].duplicate());
        i += 1;
    }
    assert(views(r@) =~= views(v@));
    r
}

/// Resizing drawables to the size they have moves no point.
pub proof fn lemma_rescale_same_size(s: Seq<NodeView>, w: i64, h: i64)
    requires
        w > 0,
        h > 0,
    ensures
        resized(s, w, w, h, h) == s,
{
    assert forall|k: int| 0 <= k < s.len() implies #[trigger] s[k].rescaled(w, w, h, h) == s[k] by {
        let ps = s[k].path();
        assert forall|j: int| 0 <= j < ps.len() implies (Point {
            x: scale(ps[j].x, w, w),
            y: scale(ps[j].y, h, h),
        }) == ps[j] by {
            lemma_scale_by_one(ps[j].x, w);
            lemma_scale_by_one(ps[j].y, h);
        }
        assert(ps.map_values(|p: Point| Point { x: scale(p.x, w, w), y: scale(p.y, h, h) }) =~= ps);
    }
    assert(resized(s, w, w, h, h) =~= s);
}

/// Resizing a scene to its own size moves no point.
pub proof fn lemma_resize_to_own_size(t: Tree)
    requires
        t.wf(),
    ensures
        t.resized_nodes(t.width, t.height) == t.nodes(),
{
}

/// Resizing a scene to any size and then back to the size it had restores
/// every point exactly: `u` is `t` after a resize to `w1` by `h1`, and a
/// resize of `u` to `t`'s size gives `t`'s drawables.
pub proof fn lemma_resize_round_trip(t: Tree, u: Tree, w1: i64, h1: i64)
    requires
        t.wf(),
        u.wf(),
        w1 > 0,
        h1 > 0,
        u.width == w1,
        u.height == h1,
        u.built_width == t.built_width,
        u.built_height == t.built_height,
        u.built_nodes() == t.built_nodes(),
    ensures
        u.resized_nodes(t.width, t.height) == t.nodes(),
{
}

} // verus!
