use vstd::prelude::*;
use crate::geom::{Point, round_px, round_to_pixel};
use crate::tree::{Color, Node, NodeView, Tree};
use crate::scene::{Error, Fill, Paint, SourceNode, flatten_children, flatten_node, leaf};

verus! {

broadcast use vstd::std_specs::vec::group_vec_axioms, vstd::seq::group_seq_axioms;

/// A raster of `width` by `height` pixels, four bytes each (red, green, blue,
/// alpha), row after row from the top left.
#[derive(Clone, Debug)]
pub struct Image {
    pub width: u32,
    pub height: u32,
    pub data: Vec<u8>,
}

/// What a pixel is set to: a color and an alpha.
pub open spec fn pen(v: NodeView) -> (Color, u8) {
    match v {
        NodeView::Fill { color, opacity, .. } => (color, opacity),
        NodeView::Stroke { stroke_color, stroke_opacity, .. } => (stroke_color, stroke_opacity),
    }
}

/// `buf` with the pixel under `p` set to `c`; a point off the canvas writes nothing.
pub open spec fn plot(buf: Seq<u8>, w: int, h: int, p: Point, c: (Color, u8)) -> Seq<u8> {
    let x = round_px(p.x as int);
    let y = round_px(p.y as int);
    if 0 <= x < w && 0 <= y < h {
        let i = (y * w + x) * 4;
        buf.update(i, c.0.red).update(i + 1, c.0.green).update(i + 2, c.0.blue).update(i + 3, c.1)
    } else {
        buf
    }
}

/// `buf` with every vertex of `path` plotted in order.
pub open spec fn plot_path(buf: Seq<u8>, w: int, h: int, path: Seq<Point>, c: (Color, u8)) -> Seq<
    u8,
>
    decreases path.len(),
{
    if path.len() == 0 {
        buf
    } else {
        plot(plot_path(buf, w, h, path.drop_last(), c), w, h, path.last(), c)
    }
}

/// `buf` with the nodes painted in order, later ones over earlier ones.
pub open spec fn paint(buf: Seq<u8>, w: int, h: int, nodes: Seq<NodeView>) -> Seq<u8>
    decreases nodes.len(),
{
    if nodes.len() == 0 {
        buf
    } else {
        let n = nodes.last();
        plot_path(paint(buf, w, h, nodes.drop_last()), w, h, n.path(), pen(n))
    }
}

/// A transparent black canvas of `w` by `h` pixels.
pub open spec fn blank(w: int, h: int) -> Seq<u8> {
    Seq::new((w * h * 4) as nat, |i: int| 0u8)
}

proof fn lemma_plot_len(buf: Seq<u8>, w: int, h: int, p: Point, c: (Color, u8))
    requires
        buf.len() == w * h * 4,
    ensures
        plot(buf, w, h, p, c).len() == buf.len(),
{
    let x = round_px(p.x as int);
    let y = round_px(p.y as int);
    if 0 <= x < w && 0 <= y < h {
        assert((y * w + x) * 4 + 3 < w * h * 4) by (nonlinear_arith)
            requires
                0 <= x < w,
                0 <= y < h,
        ;
    }
}

fn plot_point(buf: &mut Vec<u8>, w: u32, h: u32, p: Point, c: (Color, u8))
    requires
        old(buf)@.len() == w as int * h as int * 4,
    ensures
        final(buf)@ == plot(old(buf)@, w as int, h as int, p, c),
{
    let len = buf.len();
    let x = round_to_pixel(p.x);
    let y = round_to_pixel(p.y);
    if 0 <= x && x < w as i128 && 0 <= y && y < h as i128 {
        proof {
            let (xi, yi, wi, hi) = (x as int, y as int, w as int, h as int);
            assert((yi * wi + xi) * 4 + 3 < wi * hi * 4) by (nonlinear_arith)
                requires
                    0 <= xi < wi,
                    0 <= yi < hi,
            ;
            assert(0 <= yi * wi) by (nonlinear_arith)
                requires
                    0 <= yi,
                    0 <= wi,
            ;
            assert(len as int == wi * hi * 4);
        }
        let i = ((y as usize) * (w as usize) + (x as usize)) * 4;
        buf.set(i, c.0.red);
        buf.set(i + 1, c.0.green);
        buf.set(i + 2, c.0.blue);
        buf.set(i + 3, c.1);
    }
}

proof fn lemma_plot_path_len(buf: Seq<u8>, w: int, h: int, path: Seq<Point>, c: (Color, u8))
    requires
        buf.len() == w * h * 4,
    ensures
        plot_path(buf, w, h, path, c).len() == buf.len(),
    decreases path.len(),
{
    if path.len() > 0 {
        lemma_plot_path_len(buf, w, h, path.drop_last(), c);
        lemma_plot_len(plot_path(buf, w, h, path.drop_last(), c), w, h, path.last(), c);
    }
}

/// Painting keeps the canvas's size: no write lands outside it.
pub proof fn lemma_paint_len(buf: Seq<u8>, w: int, h: int, nodes: Seq<NodeView>)
    requires
        buf.len() == w * h * 4,
    ensures
        paint(buf, w, h, nodes).len() == buf.len(),
    decreases nodes.len(),
{
    if nodes.len() > 0 {
        lemma_paint_len(buf, w, h, nodes.drop_last());
        let n = nodes.last();
        lemma_plot_path_len(paint(buf, w, h, nodes.drop_last()), w, h, n.path(), pen(n));
    }
}

fn pen_of(n: &Node) -> (r: (Color, u8))
    ensures
        r == pen(n@),
{
    match n {
        Node::Fill { color, opacity, .. } => (*color, *opacity),
        Node::Stroke { stroke_color, stroke_opacity, .. } => (*stroke_color, *stroke_opacity),
    }
}

fn path_of(n: &Node) -> (r: &Vec<Point>)
    ensures
        r@ == n@.path(),
{
    match n {
        Node::Fill { path, .. } => path,
        Node::Stroke { path, .. } => path,
    }
}

/// Plots every vertex of `n` onto `buf`.
fn render_node(n: &Node, buf: &mut Vec<u8>, w: u32, h: u32)
    requires
        old(buf)@.len() == w as int * h as int * 4,
    ensures
        final(buf)@ == plot_path(old(buf)@, w as int, h as int, n@.path(), pen(n@)),
{
    let c = pen_of(n);
    let path = path_of(n);
    let mut j: usize = 0;
    while j < path.len()
        invariant
            0 <= j <= path@.len(),
            path@ == n@.path(),
            c == pen(n@),
            old(buf)@.len() == w as int * h as int * 4,
            buf@ == plot_path(old(buf)@, w as int, h as int, path@.take(j as int), c),
        decreases path@.len() - j,
    {
        proof {
            lemma_plot_path_len(old(buf)@, w as int, h as int, path@.take(j as int), c);
            assert(path@.take(j as int + 1).drop_last() =~= path@.take(j as int));
        }
        plot_point(buf, w, h, path[j], c);
        j += 1;
    }
    assert(path@.take(j as int) =~= path@);
}

impl Tree {
    /// The canvas in whole pixels, with the four bytes of each pixel addressable.
    pub open spec fn canvas_fits(&self) -> bool {
        &&& 0 <= round_px(self.width as int) <= u32::MAX
        &&& 0 <= round_px(self.height as int) <= u32::MAX
        &&& round_px(self.width as int) * round_px(self.height as int) * 4 <= usize::MAX
    }

    /// Whether the canvas of this scene can be allocated.
    pub fn fits_canvas(&self) -> (r: bool)
        ensures
            r == self.canvas_fits(),
    {
        let w = round_to_pixel(self.width);
        let h = round_to_pixel(self.height);
        if w < 0 || w > u32::MAX as i128 || h < 0 || h > u32::MAX as i128 {
            return false;
        }
        proof {
            assert(w * h * 4 <= 0xffff_ffff * 0xffff_ffff * 4) by (nonlinear_arith)
                requires
                    0 <= w <= 0xffff_ffff,
                    0 <= h <= 0xffff_ffff,
            ;
        }
        w * h * 4 <= usize::MAX as i128
    }

    /// Paints the scene onto a transparent black canvas of its size rounded to
    /// whole pixels: each node sets the pixel under each of its vertices, in
    /// paint order, the last write winning.
    pub fn render(&self) -> (r: Image)
        requires
            self.canvas_fits(),
        ensures
            r.width == round_px(self.width as int),
            r.height == round_px(self.height as int),
            r.data@.len() == r.width * r.height * 4,
            r.data@ == paint(blank(r.width as int, r.height as int), r.width as int, r.height as int, self.nodes()),
    {
        let w = round_to_pixel(self.width) as u32;
        let h = round_to_pixel(self.height) as u32;
        let n = (w as usize) * (h as usize) * 4;
        let mut data: Vec<u8> = Vec::with_capacity(n);
        let mut k: usize = 0;
        while k < n
            invariant
                0 <= k <= n,
                data@.len() == k,
                forall|i: int| 0 <= i < k ==> data@[i] == 0u8,
            decreases n - k,
        {
            data.push(0);
            k += 1;
        }
        let ghost zero = blank(w as int, h as int);
        assert(data@ =~= zero);
        let mut i: usize = 0;
        while i < self.children.len()
            invariant
                0 <= i <= self.children@.len(),
                n == w as int * h as int * 4,
                zero.len() == n,
                data@ == paint(zero, w as int, h as int, self.nodes().take(i as int)),
            decreases self.children@.len() - i,
        {
            proof {
                lemma_paint_len(zero, w as int, h as int, self.nodes().take(i as int));
                assert(self.nodes().take(i as int + 1).drop_last() =~= self.nodes().take(i as int));
                assert(self.nodes()[i as int] == self.children@[i as int]@);
            }
            render_node(&self.children[i], &mut data, w, h);
            i += 1;
        }
        assert(self.nodes().take(i as int) =~= self.nodes());
        proof {
            lemma_paint_len(zero, w as int, h as int, self.nodes());
        }
        Image { width: w, height: h, data }
    }
}

/// Two scenes with the same size and the same drawables paint the same bytes.
pub proof fn lemma_render_deterministic(a: Tree, b: Tree)
    requires
        a.width == b.width,
        a.height == b.height,
        a.nodes() == b.nodes(),
    ensures
        ({
            let (w, h) = (round_px(a.width as int), round_px(a.height as int));
            paint(blank(w, h), w, h, a.nodes()) == paint(blank(w, h), w, h, b.nodes())
        }),
{
}

/// A point that rounds to a pixel off the canvas changes nothing.
pub proof fn lemma_off_canvas_point(buf: Seq<u8>, w: int, h: int, p: Point, c: (Color, u8))
    requires
        !(0 <= round_px(p.x as int) < w && 0 <= round_px(p.y as int) < h),
    ensures
        plot(buf, w, h, p, c) == buf,
{
}

proof fn lemma_transparent_path_on_blank(w: int, h: int, path: Seq<Point>)
    requires
        w >= 0,
        h >= 0,
    ensures
        plot_path(blank(w, h), w, h, path, (Color::black_spec(), 0u8)) == blank(w, h),
    decreases path.len(),
{
    if path.len() > 0 {
        lemma_transparent_path_on_blank(w, h, path.drop_last());
        let p = path.last();
        let x = round_px(p.x as int);
        let y = round_px(p.y as int);
        if 0 <= x < w && 0 <= y < h {
            let i = (y * w + x) * 4;
            assert(i + 3 < w * h * 4 && 0 <= i) by (nonlinear_arith)
                requires
                    0 <= x < w,
                    0 <= y < h,
                    i == (y * w + x) * 4,
            ;
            let b = blank(w, h);
            assert(b.update(i, 0).update(i + 1, 0).update(i + 2, 0).update(i + 3, 0) =~= b);
        }
    }
}

/// A path with neither fill nor stroke becomes a transparent black fill, and
/// painting it on a blank canvas changes no pixel.
pub proof fn lemma_unpainted_path_is_invisible(w: int, h: int, path: Seq<Point>)
    requires
        w >= 0,
        h >= 0,
    ensures
        leaf(None, None, path) == Ok::<NodeView, Error>(
            NodeView::Fill { color: Color::black_spec(), opacity: 0, path },
        ),
        paint(blank(w, h), w, h, seq![NodeView::Fill { color: Color::black_spec(), opacity: 0, path }])
            == blank(w, h),
{
    let v = NodeView::Fill { color: Color::black_spec(), opacity: 0, path };
    let s = seq![v];
    assert(s.drop_last() =~= Seq::<NodeView>::empty());
    assert(s.last() == v);
    assert(paint(blank(w, h), w, h, s.drop_last()) == blank(w, h));
    assert(pen(v) == (Color::black_spec(), 0u8));
    lemma_transparent_path_on_blank(w, h, path);
}

/// A vertex off the canvas: it rounds to no pixel of a `w` by `h` canvas.
pub open spec fn off_canvas(p: Point, w: int, h: int) -> bool {
    !(0 <= round_px(p.x as int) < w && 0 <= round_px(p.y as int) < h)
}

proof fn lemma_off_canvas_path(buf: Seq<u8>, w: int, h: int, path: Seq<Point>, c: (Color, u8))
    requires
        forall|j: int| 0 <= j < path.len() ==> off_canvas(#[trigger] path[j], w, h),
    ensures
        plot_path(buf, w, h, path, c) == buf,
    decreases path.len(),
{
    if path.len() > 0 {
        lemma_off_canvas_path(buf, w, h, path.drop_last(), c);
        assert(off_canvas(path[path.len() - 1], w, h));
    }
}

/// Painting a node whose vertices all lie off the canvas, after any others,
/// writes no byte.
pub proof fn lemma_off_canvas_node(buf: Seq<u8>, w: int, h: int, nodes: Seq<NodeView>, v: NodeView)
    requires
        forall|j: int| 0 <= j < v.path().len() ==> off_canvas(#[trigger] v.path()[j], w, h),
    ensures
        paint(buf, w, h, nodes.push(v)) == paint(buf, w, h, nodes),
{
    assert(nodes.push(v).drop_last() =~= nodes);
    lemma_off_canvas_path(paint(buf, w, h, nodes), w, h, v.path(), pen(v));
}

/// A group's opacity is not composited: a group of two colour-filled paths,
/// whatever its opacity and transform, flattens to two drawables that paint
/// with each path's own colour and opacity.
pub proof fn lemma_group_opacity_not_composited(
    g: SourceNode,
    c0: Color,
    o0: u8,
    c1: Color,
    o1: u8,
)
    requires
        g.kind is Group,
        g.children@.len() == 2,
        forall|i: int|
            0 <= i < 2 ==> {
                let k = (#[trigger] g.children@[i]).kind;
                &&& g.children@[i].children@.len() == 0
                &&& k is Path
                &&& k->Path_stroke is None
                &&& k->Path_data@.len() > 0
            },
        g.children@[0].kind->Path_fill == Some(Fill { paint: Paint::Color(c0), opacity: o0 }),
        g.children@[1].kind->Path_fill == Some(Fill { paint: Paint::Color(c1), opacity: o1 }),
    ensures
        flatten_node(g) is Ok,
        flatten_node(g)->Ok_0.len() == 2,
        pen(flatten_node(g)->Ok_0[0]) == (c0, o0),
        pen(flatten_node(g)->Ok_0[1]) == (c1, o1),
{
    let cs = g.children@;
    let (a, b) = (cs[0], cs[1]);
    assert(flatten_children(a.children@, 0) == Ok::<Seq<NodeView>, Error>(Seq::empty()));
    assert(flatten_children(b.children@, 0) == Ok::<Seq<NodeView>, Error>(Seq::empty()));
    assert(flatten_node(a) is Ok && flatten_node(a)->Ok_0.len() == 1);
    assert(flatten_node(b) is Ok && flatten_node(b)->Ok_0.len() == 1);
    assert(pen(flatten_node(a)->Ok_0[0]) == (c0, o0));
    assert(pen(flatten_node(b)->Ok_0[0]) == (c1, o1));
    assert(flatten_children(cs, 0) == Ok::<Seq<NodeView>, Error>(Seq::empty()));
    assert(flatten_children(cs, 1) == Ok::<Seq<NodeView>, Error>(Seq::empty() + flatten_node(a)->Ok_0));
    let below = flatten_children(cs, 2)->Ok_0;
    assert(below == flatten_node(a)->Ok_0 + flatten_node(b)->Ok_0);
    assert(below[0] == flatten_node(a)->Ok_0[0]);
    assert(below[1] == flatten_node(b)->Ok_0[0]);
}

} // verus!
