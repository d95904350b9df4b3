use vstd::prelude::*;
use crate::geom::{Point, Transform};
use crate::tree::{Color, Node, NodeView, Tree, all_nonempty, views};

verus! {

broadcast use vstd::std_specs::vec::group_vec_axioms, vstd::seq::group_seq_axioms;

/// How a shape is painted in the source document.
#[derive(Clone, Copy, Debug, PartialEq, Eq, Structural)]
pub enum Paint {
    Color(Color),
    LinearGradient,
    RadialGradient,
    Pattern,
}

/// A fill attribute of a source path.
#[derive(Clone, Copy, Debug, PartialEq, Eq, Structural)]
pub struct Fill {
    pub paint: Paint,
    pub opacity: u8,
}

/// A stroke attribute of a source path; `width` is in sub-pixel units.
#[derive(Clone, Copy, Debug, PartialEq, Eq, Structural)]
pub struct Stroke {
    pub paint: Paint,
    pub opacity: u8,
    pub width: u64,
}

/// What kind of node of the parsed document a `SourceNode` is.
#[derive(Debug)]
pub enum SourceKind {
    /// A path: its own transform, optional fill and stroke, and its points in local coordinates.
    Path { transform: Transform, fill: Option<Fill>, stroke: Option<Stroke>, data: Vec<Point> },
    /// A container: its transform applies to everything below it. Its
    /// opacity is kept but not composited: the drawables below it paint
    /// with their own opacities.
    Group { transform: Transform, opacity: u8 },
    Image,
    Text,
}

/// A node of the parsed document, with its children in document order.
#[derive(Debug)]
pub struct SourceNode {
    pub kind: SourceKind,
    pub children: Vec<SourceNode>,
}

/// Why a document cannot be flattened.
#[derive(Clone, Copy, Debug, PartialEq, Eq, Structural)]
pub enum Error {
    /// The document embeds a raster image.
    UnsupportedImage,
    /// The document holds text.
    UnsupportedText,
    /// A fill or stroke uses a gradient or a pattern.
    UnsupportedPaint,
}

pub open spec fn paint_color(p: Paint) -> Result<Color, Error> {
    match p {
        Paint::Color(c) => Ok(c),
        _ => Err(Error::UnsupportedPaint),
    }
}

fn color_of(p: &Paint) -> (r: Result<Color, Error>)
    ensures
        r == paint_color(*p),
{
    match p {
        Paint::Color(c) => Ok(*c),
        _ => Err(Error::UnsupportedPaint),
    }
}

/// The drawable that a path node becomes, before its transform is applied.
/// A stroke without fill keeps a transparent black fill; a path with neither
/// becomes a transparent black fill.
pub open spec fn leaf(fill: Option<Fill>, stroke: Option<Stroke>, path: Seq<Point>) -> Result<
    NodeView,
    Error,
> {
    match (fill, stroke) {
        (Some(f), Some(s)) => match (paint_color(f.paint), paint_color(s.paint)) {
            (Ok(c), Ok(sc)) => Ok(
                NodeView::Stroke {
                    color: c,
                    opacity: f.opacity,
                    stroke_color: sc,
                    stroke_opacity: s.opacity,
                    stroke: s.width,
                    path,
                },
            ),
            _ => Err(Error::UnsupportedPaint),
        },
        (None, Some(s)) => match paint_color(s.paint) {
            Ok(sc) => Ok(
                NodeView::Stroke {
                    color: Color::black_spec(),
                    opacity: 0,
                    stroke_color: sc,
                    stroke_opacity: s.opacity,
                    stroke: s.width,
                    path,
                },
            ),
            Err(e) => Err(e),
        },
        (Some(f), None) => match paint_color(f.paint) {
            Ok(c) => Ok(NodeView::Fill { color: c, opacity: f.opacity, path }),
            Err(e) => Err(e),
        },
        (None, None) => Ok(NodeView::Fill { color: Color::black_spec(), opacity: 0, path }),
    }
}

/// The drawables of a node and everything below it, in paint order: the
/// children's first, then the node's own. A group applies its transform to
/// all that lies below it. A path without points draws nothing and is left
/// out, once its paints are known to be supported.
pub open spec fn flatten_node(n: SourceNode) -> Result<Seq<NodeView>, Error>
    decreases n, 0int,
{
    match flatten_children(n.children@, n.children@.len() as int) {
        Err(e) => Err(e),
        Ok(below) => match n.kind {
            SourceKind::Path { transform, fill, stroke, data } => match leaf(fill, stroke, data@) {
                Ok(v) => if data@.len() == 0 {
                    Ok(below)
                } else {
                    Ok(below.push(v.transformed(transform)))
                },
                Err(e) => Err(e),
            },
            SourceKind::Group { transform, .. } => Ok(
                below.map_values(|v: NodeView| v.transformed(transform)),
            ),
            SourceKind::Image => Err(Error::UnsupportedImage),
            SourceKind::Text => Err(Error::UnsupportedText),
        },
    }
}

/// The drawables of the first `k` nodes of `cs`, in order; the first failure wins.
pub open spec fn flatten_children(cs: Seq<SourceNode>, k: int) -> Result<Seq<NodeView>, Error>
    decreases cs, k,
{
    if k <= 0 || k > cs.len() {
        Ok(Seq::empty())
    } else {
        match flatten_children(cs, k - 1) {
            Err(e) => Err(e),
            Ok(a) => match flatten_node(cs[k - 1]) {
                Err(e) => Err(e),
                Ok(b) => Ok(a + b),
            },
        }
    }
}

proof fn lemma_failure_persists(cs: Seq<SourceNode>, i: int, k: int)
    requires
        0 < i <= k <= cs.len(),
        flatten_children(cs, i) is Err,
    ensures
        flatten_children(cs, k) == flatten_children(cs, i),
    decreases k - i,
{
    if k > i {
        lemma_failure_persists(cs, i, k - 1);
    }
}

fn leaf_node(fill: &Option<Fill>, stroke: &Option<Stroke>, data: &Vec<Point>) -> (r: Result<
    Node,
    Error,
>)
    ensures
        match leaf(*fill, *stroke, data@) {
            Ok(v) => r is Ok && r->Ok_0@ == v,
            Err(e) => r == Err::<Node, Error>(e),
        },
{
    match (fill, stroke) {
        (Some(f), Some(s)) => {
            let c = color_of(&f.paint);
            let sc = color_of(&s.paint);
            match (c, sc) {
                (Ok(c), Ok(sc)) => Ok(
                    Node::Stroke {
                        color: c,
                        opacity: f.opacity,
                        stroke_color: sc,
                        stroke_opacity: s.opacity,
                        stroke: s.width,
                        path: data.clone(),
                    },
                ),
                _ => Err(Error::UnsupportedPaint),
            }
        },
        (None, Some(s)) => match color_of(&s.paint) {
            Ok(sc) => Ok(
                Node::Stroke {
                    color: Color::black(),
                    opacity: 0,
                    stroke_color: sc,
                    stroke_opacity: s.opacity,
                    stroke: s.width,
                    path: data.clone(),
                },
            ),
            Err(e) => Err(e),
        },
        (Some(f), None) => match color_of(&f.paint) {
            Ok(c) => Ok(Node::Fill { color: c, opacity: f.opacity, path: data.clone() }),
            Err(e) => Err(e),
        },
        (None, None) => Ok(Node::Fill { color: Color::black(), opacity: 0, path: data.clone() }),
    }
}

/// Appends the drawables of the nodes of `cs` and of everything below them to `out`.
fn flatten_children_into(cs: &Vec<SourceNode>, out: &mut Vec<Node>) -> (r: Result<(), Error>)
    ensures
        match flatten_children(cs@, cs@.len() as int) {
            Ok(s) => r is Ok && views(final(out)@) == views(old(out)@) + s && all_nonempty(s),
            Err(e) => r == Err::<(), Error>(e),
        },
    decreases cs, 1int,
{
    let mut i: usize = 0;
    while i < cs.len()
        invariant
            0 <= i <= cs@.len(),
            flatten_children(cs@, i as int) is Ok,
            all_nonempty(flatten_children(cs@, i as int)->Ok_0),
            views(out@) == views(old(out)@) + flatten_children(cs@, i as int)->Ok_0,
        decreases cs@.len() - i,
    {
        let r = flatten_into(&cs[i], out);
        proof {
            assert(cs@[i as int] == cs[i as int]);
        }
        match r {
            Err(e) => {
                proof {
                    lemma_failure_persists(cs@, i as int + 1, cs@.len() as int);
                }
                return Err(e);
            },
            Ok(()) => {
                assert(views(out@) =~= views(old(out)@) + flatten_children(cs@, i as int + 1)->Ok_0);
                proof {
                    let a = flatten_children(cs@, i as int)->Ok_0;
                    let b = flatten_node(cs@[i as int])->Ok_0;
                    assert forall|k: int| 0 <= k < (a + b).len() implies (#[trigger] (a + b)[k]).path().len() > 0 by {
                        if k < a.len() {
                            assert((a + b)[k] == a[k]);
                        } else {
                            assert((a + b)[k] == b[k - a.len()]);
                        }
                    }
                }
            },
        }
        i += 1;
    }
    proof {
        assert(flatten_children(cs@, 0) == Ok::<Seq<NodeView>, Error>(Seq::empty()));
    }
    Ok(())
}

/// Appends the drawables of `n` and everything below it to `out`.
fn flatten_into(n: &SourceNode, out: &mut Vec<Node>) -> (r: Result<(), Error>)
    ensures
        match flatten_node(*n) {
            Ok(s) => r is Ok && views(final(out)@) == views(old(out)@) + s && all_nonempty(s),
            Err(e) => r == Err::<(), Error>(e),
        },
    decreases n, 0int,
{
    let start = out.len();
    let cs = &n.children;
    proof {
        assert(decreases_to!(n => n.children));
    }
    match flatten_children_into(cs, out) {
        Err(e) => {
            return Err(e);
        },
        Ok(()) => {},
    }
    assert(cs@.len() == n.children@.len());
    match &n.kind {
        SourceKind::Path { transform, fill, stroke, data } => {
            match leaf_node(fill, stroke, data) {
                Ok(mut node) => {
                    if data.len() == 0 {
                        return Ok(());
                    }
                    node.transform(*transform);
                    let ghost prev = out@;
                    out.push(node);
                    assert(views(out@) =~= views(prev).push(node@));
                    assert(views(out@) =~= views(old(out)@) + flatten_node(*n)->Ok_0);
                    proof {
                        let s = flatten_node(*n)->Ok_0;
                        assert forall|k: int| 0 <= k < s.len() implies (#[trigger] s[k]).path().len() > 0 by {
                            if k == s.len() - 1 {
                                assert(s[k] == node@);
                            }
                        }
                    }
                    Ok(())
                },
                Err(e) => Err(e),
            }
        },
        SourceKind::Group { transform, .. } => {
            let len = out.len();
            let ghost below = flatten_children(cs@, cs@.len() as int)->Ok_0;
            proof {
                assert(views(out@).len() == views(old(out)@).len() + below.len());
                assert forall|k: int| 0 <= k < len implies out@[k]@ == #[trigger] views(out@)[k] by {}
                assert forall|k: int| 0 <= k < start implies #[trigger] out@[k]@ == old(out)@[k]@ by {
                    assert(views(out@)[k] == (views(old(out)@) + below)[k]);
                    assert(old(out)@[k]@ == views(old(out)@)[k]);
                }
                assert forall|k: int| start <= k < len implies #[trigger] out@[k]@ == below[k - start] by {
                    assert(views(out@)[k] == (views(old(out)@) + below)[k]);
                }
            }
            let mut j: usize = start;
            while j < len
                invariant
                    start <= j <= len,
                    len == out@.len(),
                    start == old(out)@.len(),
                    below.len() == len - start,
                    forall|k: int| 0 <= k < start ==> out@[k]@ == old(out)@[k]@,
                    forall|k: int| start <= k < j ==> out@[k]@ == below[k - start].transformed(*transform),
                    forall|k: int| j <= k < len ==> out@[k]@ == below[k - start],
                decreases len - j,
            {
                let mut node = out.remove(j);
                node.transform(*transform);
                out.insert(j, node);
                j += 1;
            }
            assert(views(out@) =~= views(old(out)@) + flatten_node(*n)->Ok_0);
            proof {
                let s = flatten_node(*n)->Ok_0;
                assert forall|k: int| 0 <= k < s.len() implies (#[trigger] s[k]).path().len() > 0 by {
                    assert(s[k] == below[k].transformed(*transform));
                }
            }
            Ok(())
        },
        SourceKind::Image => Err(Error::UnsupportedImage),
        SourceKind::Text => Err(Error::UnsupportedText),
    }
}

impl Tree {
    /// Flattens the nodes below `root` into a scene of `width` by `height`
    /// sub-pixel units. The root itself contributes nothing.
    pub fn from_source(root: &SourceNode, width: i64, height: i64) -> (r: Result<Tree, Error>)
        requires
            width > 0,
            height > 0,
        ensures
            match flatten_children(root.children@, root.children@.len() as int) {
                Ok(s) => r is Ok && r->Ok_0.wf() && r->Ok_0.width == width && r->Ok_0.height
                    == height && r->Ok_0.nodes() == s && r->Ok_0.built_nodes() == s
                    && r->Ok_0.built_width == width && r->Ok_0.built_height == height
                    && all_nonempty(s),
                Err(e) => r == Err::<Tree, Error>(e),
            },
    {
        let mut children: Vec<Node> = Vec::new();
        match flatten_children_into(&root.children, &mut children) {
            Ok(()) => {
                assert(views(Seq::<Node>::empty()) =~= Seq::<NodeView>::empty());
                assert(views(children@) =~= flatten_children(root.children@, root.children@.len() as int)->Ok_0);
                Ok(Tree::from_nodes(children, width, height))
            },
            Err(e) => Err(e),
        }
    }
}

} // verus!
