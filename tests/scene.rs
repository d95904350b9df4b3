use psvg::geom::{Point, Transform, SUBPIXEL};
use psvg::logger::{Level, Logger};
use psvg::render::Image;
use psvg::scene::{Error, Fill, Paint, SourceKind, SourceNode, Stroke};
use psvg::size::{Size, SizeError};
use psvg::tree::{Color, Node, Tree};

fn px(x: i64, y: i64) -> Point {
    Point { x: x * SUBPIXEL, y: y * SUBPIXEL }
}

fn red() -> Color {
    Color { red: 255, green: 0, blue: 0 }
}

fn leaf(kind: SourceKind) -> SourceNode {
    SourceNode { kind, children: vec![] }
}

fn path(fill: Option<Fill>, stroke: Option<Stroke>, data: Vec<Point>) -> SourceNode {
    leaf(SourceKind::Path { transform: Transform::identity(), fill, stroke, data })
}

fn root(children: Vec<SourceNode>) -> SourceNode {
    SourceNode { kind: SourceKind::Group { transform: Transform::identity(), opacity: 255 }, children }
}

fn triangle_scene() -> Tree {
    let fill = Fill { paint: Paint::Color(red()), opacity: 255 };
    let r = root(vec![path(Some(fill), None, vec![px(0, 0), px(10, 0), px(5, 10)])]);
    Tree::from_source(&r, 20 * SUBPIXEL, 20 * SUBPIXEL).unwrap()
}

fn pixel(img: &Image, x: u32, y: u32) -> [u8; 4] {
    let i = ((y * img.width + x) * 4) as usize;
    [img.data[i], img.data[i + 1], img.data[i + 2], img.data[i + 3]]
}

fn lit(img: &Image) -> Vec<(u32, u32)> {
    let mut v = vec![];
    for y in 0..img.height {
        for x in 0..img.width {
            if pixel(img, x, y) != [0, 0, 0, 0] {
                v.push((x, y));
            }
        }
    }
    v
}

fn points(n: &Node) -> Vec<Point> {
    match n {
        Node::Fill { path, .. } => path.clone(),
        Node::Stroke { path, .. } => path.clone(),
    }
}

#[test]
fn triangle_vertices_are_plotted() {
    let img = triangle_scene().render();
    assert_eq!((img.width, img.height), (20, 20));
    assert_eq!(img.data.len(), 20 * 20 * 4);
    for (x, y) in [(0, 0), (10, 0), (5, 10)] {
        assert_eq!(pixel(&img, x, y), [255, 0, 0, 255]);
    }
    assert_eq!(lit(&img).len(), 3);
}

#[test]
fn resized_triangle_is_scaled() {
    let mut t = triangle_scene();
    t.resize(40 * SUBPIXEL, 40 * SUBPIXEL);
    let img = t.render();
    assert_eq!((img.width, img.height), (40, 40));
    assert_eq!(img.data.len(), 40 * 40 * 4);
    for (x, y) in [(0, 0), (20, 0), (10, 20)] {
        assert_eq!(pixel(&img, x, y), [255, 0, 0, 255]);
    }
    assert_eq!(lit(&img), vec![(0, 0), (20, 0), (10, 20)]);
}

#[test]
fn size_string_parses() {
    assert_eq!(Size::parse("128x142"), Ok(Size { w: 128, h: 142 }));
    assert_eq!(Size::parse("+7x0"), Ok(Size { w: 7, h: 0 }));
    assert_eq!(Size::parse("4294967295x1"), Ok(Size { w: 4294967295, h: 1 }));
}

#[test]
fn size_string_without_delimiter_fails() {
    assert_eq!(Size::parse("128"), Err(SizeError::MissingDelimiter));
    assert_eq!(Size::parse(""), Err(SizeError::MissingDelimiter));
    assert_eq!(
        SizeError::MissingDelimiter.message(),
        "please delimit width and height with an 'x': 128x142"
    );
    assert_eq!(SizeError::InvalidNumber.message(), "width and height must be whole numbers of pixels");
}

#[test]
fn size_string_with_bad_number_fails() {
    assert_eq!(Size::parse("12xab"), Err(SizeError::InvalidNumber));
    assert_eq!(Size::parse("x12"), Err(SizeError::InvalidNumber));
    assert_eq!(Size::parse("12x"), Err(SizeError::InvalidNumber));
    assert_eq!(Size::parse("4294967296x1"), Err(SizeError::InvalidNumber));
    assert_eq!(Size::parse("1x2x3"), Err(SizeError::InvalidNumber));
    assert_eq!(Size::parse("-1x2"), Err(SizeError::InvalidNumber));
}

#[test]
fn group_opacity_leaves_children_alone() {
    let a = Fill { paint: Paint::Color(red()), opacity: 200 };
    let b = Fill { paint: Paint::Color(Color { red: 0, green: 0, blue: 255 }), opacity: 100 };
    let group = SourceNode {
        kind: SourceKind::Group { transform: Transform::identity(), opacity: 128 },
        children: vec![path(Some(a), None, vec![px(1, 1)]), path(Some(b), None, vec![px(2, 2)])],
    };
    let t = Tree::from_source(&root(vec![group]), 4 * SUBPIXEL, 4 * SUBPIXEL).unwrap();
    assert_eq!(t.children.len(), 2);
    let img = t.render();
    assert_eq!(pixel(&img, 1, 1), [255, 0, 0, 200]);
    assert_eq!(pixel(&img, 2, 2), [0, 0, 255, 100]);
}

#[test]
fn resize_to_own_size_keeps_points() {
    let fill = Fill { paint: Paint::Color(red()), opacity: 255 };
    let odd = Point { x: 12345, y: -6789 };
    let r = root(vec![path(Some(fill), None, vec![odd, px(3, 4)])]);
    let mut t = Tree::from_source(&r, 7 * SUBPIXEL + 3, 9 * SUBPIXEL).unwrap();
    let before = points(&t.children[0]);
    t.resize(7 * SUBPIXEL + 3, 9 * SUBPIXEL);
    assert_eq!(points(&t.children[0]), before);
}

#[test]
fn resize_round_trip_is_close() {
    let fill = Fill { paint: Paint::Color(red()), opacity: 255 };
    let pts = vec![Point { x: 12345, y: 67891 }, px(3, 4), Point { x: -99999, y: 5 }];
    let r = root(vec![path(Some(fill), None, pts.clone())]);
    let (w, h) = (10 * SUBPIXEL, 10 * SUBPIXEL);
    let mut t = Tree::from_source(&r, w, h).unwrap();
    t.resize(w * 3, h * 7 / 2);
    t.resize(w, h);
    assert_eq!((t.width, t.height), (w, h));
    assert_eq!(points(&t.children[0]), pts);
}

#[test]
fn shrinking_far_and_back_restores_points() {
    let fill = Fill { paint: Paint::Color(red()), opacity: 255 };
    let pts = vec![Point { x: 100 * SUBPIXEL - 1, y: 3 }];
    let r = root(vec![path(Some(fill), None, pts.clone())]);
    let mut t = Tree::from_source(&r, 100 * SUBPIXEL, 100 * SUBPIXEL).unwrap();
    t.resize(SUBPIXEL, SUBPIXEL);
    assert_eq!(points(&t.children[0]), vec![Point { x: SUBPIXEL - 1, y: 0 }]);
    t.resize(100 * SUBPIXEL, 100 * SUBPIXEL);
    assert_eq!(points(&t.children[0]), pts);
}

#[test]
fn resize_from_a_resized_size_and_back() {
    let fill = Fill { paint: Paint::Color(red()), opacity: 255 };
    let r = root(vec![path(Some(fill), None, vec![Point { x: 123457, y: 98765 }])]);
    let mut t = Tree::from_source(&r, 10 * SUBPIXEL, 10 * SUBPIXEL).unwrap();
    t.resize(7 * SUBPIXEL, 3 * SUBPIXEL);
    let before = points(&t.children[0]);
    t.resize(SUBPIXEL / 3, 50 * SUBPIXEL);
    t.resize(7 * SUBPIXEL, 3 * SUBPIXEL);
    assert_eq!(points(&t.children[0]), before);
}

#[test]
fn path_without_points_is_left_out() {
    let fill = Fill { paint: Paint::Color(red()), opacity: 255 };
    let r = root(vec![path(Some(fill), None, vec![]), path(None, None, vec![px(1, 1)])]);
    let t = Tree::from_source(&r, 4 * SUBPIXEL, 4 * SUBPIXEL).unwrap();
    assert_eq!(t.children.len(), 1);
    let grad = Fill { paint: Paint::Pattern, opacity: 255 };
    let r = root(vec![path(Some(grad), None, vec![])]);
    assert_eq!(Tree::from_source(&r, SUBPIXEL, SUBPIXEL).err(), Some(Error::UnsupportedPaint));
}

#[test]
fn rendering_twice_gives_the_same_bytes() {
    let t = triangle_scene();
    assert_eq!(t.render().data, t.render().data);
}

#[test]
fn points_off_canvas_are_dropped() {
    let fill = Fill { paint: Paint::Color(red()), opacity: 255 };
    let pts = vec![px(-1, 0), px(0, -3), px(4, 0), px(0, 4), px(100, 100), px(3, 3), Point { x: i64::MAX, y: i64::MIN }];
    let t = Tree::from_source(&root(vec![path(Some(fill), None, pts)]), 4 * SUBPIXEL, 4 * SUBPIXEL)
        .unwrap();
    let img = t.render();
    assert_eq!(img.data.len(), 4 * 4 * 4);
    assert_eq!(lit(&img), vec![(3, 3)]);
}

#[test]
fn path_without_paint_is_transparent_fill() {
    let t = Tree::from_source(&root(vec![path(None, None, vec![px(1, 1), px(2, 2)])]), 4 * SUBPIXEL, 4 * SUBPIXEL)
        .unwrap();
    match &t.children[0] {
        Node::Fill { color, opacity, .. } => {
            assert_eq!(*color, Color::black());
            assert_eq!(*opacity, 0);
        },
        _ => panic!("expected a fill"),
    }
    assert!(t.render().data.iter().all(|b| *b == 0));
}

#[test]
fn stroke_without_fill_keeps_transparent_fill() {
    let s = Stroke { paint: Paint::Color(Color { red: 0, green: 9, blue: 0 }), opacity: 77, width: 3 };
    let t = Tree::from_source(&root(vec![path(None, Some(s), vec![px(1, 2)])]), 4 * SUBPIXEL, 4 * SUBPIXEL)
        .unwrap();
    match &t.children[0] {
        Node::Stroke { color, opacity, stroke_color, stroke_opacity, stroke, .. } => {
            assert_eq!((*color, *opacity), (Color::black(), 0));
            assert_eq!((*stroke_color, *stroke_opacity, *stroke), (Color { red: 0, green: 9, blue: 0 }, 77, 3));
        },
        _ => panic!("expected a stroke"),
    }
    assert_eq!(pixel(&t.render(), 1, 2), [0, 9, 0, 77]);
}

#[test]
fn fill_and_stroke_make_a_stroke_node() {
    let f = Fill { paint: Paint::Color(red()), opacity: 10 };
    let s = Stroke { paint: Paint::Color(Color { red: 1, green: 2, blue: 3 }), opacity: 20, width: 5 };
    let t = Tree::from_source(&root(vec![path(Some(f), Some(s), vec![px(0, 0)])]), SUBPIXEL, SUBPIXEL).unwrap();
    match &t.children[0] {
        Node::Stroke { color, opacity, stroke_opacity, .. } => {
            assert_eq!((*color, *opacity, *stroke_opacity), (red(), 10, 20));
        },
        _ => panic!("expected a stroke"),
    }
}

#[test]
fn transforms_compose_child_then_group() {
    let fill = Fill { paint: Paint::Color(red()), opacity: 255 };
    let child = leaf(SourceKind::Path {
        transform: Transform { sx: 2 * 65536, ky: 0, kx: 0, sy: 2 * 65536, tx: 0, ty: 0 },
        fill: Some(fill),
        stroke: None,
        data: vec![px(1, 1)],
    });
    let shift = Transform { sx: 65536, ky: 0, kx: 0, sy: 65536, tx: 3 * SUBPIXEL, ty: SUBPIXEL };
    let group = SourceNode { kind: SourceKind::Group { transform: shift, opacity: 255 }, children: vec![child] };
    let t = Tree::from_source(&root(vec![group]), 8 * SUBPIXEL, 8 * SUBPIXEL).unwrap();
    assert_eq!(points(&t.children[0]), vec![px(5, 3)]);
}

#[test]
fn children_paint_in_document_order() {
    let a = Fill { paint: Paint::Color(red()), opacity: 255 };
    let b = Fill { paint: Paint::Color(Color { red: 0, green: 255, blue: 0 }), opacity: 255 };
    let r = root(vec![path(Some(a), None, vec![px(1, 1)]), path(Some(b), None, vec![px(1, 1)])]);
    let img = Tree::from_source(&r, 2 * SUBPIXEL, 2 * SUBPIXEL).unwrap().render();
    assert_eq!(pixel(&img, 1, 1), [0, 255, 0, 255]);
}

#[test]
fn unsupported_nodes_fail() {
    let img = root(vec![leaf(SourceKind::Image)]);
    assert_eq!(Tree::from_source(&img, SUBPIXEL, SUBPIXEL).err(), Some(Error::UnsupportedImage));
    let text = root(vec![leaf(SourceKind::Text)]);
    assert_eq!(Tree::from_source(&text, SUBPIXEL, SUBPIXEL).err(), Some(Error::UnsupportedText));
    let grad = Fill { paint: Paint::LinearGradient, opacity: 255 };
    let r = root(vec![path(Some(grad), None, vec![px(0, 0)])]);
    assert_eq!(Tree::from_source(&r, SUBPIXEL, SUBPIXEL).err(), Some(Error::UnsupportedPaint));
}

#[test]
fn half_pixels_round_away_from_zero() {
    let fill = Fill { paint: Paint::Color(red()), opacity: 255 };
    let p = Point { x: SUBPIXEL / 2, y: SUBPIXEL + SUBPIXEL / 2 - 1 };
    let img = Tree::from_source(&root(vec![path(Some(fill), None, vec![p])]), 3 * SUBPIXEL, 3 * SUBPIXEL)
        .unwrap()
        .render();
    assert_eq!(lit(&img), vec![(1, 1)]);
    let t = Tree::from_source(&root(vec![]), 5 * SUBPIXEL / 2, SUBPIXEL).unwrap();
    assert!(t.fits_canvas());
    assert_eq!(t.render().width, 3);
}

#[test]
fn logger_tags() {
    assert_eq!(Logger::tag(Level::Error), "err");
    assert_eq!(Logger::tag(Level::Trace), "trc");
    assert!(Logger::is_plain(Level::Info));
    assert!(!Logger::is_plain(Level::Warn));
}
