use suono::color::Color;
use suono::config::{GraphicConfig, GraphicPosition, GraphicShape, GraphicStyle};
use suono::layout::{Frame, Region};
use suono::waveform::Waveform;

fn frame(p: GraphicPosition, w: i32, h: i32) -> Frame {
    Region::of(p).frame(w, h)
}

#[test]
fn frames_for_a_1280_by_720_window() {
    let cases = [
        (GraphicPosition::Full, (1280, 720, 0, 0)),
        (GraphicPosition::Top, (1280, 360, 0, 0)),
        (GraphicPosition::Bottom, (1280, 360, 0, 360)),
        (GraphicPosition::Left, (640, 720, 0, 0)),
        (GraphicPosition::Right, (640, 720, 640, 0)),
        (GraphicPosition::TopLeft, (640, 360, 0, 0)),
        (GraphicPosition::TopRight, (640, 360, 640, 0)),
        (GraphicPosition::BottomLeft, (640, 360, 0, 360)),
        (GraphicPosition::BottomRight, (640, 360, 640, 360)),
    ];
    for (p, (w, h, x, y)) in cases {
        assert_eq!(frame(p, 1280, 720), Frame { width: w, height: h, left: x, top: y });
    }
}

#[test]
fn odd_sizes_round_down() {
    assert_eq!(frame(GraphicPosition::BottomRight, 1279, 721), Frame { width: 639, height: 360, left: 639, top: 360 });
    assert_eq!(frame(GraphicPosition::Right, -5, 3), Frame { width: -2, height: 3, left: -2, top: 0 });
}

#[test]
fn halves_adjoin() {
    for (w, h) in [(800, 600), (1279, 719), (1, 1), (0, 0)] {
        let l = frame(GraphicPosition::Left, w, h);
        let r = frame(GraphicPosition::Right, w, h);
        assert_eq!(r.left, l.left + l.width);
        let t = frame(GraphicPosition::Top, w, h);
        let b = frame(GraphicPosition::Bottom, w, h);
        assert_eq!(b.top, t.top + t.height);
    }
}

#[test]
fn waveform_layout() {
    let mut config = GraphicConfig::default();
    config.position = GraphicPosition::BottomRight;
    config.background_color = Color { r: 1, g: 2, b: 3, a: 4 };
    let mut w = Waveform::init(config);
    assert_eq!((w.width, w.height, w.topleft), (640, 360, (640, 360)));
    w.update(1000, 500);
    assert_eq!((w.width, w.height, w.topleft), (500, 250, (500, 250)));
    assert_eq!(w.background_color, Color { r: 1, g: 2, b: 3, a: 4 });
    assert_eq!(w.position, GraphicPosition::BottomRight);
}

#[test]
fn waveform_render_style() {
    let mut config = GraphicConfig::default();
    config.style = GraphicStyle::Dots;
    let w = Waveform::init(config.clone());
    assert_eq!(w.render_style(), Some(GraphicStyle::Dots));
    config.shape = GraphicShape::Circle;
    let w = Waveform::init(config);
    assert_eq!(w.render_style(), None);
}
