use dead_pulsar::render::{compute_field, TextAnchor, TextModel};
use dead_pulsar::color::Color;
use dead_pulsar::text::{title_style, tuto_style, ui_style, FontStyle, FontWeight};
use dead_pulsar::unit::{opposite_pos, Bounds1D, Point2};

#[test]
fn bounds_keep_their_ends() {
    let b = Bounds1D::new(50i64, 150i64);
    assert_eq!(b.min, 50);
    assert_eq!(b.max, 150);
    assert_eq!(b.get_size(), 100);
    let c = Bounds1D::new(7u8, 7u8);
    assert_eq!(c.get_size(), 0);
}

#[test]
fn opposite_mirrors_at_the_origin() {
    assert_eq!(opposite_pos(&Point2 { x: 3, y: -4 }), Point2 { x: -3, y: 4 });
    assert_eq!(opposite_pos(&Point2 { x: 0, y: 0 }), Point2 { x: 0, y: 0 });
}

#[test]
fn styles() {
    let d = FontStyle::default();
    assert_eq!((d.size, d.name.as_str(), d.weight, d.color), (10, "", FontWeight::Normal, Color::white()));
    let t = title_style();
    assert_eq!((t.size, t.name.as_str()), (56, "edundot"));
    let t = tuto_style();
    assert_eq!((t.size, t.name.as_str()), (30, "V5PRD___"));
    let t = ui_style();
    assert_eq!((t.size, t.name.as_str()), (28, "edundot"));
    assert_eq!(t.color, Color { r: 255, g: 255, b: 255, a: 255 });
}

#[test]
fn a_new_text_is_dirty() {
    let model = TextModel::new("score".to_string(), ui_style(), TextAnchor::Center);
    assert_eq!(model.string, "score");
    assert!(model.dirty);
    assert_eq!(model.text_oidx, None);
    assert_eq!(model.text_anchor, TextAnchor::Center);
    assert_eq!(model.fontstyle.size, 28);
}

#[test]
fn a_new_string_makes_the_text_dirty() {
    let mut model = TextModel::new("score".to_string(), ui_style(), TextAnchor::TopLeft);
    model.dirty = false;
    model.text_oidx = Some(3);
    model.update_string("score 10".to_string());
    assert_eq!(model.string, "score 10");
    assert!(model.dirty);
    assert_eq!(model.text_oidx, Some(3));
    assert_eq!(model.text_anchor, TextAnchor::TopLeft);
}

#[test]
fn the_field_leaves_two_lines_of_text() {
    assert_eq!(compute_field(640, 480, 22), [640, 436]);
    assert_eq!(compute_field(100, 44, 22), [100, 0]);
}
