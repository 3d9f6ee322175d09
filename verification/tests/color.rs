use dead_pulsar::color::{
    fade_to, fade_to_transparent, interpolate, random_foreground_color, random_grey_color, Color,
};
use dead_pulsar::unit::UNIT;
use rand::rngs::StdRng;
use rand::SeedableRng;

fn grey(level: u8) -> Color {
    Color { r: level, g: level, b: level, a: 255 }
}

#[test]
fn named_colors() {
    assert_eq!(Color::white(), Color { r: 255, g: 255, b: 255, a: 255 });
    assert_eq!(Color::black(), Color { r: 0, g: 0, b: 0, a: 255 });
    assert_eq!(Color::grey(), grey(128));
    assert_eq!(Color::green(), Color { r: 51, g: 255, b: 51, a: 255 });
    assert_eq!(Color::red(), Color { r: 255, g: 0, b: 0, a: 255 });
    assert_eq!(Color::marroon(), Color { r: 128, g: 0, b: 0, a: 255 });
    assert_eq!(Color::skyblue(), Color { r: 135, g: 206, b: 235, a: 255 });
    assert_eq!(Color::darkblue(), Color { r: 11, g: 26, b: 79, a: 255 });
}

#[test]
fn interpolation_runs_from_the_first_to_the_second() {
    let a = Color { r: 0, g: 100, b: 255, a: 10 };
    let b = Color { r: 255, g: 50, b: 255, a: 20 };
    assert_eq!(interpolate(&a, &b, 0), a);
    assert_eq!(interpolate(&a, &b, UNIT), b);
    assert_eq!(interpolate(&a, &b, UNIT / 2), Color { r: 127, g: 75, b: 255, a: 15 });
    assert_eq!(interpolate(&a, &b, UNIT / 4), Color { r: 63, g: 87, b: 255, a: 12 });
}

#[test]
fn a_fade_in_even_steps() {
    let colors = fade_to(4, &Color::black(), &Color::white());
    assert_eq!(colors, vec![grey(0), grey(63), grey(127), grey(191)]);
    assert_eq!(fade_to(1, &Color::red(), &Color::green()), vec![Color::red()]);
    assert_eq!(fade_to(0, &Color::red(), &Color::green()), vec![]);
    assert_eq!(fade_to(-3, &Color::red(), &Color::green()), vec![]);
}

#[test]
fn a_fade_to_transparency() {
    let white = |a: u8| Color { r: 255, g: 255, b: 255, a };
    assert_eq!(
        fade_to_transparent(4, &Color::white()),
        vec![white(255), white(192), white(128), white(64)]
    );
    assert_eq!(fade_to_transparent(0, &Color::white()), vec![]);
    let faint = Color { r: 1, g: 2, b: 3, a: 3 };
    assert_eq!(
        fade_to_transparent(2, &faint),
        vec![faint, Color { r: 1, g: 2, b: 3, a: 2 }]
    );
}

#[test]
fn random_colors() {
    let mut rng = StdRng::seed_from_u64(31);
    let first = random_foreground_color(&mut rng);
    let mut varied = false;
    for _ in 0..100 {
        let c = random_foreground_color(&mut rng);
        assert_eq!((c.r, c.g, c.a), (255, 255, 255));
        if c != first {
            varied = true;
        }
        let g = random_grey_color(&mut rng);
        assert!(26 <= g.r && g.r <= 127);
        assert_eq!((g.g, g.b, g.a), (g.r, g.r, 255));
    }
    assert!(varied);
}
