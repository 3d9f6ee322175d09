use dead_pulsar::ground::{
    build_sky, build_terrain, build_terrain_across, invert_pos, random_direction, random_length,
};
use dead_pulsar::random::choose_slope;
use dead_pulsar::terrain::SlopeDirection;
use dead_pulsar::unit::{Bounds2D, Point2, Size};
use rand::rngs::StdRng;
use rand::SeedableRng;

fn pt(x: i64, y: i64) -> Point2 {
    Point2 { x, y }
}

#[test]
fn bounds_of_points() {
    let pts = vec![pt(3, 4), pt(-2, 9), pt(7, -1), pt(0, 0)];
    let b = Bounds2D::from_positions(&pts);
    assert_eq!(b, Bounds2D { min: pt(-2, -1), max: pt(7, 9) });
    assert_eq!(b.get_size(), pt(9, 10));
    assert_eq!(Bounds2D::from_positions(&vec![pt(5, 6)]), Bounds2D { min: pt(5, 6), max: pt(5, 6) });
}

#[test]
fn radius_is_half_the_diagonal() {
    let b = Bounds2D { min: pt(0, 0), max: pt(6, 8) };
    assert_eq!(b.get_radius(), 5);
    let b = Bounds2D { min: pt(-3, -4), max: pt(0, 0) };
    assert_eq!(b.get_radius(), 2);
    let b = Bounds2D { min: pt(1, 1), max: pt(1, 1) };
    assert_eq!(b.get_radius(), 0);
}

#[test]
fn sky_has_the_corners_of_the_bounds() {
    let b = Bounds2D { min: pt(1, 2), max: pt(30, 40) };
    assert_eq!(build_sky(&b), vec![pt(1, 2), pt(1, 40), pt(30, 40), pt(30, 2)]);
}

#[test]
fn invert_counts_from_the_top() {
    let size = Size { x: 100, y: 50 };
    let mut points = vec![pt(0, 10), pt(40, 50), pt(100, 0)];
    invert_pos(&size, &mut points, false);
    assert_eq!(points, vec![pt(0, 40), pt(40, 0), pt(100, 50)]);
    let mut points = vec![pt(10, 10), pt(40, 20)];
    invert_pos(&size, &mut points, true);
    assert_eq!(points, vec![pt(0, 50), pt(10, 40), pt(40, 30), pt(100, 50)]);
    let mut none: Vec<Point2> = vec![];
    invert_pos(&size, &mut none, false);
    assert_eq!(none, vec![]);
}

#[test]
fn segment_lengths() {
    let mut rng = StdRng::seed_from_u64(2);
    assert_eq!(random_length(9, &mut rng), 9);
    assert_eq!(random_length(0, &mut rng), 0);
    assert_eq!(random_length(10, &mut rng), 10);
    let mut low = i64::MAX;
    let mut high = i64::MIN;
    for _ in 0..300 {
        let len = random_length(40, &mut rng);
        assert!(10 <= len && len <= 40);
        low = low.min(len);
        high = high.max(len);
    }
    assert_eq!((low, high), (10, 40));
}

#[test]
fn every_direction_is_drawn() {
    let mut rng = StdRng::seed_from_u64(4);
    let mut seen = [false; 3];
    for _ in 0..100 {
        match random_direction(&mut rng) {
            SlopeDirection::Flat => seen[0] = true,
            SlopeDirection::Up => seen[1] = true,
            SlopeDirection::Down => seen[2] = true,
        }
    }
    assert_eq!(seen, [true; 3]);
    let two = vec![SlopeDirection::Flat, SlopeDirection::Up];
    let mut flat = false;
    let mut up = false;
    for _ in 0..100 {
        match choose_slope(&two, &mut rng) {
            SlopeDirection::Flat => flat = true,
            SlopeDirection::Up => up = true,
            SlopeDirection::Down => panic!("not among the options"),
        }
    }
    assert!(flat && up);
    assert_eq!(choose_slope(&vec![SlopeDirection::Down], &mut rng), SlopeDirection::Down);
}

fn check_ground(points: &Vec<Point2>, size: &Size, max_length: i64) {
    assert!(points.len() >= 2);
    assert_eq!(points[0], pt(0, 0));
    assert_eq!(points[points.len() - 1], pt(size.x, 0));
    assert_eq!(points[points.len() - 2].x, size.x);
    for i in 1..points.len() - 1 {
        let dx = points[i].x - points[i - 1].x;
        let dy = points[i].y - points[i - 1].y;
        assert!(1 <= dx && dx <= max_length);
        assert!(dy == 0 || dy.abs() <= dx);
        assert!(0 <= points[i].y && points[i].y <= size.y / 2);
    }
}

#[test]
fn ground_runs_across_the_world() {
    let size = Size { x: 1000, y: 200 };
    let mut varied = false;
    let mut rng = StdRng::seed_from_u64(8);
    let first = build_terrain_across(&size, 60, &mut rng);
    for _ in 0..30 {
        let points = build_terrain_across(&size, 60, &mut rng);
        check_ground(&points, &size, 60);
        if points != first {
            varied = true;
        }
    }
    assert!(varied);
    let mut a = StdRng::seed_from_u64(8);
    let mut b = StdRng::seed_from_u64(8);
    assert_eq!(build_terrain_across(&size, 60, &mut a), build_terrain_across(&size, 60, &mut b));
}

#[test]
fn ground_of_a_world_without_width() {
    let mut rng = StdRng::seed_from_u64(8);
    assert_eq!(build_terrain_across(&Size { x: 0, y: 200 }, 60, &mut rng), vec![pt(0, 0), pt(0, 0)]);
    assert_eq!(build_terrain_across(&Size { x: 7, y: 200 }, 60, &mut rng)[1].x, 7);
}

#[test]
fn ground_is_moved_to_the_bounds() {
    let bounds = Bounds2D { min: pt(500, -100), max: pt(1500, 100) };
    let mut a = StdRng::seed_from_u64(5);
    let mut b = StdRng::seed_from_u64(5);
    let moved = build_terrain(&bounds, 60, &mut a);
    let plain = build_terrain_across(&Size { x: 1000, y: 200 }, 60, &mut b);
    assert_eq!(moved.len(), plain.len());
    for (m, p) in moved.iter().zip(plain.iter()) {
        assert_eq!(*m, pt(p.x + 500, p.y - 100));
    }
}
