use dead_pulsar::cell::Cell;
use dead_pulsar::terrain::{
    build_tunnel2, build_tunnel_retrying, convert_to_cells, convert_to_polygons, extend_tunnel,
    BendDraw, HeightRange, StepDraw, StepError, Waypoint,
};
use dead_pulsar::unit::{Bounds1D, Point2, Size, UNIT};
use rand::rngs::StdRng;
use rand::SeedableRng;

fn world() -> Size {
    Size { x: 1_000_000, y: 200_000 }
}

fn grow(seed: u64) -> Result<Vec<Waypoint>, StepError> {
    let length_bounds = Bounds1D::new(50_000i64, 150_000i64);
    let height_bounds = Bounds1D::new(40_000i64, 120_000i64);
    let mut rng = StdRng::seed_from_u64(seed);
    build_tunnel2(&world(), &length_bounds, &height_bounds, 100_000, &mut rng)
}

fn first_success() -> Vec<Waypoint> {
    let mut seed: u64 = 0;
    loop {
        if let Ok(waypoints) = grow(seed) {
            return waypoints;
        }
        seed += 1;
        assert!(seed < 64);
    }
}

#[test]
fn concrete_scenario_entry_and_end() {
    let waypoints = first_success();
    let start = HeightRange { bottom: 66_666, top: 106_666 };
    assert_eq!(waypoints[0], Waypoint { x: 0, range: start });
    assert_eq!(waypoints[1], Waypoint { x: 0, range: start });
    assert_eq!(waypoints[2], Waypoint { x: 100_000, range: start });
    let last = waypoints[waypoints.len() - 1];
    assert!(850_000 <= last.x && last.x <= 1_000_000);
    assert_eq!(last.x, 1_000_000);
}

#[test]
fn same_seed_same_corridor() {
    for seed in 0..20u64 {
        assert_eq!(grow(seed), grow(seed));
    }
}

#[test]
fn different_seeds_differ() {
    assert_ne!(grow(1), grow(2));
}

#[test]
fn waypoints_advance_to_the_end_of_the_world() {
    let mut grown = 0;
    for seed in 0..40u64 {
        if let Ok(waypoints) = grow(seed) {
            grown += 1;
            assert!(waypoints.len() >= 3);
            for i in 1..waypoints.len() {
                assert!(waypoints[i - 1].x <= waypoints[i].x);
            }
            for i in 3..waypoints.len() {
                assert!(waypoints[i - 1].x < waypoints[i].x);
                assert!(waypoints[i].x - waypoints[i - 1].x <= 150_000);
            }
            assert_eq!(waypoints[waypoints.len() - 1].x, 1_000_000);
        }
    }
    assert!(grown > 30);
}

#[test]
fn waypoints_stay_in_the_world() {
    for seed in 0..40u64 {
        if let Ok(waypoints) = grow(seed) {
            for w in waypoints.iter() {
                assert!(0 <= w.range.bottom);
                assert!(w.range.bottom < w.range.top);
                assert!(w.range.top <= 200_000);
            }
        }
    }
}

fn grow_coarse(seed: u64) -> Result<Vec<Waypoint>, StepError> {
    let size = Size { x: 1_000, y: 200 };
    let length_bounds = Bounds1D::new(21i64, 60i64);
    let height_bounds = Bounds1D::new(20i64, 60i64);
    let mut rng = StdRng::seed_from_u64(seed);
    build_tunnel2(&size, &length_bounds, &height_bounds, 100, &mut rng)
}

#[test]
fn a_failed_growth_reports_a_step_error() {
    let mut failed = 0;
    let mut grown = 0;
    for seed in 0..400u64 {
        match grow_coarse(seed) {
            Err(e) => {
                assert!(
                    e == StepError::OutOfWorld
                        || e == StepError::TooNarrow
                        || e == StepError::Degenerate
                );
                failed += 1;
            },
            Ok(_) => grown += 1,
        }
    }
    assert!(failed > 0 && grown > 200);
}

#[test]
fn ranges_keep_the_height_bounds() {
    for seed in 0..40u64 {
        if let Ok(waypoints) = grow(seed) {
            for w in waypoints.iter() {
                let height = w.range.top - w.range.bottom;
                assert!(40_000 <= height && height <= 120_000);
            }
        }
    }
    let mut grown = 0;
    for seed in 0..200u64 {
        if let Ok(waypoints) = grow_coarse(seed) {
            grown += 1;
            for w in waypoints.iter() {
                let height = w.range.top - w.range.bottom;
                assert!(20 <= height && height <= 60);
                assert!(0 <= w.range.bottom && w.range.top <= 200);
            }
            assert_eq!(waypoints[waypoints.len() - 1].x, 1_000);
        }
    }
    assert!(grown > 100);
}

#[test]
fn a_start_outside_the_world_is_not_begun() {
    let length_bounds = Bounds1D::new(50_000i64, 150_000i64);
    let too_tall = Bounds1D::new(140_000i64, 150_000i64);
    let mut rng = StdRng::seed_from_u64(1);
    assert_eq!(
        build_tunnel2(&world(), &length_bounds, &too_tall, 100_000, &mut rng),
        Err(StepError::OutOfWorld)
    );
    let no_height = Bounds1D::new(0i64, 150_000i64);
    assert_eq!(
        build_tunnel2(&world(), &length_bounds, &no_height, 100_000, &mut rng),
        Err(StepError::OutOfWorld)
    );
}

#[test]
fn a_world_no_longer_than_the_first_section() {
    let small = Size { x: 80_000, y: 200_000 };
    let length_bounds = Bounds1D::new(50_000i64, 150_000i64);
    let height_bounds = Bounds1D::new(40_000i64, 120_000i64);
    let mut rng = StdRng::seed_from_u64(1);
    let start = HeightRange { bottom: 66_666, top: 106_666 };
    assert_eq!(
        build_tunnel2(&small, &length_bounds, &height_bounds, 100_000, &mut rng),
        Ok(vec![
            Waypoint { x: 0, range: start },
            Waypoint { x: 0, range: start },
            Waypoint { x: 80_000, range: start },
        ])
    );
}

#[test]
fn a_last_section_shorter_than_the_radius_runs_straight() {
    let size = Size { x: 130_000, y: 200_000 };
    let length_bounds = Bounds1D::new(50_000i64, 150_000i64);
    let height_bounds = Bounds1D::new(40_000i64, 120_000i64);
    let mut rng = StdRng::seed_from_u64(1);
    let start = HeightRange { bottom: 66_666, top: 106_666 };
    assert_eq!(
        build_tunnel2(&size, &length_bounds, &height_bounds, 100_000, &mut rng),
        Ok(vec![
            Waypoint { x: 0, range: start },
            Waypoint { x: 0, range: start },
            Waypoint { x: 100_000, range: start },
            Waypoint { x: 130_000, range: start },
        ])
    );
}

#[test]
fn a_draw_of_no_length_ends_the_growth() {
    let length_bounds = Bounds1D::new(0i64, 0i64);
    let height_bounds = Bounds1D::new(40_000i64, 120_000i64);
    let mut rng = StdRng::seed_from_u64(1);
    let grown = build_tunnel2(&world(), &length_bounds, &height_bounds, 100_000, &mut rng).unwrap();
    assert_eq!(grown.len(), 3);
    assert_eq!(grown[2].x, 100_000);
}

#[test]
fn one_step_for_one_draw() {
    let length_bounds = Bounds1D::new(50_000i64, 150_000i64);
    let height_bounds = Bounds1D::new(40_000i64, 120_000i64);
    let start = HeightRange { bottom: 66_666, top: 106_666 };
    let mut waypoints = vec![Waypoint { x: 100_000, range: start }];
    let draw = StepDraw {
        length: 67_611,
        bend: BendDraw { center: 30_000, top: 40_000, bottom: 20_000 },
    };
    assert_eq!(extend_tunnel(&mut waypoints, &world(), &length_bounds, &height_bounds, &draw), Ok(true));
    assert_eq!(
        waypoints,
        vec![
            Waypoint { x: 100_000, range: start },
            Waypoint { x: 167_611, range: HeightRange { bottom: 45_012, top: 151_318 } },
        ]
    );
    let bad = StepDraw { length: 54_312, bend: BendDraw { center: 49_859, top: UNIT, bottom: 0 } };
    let mut again = vec![Waypoint { x: 100_000, range: start }];
    assert_eq!(
        extend_tunnel(&mut again, &world(), &length_bounds, &height_bounds, &bad),
        Err(StepError::OutOfWorld)
    );
    assert_eq!(again, vec![Waypoint { x: 100_000, range: start }]);
    let mut at_end = vec![Waypoint { x: 1_000_000, range: start }];
    assert_eq!(extend_tunnel(&mut at_end, &world(), &length_bounds, &height_bounds, &draw), Ok(false));
    assert_eq!(at_end.len(), 1);
}

#[test]
fn polygons_follow_the_waypoints() {
    let waypoints = vec![
        Waypoint { x: 0, range: HeightRange { bottom: 60, top: 100 } },
        Waypoint { x: 500, range: HeightRange { bottom: 20, top: 150 } },
    ];
    let size = Size { x: 1000, y: 200 };
    let (top, bottom) = convert_to_polygons(&waypoints, &size);
    let p = |x: i64, y: i64| Point2 { x, y };
    assert_eq!(top, vec![p(0, 200), p(0, 100), p(500, 150), p(1000, 200)]);
    assert_eq!(bottom, vec![p(0, 0), p(0, 60), p(500, 20), p(1000, 0)]);
    let (top, bottom) = convert_to_polygons(&vec![], &size);
    assert_eq!(top, vec![p(1000, 200)]);
    assert_eq!(bottom, vec![p(1000, 0)]);
}

#[test]
fn one_cell_fewer_than_waypoints() {
    let waypoints = first_success();
    let cells = convert_to_cells(&waypoints);
    assert_eq!(cells.len(), waypoints.len() - 1);
    for (i, c) in cells.iter().enumerate() {
        assert_eq!(*c, Cell::new_from_waypoints(&waypoints[i], &waypoints[i + 1]));
    }
    assert!(!cells[0].is_valid());
    for c in cells.iter().skip(1) {
        assert!(c.is_valid());
    }
    assert_eq!(convert_to_cells(&vec![]).len(), 0);
    assert_eq!(convert_to_cells(&vec![waypoints[0]]).len(), 0);
}

#[test]
fn the_straight_entry_has_room_for_less_than_half_its_height() {
    let waypoints = first_success();
    let cells = convert_to_cells(&waypoints);
    assert!(cells[1].can_contains(19_999));
    assert!(!cells[1].can_contains(20_000));
    assert!(!cells[0].can_contains(1));
}

#[test]
fn a_bent_cell_has_room_for_half_the_radius() {
    let prev = Waypoint { x: 100_000, range: HeightRange { bottom: 66_666, top: 106_666 } };
    let next = Waypoint { x: 167_611, range: HeightRange { bottom: 45_012, top: 151_318 } };
    assert!(Cell::new_from_waypoints(&prev, &next).can_contains(20_000));
}

#[test]
fn a_short_last_cell_has_no_room() {
    let range = HeightRange { bottom: 105_277, top: 193_888 };
    let prev = Waypoint { x: 997_199, range };
    let next = Waypoint { x: 1_000_000, range };
    let cell = Cell::new_from_waypoints(&prev, &next);
    assert!(cell.is_valid());
    assert!(!cell.can_contains(20_000));
}

#[test]
fn without_an_attempt_there_is_no_corridor() {
    let length_bounds = Bounds1D::new(50_000i64, 150_000i64);
    let height_bounds = Bounds1D::new(40_000i64, 120_000i64);
    let mut rng = StdRng::seed_from_u64(1);
    assert_eq!(
        build_tunnel_retrying(&world(), &length_bounds, &height_bounds, 100_000, 0, &mut rng),
        Err(StepError::Degenerate)
    );
}

#[test]
fn one_attempt_is_one_growth() {
    let length_bounds = Bounds1D::new(50_000i64, 150_000i64);
    let height_bounds = Bounds1D::new(40_000i64, 120_000i64);
    for seed in 0..30u64 {
        let mut a = StdRng::seed_from_u64(seed);
        let mut b = StdRng::seed_from_u64(seed);
        assert_eq!(
            build_tunnel_retrying(&world(), &length_bounds, &height_bounds, 100_000, 1, &mut a),
            build_tunnel2(&world(), &length_bounds, &height_bounds, 100_000, &mut b)
        );
    }
}

#[test]
fn a_failed_growth_is_begun_again() {
    let size = Size { x: 1_000, y: 200 };
    let length_bounds = Bounds1D::new(21i64, 60i64);
    let height_bounds = Bounds1D::new(20i64, 60i64);
    let mut failing: Option<u64> = None;
    for seed in 0..4000u64 {
        if grow_coarse(seed).is_err() {
            failing = Some(seed);
            break;
        }
    }
    let seed = failing.unwrap();
    let mut rng = StdRng::seed_from_u64(seed);
    let grown = build_tunnel_retrying(&size, &length_bounds, &height_bounds, 100, 32, &mut rng)
        .unwrap();
    assert_eq!(grown[grown.len() - 1].x, 1_000);
    let mut again = StdRng::seed_from_u64(seed);
    let mut second = build_tunnel2(&size, &length_bounds, &height_bounds, 100, &mut again);
    assert!(second.is_err());
    while second.is_err() {
        second = build_tunnel2(&size, &length_bounds, &height_bounds, 100, &mut again);
    }
    assert_eq!(Ok(grown), second);
}

#[test]
fn a_start_outside_the_world_fails_at_every_attempt() {
    let length_bounds = Bounds1D::new(50_000i64, 150_000i64);
    let too_tall = Bounds1D::new(140_000i64, 150_000i64);
    let mut rng = StdRng::seed_from_u64(1);
    assert_eq!(
        build_tunnel_retrying(&world(), &length_bounds, &too_tall, 100_000, 5, &mut rng),
        Err(StepError::OutOfWorld)
    );
}

fn rise(d: i64) -> i64 {
    d.max(0)
}

fn fall(d: i64) -> i64 {
    (-d).max(0)
}

#[test]
fn cells_that_are_high_enough_for_their_slopes_have_room() {
    let radius: i64 = 20_000;
    let mut with_room = 0;
    let mut cells = 0;
    for seed in 0..40u64 {
        let waypoints = match grow(seed) {
            Ok(w) => w,
            Err(_) => continue,
        };
        for i in 2..waypoints.len() - 1 {
            let (p, n) = (waypoints[i], waypoints[i + 1]);
            let d = n.x - p.x;
            let db = n.range.bottom - p.range.bottom;
            let dt = n.range.top - p.range.top;
            let h0 = p.range.top - p.range.bottom;
            let h1 = n.range.top - n.range.bottom;
            let enough = d > 2 * radius
                && (h0 - 2 * radius - 1) * d > 2 * radius * (rise(db) + fall(dt))
                && (h1 - 2 * radius - 1) * d > 2 * radius * (fall(db) + rise(dt));
            cells += 1;
            if enough {
                with_room += 1;
                assert!(Cell::new_from_waypoints(&p, &n).can_contains(radius));
            }
        }
    }
    assert!(cells > 200 && with_room > 100);
}
