use dead_pulsar::cell::{
    create_cells, on_bisector_at, place_disc_in_cell, push_along, slide_along, Cell,
};
use dead_pulsar::terrain::{HeightRange, Waypoint};
use dead_pulsar::unit::{Point2, Vector2, UNIT};
use rand::rngs::StdRng;
use rand::SeedableRng;

fn pt(x: i64, y: i64) -> Point2 {
    Point2 { x, y }
}

fn skewed() -> Cell {
    Cell::new(&pt(0, 0), &pt(10, 100), &pt(210, 130), &pt(200, -20))
}

fn wide() -> Cell {
    Cell::new(&pt(0, 0), &pt(0, 40_000), &pt(100_000, 60_000), &pt(100_000, -10_000))
}

fn corners(c: &Cell) -> [Point2; 4] {
    [c.x00, c.x01, c.x11, c.x10]
}

#[test]
fn new_derives_the_edges() {
    let c = skewed();
    assert_eq!(c.vy, Vector2 { x: 10, y: 100 });
    assert_eq!(c.vx1, Vector2 { x: 200, y: -20 });
    assert_eq!(c.vx2, Vector2 { x: 200, y: 30 });
    assert_eq!(Cell::new_from_pos(&pt(0, 0), &pt(10, 100), &pt(210, 130), &pt(200, -20)), c);
}

#[test]
fn interpolation_gives_the_corners_back() {
    for c in [skewed(), wide()] {
        assert_eq!(c.get_point(0, 0), c.x00);
        assert_eq!(c.get_point(UNIT, 0), c.x10);
        assert_eq!(c.get_point(0, UNIT), c.x01);
        assert_eq!(c.get_point(UNIT, UNIT), c.x11);
    }
}

#[test]
fn interpolation_inside_and_outside() {
    let c = skewed();
    assert_eq!(c.get_point(UNIT / 2, UNIT / 2), pt(105, 52));
    assert_eq!(c.get_center(), pt(105, 52));
    assert_eq!(c.get_point(UNIT / 4, 3 * UNIT / 4), pt(57, 79));
    assert_eq!(c.get_point(2 * UNIT, -UNIT), pt(390, -240));
    assert_eq!(c.get_point(21_845, 43_690), pt(73, 71));
}

#[test]
fn relative_point_leaves_the_corner_out() {
    let c = Cell::new(&pt(1000, 2000), &pt(1010, 2100), &pt(1210, 2130), &pt(1200, 1980));
    assert_eq!(c.get_relative_point(UNIT / 2, UNIT / 2), pt(105, 52));
    assert_eq!(c.get_point(UNIT / 2, UNIT / 2), pt(1105, 2052));
    assert_eq!(c.get_relative_point(0, 0), pt(0, 0));
}

#[test]
fn points_come_from_the_bottom_right_backward() {
    let c = skewed();
    assert_eq!(c.get_points(), vec![c.x10, c.x11, c.x01, c.x00]);
}

#[test]
fn validity_is_the_order_of_the_corners() {
    assert!(skewed().is_valid());
    assert!(wide().is_valid());
    assert!(!Cell::new(&pt(0, 0), &pt(0, 10), &pt(0, 10), &pt(0, 0)).is_valid());
    assert!(!Cell::new(&pt(0, 0), &pt(0, 0), &pt(10, 10), &pt(10, 0)).is_valid());
    assert!(!Cell::new(&pt(0, 0), &pt(0, 10), &pt(10, 0), &pt(10, 0)).is_valid());
    assert!(!Cell::new(&pt(0, 0), &pt(5, 10), &pt(5, 10), &pt(10, 0)).is_valid());
}

#[test]
fn split_by_the_lattice() {
    let cells = skewed().split(3);
    let expected = [
        [pt(0, 0), pt(3, 33), pt(69, 32), pt(66, -7)],
        [pt(66, -7), pt(69, 32), pt(136, 31), pt(133, -14)],
        [pt(133, -14), pt(136, 31), pt(203, 29), pt(200, -20)],
        [pt(3, 33), pt(6, 66), pt(73, 71), pt(69, 32)],
        [pt(69, 32), pt(73, 71), pt(139, 75), pt(136, 31)],
        [pt(136, 31), pt(139, 75), pt(206, 79), pt(203, 29)],
        [pt(6, 66), pt(10, 100), pt(76, 109), pt(73, 71)],
        [pt(73, 71), pt(76, 109), pt(143, 119), pt(139, 75)],
        [pt(139, 75), pt(143, 119), pt(210, 130), pt(206, 79)],
    ];
    assert_eq!(cells.len(), 9);
    for (cell, want) in cells.iter().zip(expected.iter()) {
        assert_eq!(&corners(cell), want);
        assert_eq!(*cell, Cell::new(&want[0], &want[1], &want[2], &want[3]));
    }
}

#[test]
fn split_xy_counts_columns_then_rows() {
    let cells = skewed().split_xy(2, 1);
    assert_eq!(cells.len(), 2);
    assert_eq!(corners(&cells[0]), [pt(0, 0), pt(10, 100), pt(110, 115), pt(100, -10)]);
    assert_eq!(corners(&cells[1]), [pt(100, -10), pt(110, 115), pt(210, 130), pt(200, -20)]);
    assert_eq!(skewed().split_xy(1, 4).len(), 4);
}

#[test]
fn split_into_one_is_the_cell() {
    let c = skewed();
    assert_eq!(c.split(1), vec![c]);
}

#[test]
fn split_without_cells() {
    assert_eq!(skewed().split(0).len(), 0);
    assert_eq!(skewed().split_xy(0, 5).len(), 0);
    assert_eq!(skewed().split_xy(5, 0).len(), 0);
}

#[test]
fn split_covers_the_cell_without_gaps() {
    for cell in [skewed(), wide()] {
        for n in 1..7i32 {
            let cells = cell.split(n);
            let side = n as usize;
            assert_eq!(cells.len(), side * side);
            assert_eq!(cells[0].x00, cell.x00);
            assert_eq!(cells[side - 1].x10, cell.x10);
            assert_eq!(cells[side * (side - 1)].x01, cell.x01);
            assert_eq!(cells[side * side - 1].x11, cell.x11);
            for row in 0..side {
                for col in 0..side {
                    let here = cells[row * side + col];
                    if col + 1 < side {
                        let right = cells[row * side + col + 1];
                        assert_eq!(here.x10, right.x00);
                        assert_eq!(here.x11, right.x01);
                    }
                    if row + 1 < side {
                        let above = cells[(row + 1) * side + col];
                        assert_eq!(here.x01, above.x00);
                        assert_eq!(here.x11, above.x10);
                    }
                }
            }
        }
    }
}

#[test]
fn bisector_keeps_the_distance_from_both_edges() {
    let up = Vector2 { x: 0, y: 100 };
    let right = Vector2 { x: 100, y: 0 };
    assert_eq!(on_bisector_at(&pt(0, 0), &up, &right, 10), Some(pt(10, 10)));
    let a = Vector2 { x: 3, y: 4 };
    let b = Vector2 { x: 4, y: -3 };
    assert_eq!(on_bisector_at(&pt(5, 5), &a, &b, 1000), Some(pt(1405, 205)));
}

#[test]
fn no_bisector_between_parallel_edges() {
    let up = Vector2 { x: 0, y: 100 };
    let also_up = Vector2 { x: 0, y: 50 };
    let down = Vector2 { x: 0, y: -50 };
    let none = Vector2 { x: 0, y: 0 };
    assert_eq!(on_bisector_at(&pt(0, 0), &up, &also_up, 10), None);
    assert_eq!(on_bisector_at(&pt(0, 0), &up, &down, 10), None);
    assert_eq!(on_bisector_at(&pt(0, 0), &up, &none, 10), None);
}

#[test]
fn bisector_out_of_range_is_none() {
    let a = Vector2 { x: 1_000_000, y: 1 };
    let b = Vector2 { x: 1_000_000, y: 0 };
    assert_eq!(on_bisector_at(&pt(0, 0), &a, &b, 1_000_000), None);
}

#[test]
fn shrink_moves_every_edge_inward() {
    let inner = wide().get_shrinked(5_000).unwrap();
    assert_eq!(corners(&inner), [pt(5_000, 4_524), pt(5_000, 35_901), pt(95_000, 53_901), pt(95_000, -4_476)]);
    assert!(inner.is_valid());
    let inner = wide().get_shrinked(20_000).unwrap();
    assert_eq!(
        corners(&inner),
        [pt(20_000, 18_099), pt(20_000, 23_604), pt(80_000, 35_604), pt(80_000, 12_099)]
    );
    let inner = wide().get_shrinked(30_000).unwrap();
    assert_eq!(
        corners(&inner),
        [pt(30_000, 27_149), pt(30_000, 15_406), pt(70_000, 23_406), pt(70_000, 23_149)]
    );
    assert!(!inner.is_valid());
}

#[test]
fn can_contains_is_the_validity_of_the_shrunk_cell() {
    assert!(wide().can_contains(5_000));
    assert!(wide().can_contains(20_000));
    assert!(!wide().can_contains(30_000));
    let flat = Cell::new(&pt(0, 0), &pt(0, 0), &pt(10, 0), &pt(10, 0));
    assert!(!flat.can_contains(1));
    assert_eq!(flat.get_shrinked(1), None);
}

#[test]
fn shrink_y_moves_along_the_sides() {
    let inner = wide().get_shrinked_y(5_000).unwrap();
    assert_eq!(corners(&inner), [pt(0, 5_000), pt(0, 35_000), pt(100_000, 55_000), pt(100_000, -5_000)]);
    let flat = Cell::new(&pt(0, 0), &pt(0, 0), &pt(10, 5), &pt(10, 0));
    assert_eq!(flat.get_shrinked_y(1), None);
}

#[test]
fn slices_have_their_thickness_at_right_angles() {
    let bottom = wide().get_bottom_slice(5_000).unwrap();
    assert_eq!(corners(&bottom), [pt(0, 0), pt(0, 5_024), pt(100_000, -4_976), pt(100_000, -10_000)]);
    let top = wide().get_top_slice(5_000).unwrap();
    assert_eq!(corners(&top), [pt(0, 34_901), pt(0, 40_000), pt(100_000, 60_000), pt(100_000, 54_901)]);
    let flat = Cell::new(&pt(0, 0), &pt(10, 0), &pt(20, 0), &pt(10, 0));
    assert_eq!(flat.get_bottom_slice(1), None);
    assert_eq!(flat.get_top_slice(1), None);
}

#[test]
fn sliding_and_pushing() {
    let up = Vector2 { x: 0, y: 40_000 };
    let edge = Vector2 { x: 100_000, y: -10_000 };
    assert_eq!(slide_along(&pt(0, 0), &up, &edge, 5_000), Some(pt(0, 5_024)));
    assert_eq!(slide_along(&pt(0, 0), &edge, &edge, 5_000), None);
    assert_eq!(push_along(&pt(1, 2), &Vector2 { x: 3, y: 4 }, 10), Some(pt(7, 10)));
    assert_eq!(push_along(&pt(1, 2), &Vector2 { x: 0, y: 0 }, 10), None);
    assert_eq!(push_along(&pt(0x4000_0000, 0), &Vector2 { x: 1, y: 0 }, 1), None);
}

#[test]
fn normals_point_into_the_cell() {
    let c = wide();
    assert_eq!(c.get_normal_bottom(), Some(Vector2 { x: 6_521, y: 65_211 }));
    assert_eq!(c.get_normal_top(), Some(Vector2 { x: 12_852, y: -64_264 }));
    let square = Cell::new(&pt(0, 0), &pt(0, 10), &pt(10, 10), &pt(10, 0));
    assert_eq!(square.get_normal_bottom(), Some(Vector2 { x: 0, y: UNIT }));
    assert_eq!(square.get_normal_top(), Some(Vector2 { x: 0, y: -UNIT }));
    let flat = Cell::new(&pt(0, 0), &pt(0, 10), &pt(0, 10), &pt(0, 0));
    assert_eq!(flat.get_normal_bottom(), None);
    assert_eq!(flat.get_normal_top(), None);
}

#[test]
fn position_and_normal() {
    let square = Cell::new(&pt(0, 0), &pt(0, 10), &pt(10, 10), &pt(10, 0));
    assert_eq!(
        square.get_pos_and_normal(UNIT / 2, UNIT / 2),
        (pt(5, 5), Some(Vector2 { x: 0, y: UNIT }))
    );
    assert_eq!(square.get_pos_and_normal(UNIT, UNIT / 2), (pt(10, 5), None));
}

#[test]
fn random_points_lie_in_the_cell() {
    let square = Cell::new(&pt(100, 200), &pt(100, 300), &pt(400, 300), &pt(400, 200));
    let mut rng = StdRng::seed_from_u64(17);
    let first = place_disc_in_cell(&square, &mut rng);
    let mut varied = false;
    for _ in 0..100 {
        let p = place_disc_in_cell(&square, &mut rng);
        assert!(100 <= p.x && p.x <= 400 && 200 <= p.y && p.y <= 300);
        if p != first {
            varied = true;
        }
        let q = square.place_at_bottom(&mut rng);
        assert!(100 <= q.x && q.x <= 400);
        assert_eq!(q.y, 200);
    }
    assert!(varied);
}

#[test]
fn a_cell_between_two_waypoints() {
    let prev = Waypoint { x: 100, range: HeightRange { bottom: 10, top: 50 } };
    let next = Waypoint { x: 300, range: HeightRange { bottom: -20, top: 90 } };
    let c = Cell::new_from_waypoints(&prev, &next);
    assert_eq!(corners(&c), [pt(100, 10), pt(100, 50), pt(300, 90), pt(300, -20)]);
    assert!(c.is_valid());
    assert!(!Cell::new_from_waypoints(&prev, &prev).is_valid());
}

#[test]
fn cells_between_two_lines() {
    let top = vec![pt(0, 50), pt(100, 60), pt(200, 40)];
    let bottom = vec![pt(0, 10), pt(100, 0), pt(200, 20), pt(300, 20)];
    let cells = create_cells(&top, &bottom);
    assert_eq!(cells.len(), 2);
    assert_eq!(corners(&cells[0]), [pt(0, 10), pt(0, 50), pt(100, 60), pt(100, 0)]);
    assert_eq!(corners(&cells[1]), [pt(100, 0), pt(100, 60), pt(200, 40), pt(200, 20)]);
    assert_eq!(create_cells(&vec![pt(0, 1)], &bottom).len(), 0);
    assert_eq!(create_cells(&vec![], &vec![]).len(), 0);
}

#[test]
fn a_rectangle_shrinks_by_the_distance_on_every_side() {
    let square = Cell::new(&pt(100, 200), &pt(100, 300), &pt(400, 300), &pt(400, 200));
    let inner = square.get_shrinked(30).unwrap();
    assert_eq!(corners(&inner), [pt(130, 230), pt(130, 270), pt(370, 270), pt(370, 230)]);
    assert!(square.can_contains(49));
    assert!(!square.can_contains(50));
    let long = Cell::new(&pt(0, 0), &pt(0, 1000), &pt(60, 1000), &pt(60, 0));
    assert!(long.can_contains(29));
    assert!(!long.can_contains(30));
}
