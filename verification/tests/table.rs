use dead_pulsar::cell::Cell;
use dead_pulsar::terrain::{shape_tunnel_height, BendDraw, HeightRange, StepError};
use dead_pulsar::unit::{Bounds1D, Point2};

fn bend(
    world: (i64, i64),
    seg: (i64, i64),
    hb: (i64, i64),
    distance: i64,
    draw: (i64, i64, i64),
) -> Result<(i64, i64), StepError> {
    let world = HeightRange { bottom: world.0, top: world.1 };
    let seg = HeightRange { bottom: seg.0, top: seg.1 };
    let hb = Bounds1D::new(hb.0, hb.1);
    let draw = BendDraw { center: draw.0, top: draw.1, bottom: draw.2 };
    shape_tunnel_height(&world, &seg, &hb, distance, &draw).map(|r| (r.bottom, r.top))
}

#[test]
fn bends_by_the_table() {
    assert_eq!(
        bend((0, 1000), (592, 818), (71, 816), 174, (53751, 34763, 32134)),
        Ok((222, 672))
    );
    assert_eq!(
        bend((0, 1000), (539, 969), (115, 540), 339, (40570, 43285, 9787)),
        Ok((253, 757))
    );
    assert_eq!(
        bend((0, 720000), (557431, 705220), (140823, 296401), 572743, (7665, 45802, 65536)),
        Ok((296230, 592125))
    );
    assert_eq!(
        bend((0, 200000), (102316, 159785), (14107, 99858), 59366, (26364, 65536, 65536)),
        Ok((161827, 200000))
    );
    assert_eq!(
        bend((0, 200), (58, 102), (18, 122), 24, (29519, 65536, 41841)),
        Err(StepError::OutOfWorld)
    );
    assert_eq!(
        bend((0, 1000), (339, 639), (182, 296), 424, (60852, 0, 65536)),
        Ok((155, 451))
    );
    assert_eq!(
        bend((0, 1000), (144, 589), (177, 820), 574, (44205, 43974, 0)),
        Ok((0, 783))
    );
    assert_eq!(
        bend((0, 720000), (609244, 719850), (104982, 321943), 173612, (12843, 0, 65536)),
        Ok((204809, 526752))
    );
    assert_eq!(
        bend((0, 720000), (85394, 297794), (109825, 349471), 407873, (31363, 60445, 65536)),
        Ok((393499, 682434))
    );
    assert_eq!(
        bend((0, 200), (51, 190), (32, 138), 51, (39501, 65536, 17795)),
        Ok((80, 199))
    );
    assert_eq!(
        bend((0, 50000), (32454, 44134), (9889, 16482), 22698, (50934, 23084, 65536)),
        Ok((17888, 34370))
    );
    assert_eq!(
        bend((0, 50000), (44434, 48659), (1997, 39933), 8174, (9616, 0, 7309)),
        Ok((0, 18320))
    );
    assert_eq!(
        bend((0, 720000), (92141, 693883), (73113, 717930), 164213, (30966, 63969, 0)),
        Ok((0, 704768))
    );
    assert_eq!(
        bend((0, 200000), (27340, 196310), (13212, 175161), 17168, (14150, 23570, 0)),
        Ok((0, 85153))
    );
    assert_eq!(
        bend((0, 200000), (47775, 73202), (23413, 30994), 37019, (27547, 27244, 65536)),
        Ok((75921, 106915))
    );
    assert_eq!(
        bend((0, 720000), (285953, 665908), (141988, 470886), 807101, (57556, 65536, 65536)),
        Ok((435990, 719999))
    );
    assert_eq!(
        bend((0, 200), (53, 122), (49, 83), 129, (52153, 0, 65536)),
        Ok((19, 102))
    );
    assert_eq!(
        bend((0, 200000), (176869, 189731), (12815, 100724), 63464, (29221, 54948, 0)),
        Ok((71771, 172495))
    );
    assert_eq!(
        bend((0, 200), (127, 196), (34, 175), 47, (56566, 0, 44562)),
        Ok((0, 152))
    );
    assert_eq!(
        bend((0, 50000), (14752, 46722), (12163, 22494), 19208, (56491, 0, 0)),
        Ok((12841, 35335))
    );
    assert_eq!(
        bend((0, 50000), (32441, 41372), (6287, 22829), 18179, (61114, 65536, 0)),
        Ok((27170, 49999))
    );
    assert_eq!(
        bend((0, 200000), (95268, 136135), (12968, 44227), 54693, (23679, 0, 0)),
        Ok((4658, 48885))
    );
    assert_eq!(
        bend((0, 50000), (20813, 34749), (5033, 12742), 23618, (18018, 27834, 65536)),
        Ok((17152, 27330))
    );
    assert_eq!(
        bend((0, 200000), (113780, 194607), (44202, 113918), 85983, (30268, 7, 0)),
        Ok((13415, 127333))
    );
    assert_eq!(
        bend((0, 1000), (416, 806), (162, 748), 749, (22649, 32414, 65536)),
        Ok((332, 659))
    );
    assert_eq!(
        bend((0, 200), (163, 191), (27, 142), 131, (52184, 65536, 0)),
        Ok((56, 198))
    );
    assert_eq!(
        bend((0, 50000), (30632, 44987), (4967, 32569), 15080, (37527, 65536, 65536)),
        Ok((39271, 49998))
    );
    assert_eq!(
        bend((0, 1000), (214, 719), (236, 902), 1083, (17642, 65536, 0)),
        Ok((96, 998))
    );
    assert_eq!(
        bend((0, 200), (155, 182), (19, 137), 57, (32426, 51041, 0)),
        Ok((27, 164))
    );
    assert_eq!(
        bend((0, 1000), (31, 646), (231, 604), 363, (17530, 65536, 0)),
        Err(StepError::OutOfWorld)
    );
}

fn quad(c: [(i64, i64); 4]) -> Cell {
    let p = |q: (i64, i64)| Point2 { x: q.0, y: q.1 };
    Cell::new(&p(c[0]), &p(c[1]), &p(c[2]), &p(c[3]))
}

fn corners(c: Option<Cell>) -> Option<[(i64, i64); 4]> {
    c.map(|c| [(c.x00.x, c.x00.y), (c.x01.x, c.x01.y), (c.x11.x, c.x11.y), (c.x10.x, c.x10.y)])
}

#[test]
fn insets_and_slices_by_the_table() {
    let c = quad([(571, 276), (564, 888), (925, -187), (932, -240)]);
    assert_eq!(corners(c.get_shrinked(86)), Some([(656, 303), (656, 343), (842, -210), (801, 96)]));
    assert_eq!(corners(c.get_shrinked_y(86)), Some([(570, 362), (564, 802), (936, -273), (920, -154)]));
    assert_eq!(corners(c.get_bottom_slice(86)), Some([(571, 276), (569, 428), (907, -56), (932, -240)]));
    assert_eq!(corners(c.get_top_slice(86)), Some([(567, 608), (564, 888), (925, -187), (983, -632)]));
    assert_eq!(c.can_contains(86), false);
    let c = quad([(737, -307), (757, 157), (2939, -112), (2919, -329)]);
    assert_eq!(corners(c.get_shrinked(106)), Some([(847, -203), (857, 37), (2824, -205), (2822, -223)]));
    assert_eq!(corners(c.get_shrinked_y(106)), Some([(741, -201), (752, 51), (2929, -218), (2928, -223)]));
    assert_eq!(corners(c.get_bottom_slice(106)), Some([(737, -307), (741, -202), (2928, -224), (2919, -329)]));
    assert_eq!(corners(c.get_top_slice(106)), Some([(752, 50), (757, 157), (2939, -112), (2929, -218)]));
    assert_eq!(c.can_contains(106), true);
    let c = quad([(-455, -27), (-461, 120), (-128, 229), (-122, -398)]);
    assert_eq!(corners(c.get_shrinked(17)), Some([(-439, -21), (-444, 107), (-145, 205), (-140, -354)]));
    assert_eq!(corners(c.get_shrinked_y(17)), Some([(-456, -10), (-461, 103), (-128, 212), (-123, -381)]));
    assert_eq!(corners(c.get_bottom_slice(17)), Some([(-455, -27), (-457, -1), (-123, -373), (-122, -398)]));
    assert_eq!(corners(c.get_top_slice(17)), Some([(-461, 102), (-461, 120), (-128, 229), (-128, 211)]));
    assert_eq!(c.can_contains(17), true);
    let c = quad([(535, 301), (507, 924), (2135, 1030), (2163, 350)]);
    assert_eq!(corners(c.get_shrinked(29)), Some([(562, 330), (537, 896), (2107, 999), (2132, 378)]));
    assert_eq!(corners(c.get_shrinked_y(29)), Some([(533, 330), (508, 895), (2136, 1001), (2161, 379)]));
    assert_eq!(corners(c.get_bottom_slice(29)), Some([(535, 301), (533, 329), (2161, 378), (2163, 350)]));
    assert_eq!(corners(c.get_top_slice(29)), Some([(508, 895), (507, 924), (2135, 1030), (2136, 1001)]));
    assert_eq!(c.can_contains(29), true);
    let c = quad([(546, -260), (523, -72), (2965, 487), (2988, -198)]);
    assert_eq!(corners(c.get_shrinked(105)), Some([(638, -153), (638, -154), (2864, 356), (2879, -96)]));
    assert_eq!(corners(c.get_shrinked_y(105)), Some([(533, -156), (535, -177), (2968, 382), (2984, -93)]));
    assert_eq!(corners(c.get_bottom_slice(105)), Some([(546, -260), (533, -156), (2984, -94), (2988, -198)]));
    assert_eq!(corners(c.get_top_slice(105)), Some([(535, -177), (523, -72), (2965, 487), (2968, 380)]));
    assert_eq!(c.can_contains(105), false);
    let c = quad([(421, 203), (424, 333), (2052, 652), (2049, 499)]);
    assert_eq!(corners(c.get_shrinked(53)), Some([(475, 266), (475, 289), (1997, 587), (1996, 543)]));
    assert_eq!(corners(c.get_shrinked_y(53)), Some([(422, 256), (422, 280), (2050, 599), (2050, 552)]));
    assert_eq!(corners(c.get_bottom_slice(53)), Some([(421, 203), (422, 257), (2050, 553), (2049, 499)]));
    assert_eq!(corners(c.get_top_slice(53)), Some([(422, 278), (424, 333), (2052, 652), (2050, 597)]));
    assert_eq!(c.can_contains(53), true);
    let c = quad([(-328, 217), (-338, 578), (2291, 849), (2301, 60)]);
    assert_eq!(corners(c.get_shrinked(3)), Some([(-326, 219), (-335, 575), (2288, 845), (2297, 63)]));
    assert_eq!(corners(c.get_shrinked_y(3)), Some([(-329, 220), (-338, 575), (2291, 846), (2300, 63)]));
    assert_eq!(corners(c.get_bottom_slice(3)), Some([(-328, 217), (-329, 220), (2300, 63), (2301, 60)]));
    assert_eq!(corners(c.get_top_slice(3)), Some([(-338, 574), (-338, 578), (2291, 849), (2291, 845)]));
    assert_eq!(c.can_contains(3), true);
    let c = quad([(234, -109), (215, 53), (1406, 376), (1425, 83)]);
    assert_eq!(corners(c.get_shrinked(65)), Some([(290, -35), (286, 4), (1346, 292), (1356, 137)]));
    assert_eq!(corners(c.get_shrinked_y(65)), Some([(226, -45), (222, -12), (1410, 311), (1420, 148)]));
    assert_eq!(corners(c.get_bottom_slice(65)), Some([(234, -109), (226, -45), (1420, 148), (1425, 83)]));
    assert_eq!(corners(c.get_top_slice(65)), Some([(222, -13), (215, 53), (1406, 376), (1410, 309)]));
    assert_eq!(c.can_contains(65), true);
    let c = quad([(636, -277), (650, 304), (1754, 374), (1740, -365)]);
    assert_eq!(corners(c.get_shrinked(95)), Some([(733, -190), (742, 214), (1657, 272), (1646, -263)]));
    assert_eq!(corners(c.get_shrinked_y(95)), Some([(638, -182), (647, 209), (1752, 279), (1741, -270)]));
    assert_eq!(corners(c.get_bottom_slice(95)), Some([(636, -277), (638, -182), (1741, -270), (1740, -365)]));
    assert_eq!(corners(c.get_top_slice(95)), Some([(647, 208), (650, 304), (1754, 374), (1752, 278)]));
    assert_eq!(c.can_contains(95), true);
    let c = quad([(110, -372), (99, -219), (931, 919), (942, 191)]);
    assert_eq!(corners(c.get_shrinked(33)), Some([(138, -313), (132, -229), (899, 820), (908, 208)]));
    assert_eq!(corners(c.get_shrinked_y(33)), Some([(107, -339), (101, -252), (931, 886), (941, 224)]));
    assert_eq!(corners(c.get_bottom_slice(33)), Some([(110, -372), (107, -335), (941, 230), (942, 191)]));
    assert_eq!(corners(c.get_top_slice(33)), Some([(102, -270), (99, -219), (931, 919), (931, 864)]));
    assert_eq!(c.can_contains(33), true);
    let c = quad([(-949, 131), (-922, 845), (1741, 65), (1714, -388)]);
    assert_eq!(corners(c.get_shrinked(54)), Some([(-894, 175), (-871, 773), (1684, 25), (1663, -324)]));
    assert_eq!(corners(c.get_shrinked_y(54)), Some([(-947, 185), (-925, 791), (1737, 11), (1717, -334)]));
    assert_eq!(corners(c.get_bottom_slice(54)), Some([(-949, 131), (-947, 185), (1717, -334), (1714, -388)]));
    assert_eq!(corners(c.get_top_slice(54)), Some([(-925, 789), (-922, 845), (1741, 65), (1737, 9)]));
    assert_eq!(c.can_contains(54), true);
    let c = quad([(-932, -341), (-913, -38), (1083, 617), (1064, 229)]);
    assert_eq!(corners(c.get_shrinked(45)), Some([(-884, -281), (-871, -72), (1034, 553), (1020, 263)]));
    assert_eq!(corners(c.get_shrinked_y(45)), Some([(-930, -296), (-916, -83), (1080, 572), (1066, 274)]));
    assert_eq!(corners(c.get_bottom_slice(45)), Some([(-932, -341), (-930, -294), (1066, 276), (1064, 229)]));
    assert_eq!(corners(c.get_top_slice(45)), Some([(-917, -87), (-913, -38), (1083, 617), (1080, 568)]));
    assert_eq!(c.can_contains(45), true);
    let c = quad([(-404, 408), (-374, 1121), (1651, 573), (1621, 95)]);
    assert_eq!(corners(c.get_shrinked(83)), Some([(-319, 478), (-296, 1013), (1564, 510), (1544, 190)]));
    assert_eq!(corners(c.get_shrinked_y(83)), Some([(-401, 491), (-378, 1038), (1645, 490), (1626, 178)]));
    assert_eq!(corners(c.get_bottom_slice(83)), Some([(-404, 408), (-401, 491), (1626, 178), (1621, 95)]));
    assert_eq!(corners(c.get_top_slice(83)), Some([(-378, 1036), (-374, 1121), (1651, 573), (1645, 488)]));
    assert_eq!(c.can_contains(83), true);
    let c = quad([(-936, 434), (-913, 744), (1926, 103), (1903, -309)]);
    assert_eq!(corners(c.get_shrinked(82)), Some([(-850, 496), (-839, 643), (1840, 38), (1826, -205)]));
    assert_eq!(corners(c.get_shrinked_y(82)), Some([(-930, 516), (-920, 662), (1921, 21), (1907, -227)]));
    assert_eq!(corners(c.get_bottom_slice(82)), Some([(-936, 434), (-930, 517), (1907, -226), (1903, -309)]));
    assert_eq!(corners(c.get_top_slice(82)), Some([(-920, 661), (-913, 744), (1926, 103), (1921, 19)]));
    assert_eq!(c.can_contains(82), true);
    let c = quad([(-261, -3), (-293, 389), (1817, 643), (1849, 462)]);
    assert_eq!(corners(c.get_shrinked(65)), Some([(-203, 76), (-224, 331), (1763, 571), (1774, 512)]));
    assert_eq!(corners(c.get_shrinked_y(65)), Some([(-267, 61), (-288, 324), (1828, 578), (1837, 526)]));
    assert_eq!(corners(c.get_bottom_slice(65)), Some([(-261, -3), (-267, 62), (1837, 526), (1849, 462)]));
    assert_eq!(corners(c.get_top_slice(65)), Some([(-288, 324), (-293, 389), (1817, 643), (1828, 578)]));
    assert_eq!(c.can_contains(65), true);
    let c = quad([(509, -226), (528, -5), (2836, 156), (2817, -314)]);
    assert_eq!(corners(c.get_shrinked(42)), Some([(554, -186), (566, -45), (2792, 110), (2776, -271)]));
    assert_eq!(corners(c.get_shrinked_y(42)), Some([(512, -184), (524, -47), (2834, 114), (2818, -272)]));
    assert_eq!(corners(c.get_bottom_slice(42)), Some([(509, -226), (512, -185), (2818, -273), (2817, -314)]));
    assert_eq!(corners(c.get_top_slice(42)), Some([(524, -48), (528, -5), (2836, 156), (2834, 113)]));
    assert_eq!(c.can_contains(42), true);
}
