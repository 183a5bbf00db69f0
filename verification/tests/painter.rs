use tetraview::painter::{draw_order, frame_max_depth, point_brightness, point_prim, triangle_prim, Prim};

#[test]
fn farther_primitive_drawn_first() {
    let prims = vec![
        Prim { depth: 10, visible: true },
        Prim { depth: 100, visible: true },
    ];
    let order = draw_order(&prims);
    assert_eq!(order, vec![1, 0]);
}

#[test]
fn equal_depths_drawn_in_reverse_build_order() {
    // a stable ascending sort followed by a reversal puts the later-built
    // primitive first when depths tie
    let prims = vec![
        Prim { depth: 5, visible: true },
        Prim { depth: 5, visible: true },
    ];
    let order = draw_order(&prims);
    assert_eq!(order, vec![1, 0]);
}

#[test]
fn plan_matches_sort_then_reverse() {
    let depths: [usize; 6] = [40, 7, 99, 7, 0, 40];
    let prims: Vec<Prim> = depths
        .iter()
        .map(|&d| Prim { depth: d, visible: true })
        .collect();
    let order = draw_order(&prims);

    // the reference order: stable ascending sort by depth, then reversed
    let mut expected: Vec<usize> = (0..depths.len()).collect();
    expected.sort_by_key(|&i| depths[i]);
    expected.reverse();
    assert_eq!(order, expected);
}

#[test]
fn plan_is_reproducible() {
    let prims = vec![
        Prim { depth: 3, visible: true },
        Prim { depth: 14, visible: false },
        Prim { depth: 15, visible: true },
        Prim { depth: 9, visible: true },
    ];
    let first = draw_order(&prims);
    let second = draw_order(&prims);
    assert_eq!(first, second);
    assert_eq!(first, vec![2, 3, 0]);
}

#[test]
fn invisible_primitives_never_drawn() {
    let prims = vec![
        Prim { depth: 50, visible: false },
        Prim { depth: 20, visible: true },
        Prim { depth: 80, visible: false },
    ];
    let order = draw_order(&prims);
    assert_eq!(order, vec![1]);
}

#[test]
fn empty_frame_has_empty_plan() {
    let prims: Vec<Prim> = Vec::new();
    let order = draw_order(&prims);
    assert!(order.is_empty());
}

#[test]
fn one_vertex_off_screen_drops_the_triangle() {
    // projected screen coordinates of a triangle: two vertices well inside
    // an 800x600 screen, the third past the right edge
    let width: f32 = 800.0;
    let height: f32 = 600.0;
    let verts: [(f32, f32); 3] = [(100.0, 100.0), (200.0, 200.0), (900.0, 300.0)];
    let on: Vec<bool> = verts
        .iter()
        .map(|&(u, v)| u > 0.0 && u < width && v > 0.0 && v < height)
        .collect();
    assert_eq!(on, vec![true, true, false]);

    let tri = triangle_prim(12345, on[0], on[1], on[2]);
    assert!(!tri.visible);
    let order = draw_order(&vec![tri]);
    assert!(order.is_empty());
}

#[test]
fn sentinel_coordinates_fail_the_bounds_check() {
    // the projector's off-screen sentinel (-r, -r) must be culled for any
    // positive projection radius
    let width: f32 = 800.0;
    let height: f32 = 600.0;
    let r: f32 = 509.29578;
    let (u, v) = (-r, -r);
    let on = u > 0.0 && u < width && v > 0.0 && v < height;
    assert!(!on);
    let point = point_prim(0, on);
    assert!(!point.visible);
    assert!(draw_order(&vec![point]).is_empty());
}

#[test]
fn nan_coordinates_fail_the_bounds_check() {
    // a degenerate projection yields NaN; every comparison against NaN is
    // false, so such a primitive is culled rather than drawn
    let width: f32 = 800.0;
    let height: f32 = 600.0;
    let u = f32::NAN;
    let v: f32 = 10.0;
    let on = u > 0.0 && u < width && v > 0.0 && v < height;
    assert!(!on);
    assert!(!point_prim(7, on).visible);
}

#[test]
fn max_depth_of_empty_frame_is_none() {
    let prims: Vec<Prim> = Vec::new();
    assert_eq!(frame_max_depth(&prims), None);
}

#[test]
fn max_depth_finds_the_farthest() {
    let prims = vec![
        Prim { depth: 17, visible: true },
        Prim { depth: 90, visible: false },
        Prim { depth: 4, visible: true },
    ];
    assert_eq!(frame_max_depth(&prims), Some(90));
}

#[test]
fn brightness_extremes() {
    // the nearest possible point is lightest, the farthest darkest
    assert_eq!(point_brightness(0, 1000), 255);
    assert_eq!(point_brightness(1000, 1000), 55);
}

#[test]
fn brightness_exact_value() {
    // 255 - (50 * 200) / 100 = 155
    assert_eq!(point_brightness(50, 100), 155);
    // 255 - (1 * 200) / 3 = 255 - 66 = 189
    assert_eq!(point_brightness(1, 3), 189);
}

#[test]
fn brightness_falls_off_with_depth() {
    let m: usize = 777;
    let mut last: u8 = 255;
    for d in 0..=m {
        let b = point_brightness(d, m);
        assert!(b <= last);
        last = b;
    }
    assert_eq!(last, 55);
}
