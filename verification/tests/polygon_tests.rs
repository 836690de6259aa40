use chicken::polygon::delaunay::{IntDelaunay, IntTriangle, IntVertex};
use chicken::polygon::earcut::{ABCExcludeResult, Abc, AB};
use chicken::polygon::fix_vec::FixVec;
use chicken::polygon::flat_buffer::FlatContoursBuffer;
use chicken::polygon::graph::GraphBuilder;
use chicken::polygon::point::IntPoint;
use chicken::polygon::rect::IntRect;
use chicken::polygon::triangle::Triangle;
use chicken::polygon::u128::UInt128;
use std::cmp::Ordering;

fn p(x: i32, y: i32) -> IntPoint {
    IntPoint::new(x, y)
}

#[test]
fn point_arithmetic() {
    let a = p(3, 4);
    let b = p(-1, 2);
    assert_eq!(a.subtract(b), p(4, 2));
    assert_eq!(a.add(b), p(2, 6));
    assert_eq!(a.cross_product(b), 3 * 2 - 4 * -1);
    assert_eq!(a.dot_product(b), -3 + 8);
    assert_eq!(a.sqr_distance(b), 16 + 4);
    assert_eq!(a.sqr_dist(b), 20);
    assert_eq!(a.sqr_length(), 25);
    assert_eq!(IntPoint::zero(), p(0, 0));
    assert_eq!(IntPoint::empty(), p(i32::MAX, i32::MAX));
}

#[test]
fn cross_product_of_extreme_points_fits() {
    let a = p(i32::MIN, i32::MAX);
    let b = p(i32::MAX, i32::MIN);
    let expected = (i32::MIN as i64) * (i32::MIN as i64) - (i32::MAX as i64) * (i32::MAX as i64);
    assert_eq!(a.cross_product(b), expected);
}

#[test]
fn fix_vec_products() {
    let a = FixVec::new(5, -2);
    let b = FixVec::new_point(p(3, 7));
    assert_eq!(a.cross_product(b), 35 + 6);
    assert_eq!(a.dot_product(b), 15 - 14);
    assert_eq!(a.subtract(b), FixVec::new(2, -9));
}

#[test]
fn rect_tests() {
    let mut r = IntRect::with_point(p(1, 1));
    r.unsafe_add_point(p(-2, 5));
    assert_eq!(r, IntRect::new(-2, 1, 1, 5));
    assert!(r.contains(p(0, 3)));
    assert!(r.contains(p(1, 5)));
    assert!(!r.contains(p(2, 3)));
    assert!(r.contains_with_radius(p(2, 3), 1));
    assert!(r.is_intersect_border_include(&IntRect::new(1, 5, 4, 9)));
    assert!(!r.is_intersect_border_include(&IntRect::new(2, 6, 4, 9)));
}

#[test]
fn triangle_orientation() {
    let a = p(0, 0);
    let b = p(4, 0);
    let c = p(0, 4);
    assert_eq!(Triangle::cross_product(a, b, c), 16);
    assert_eq!(Triangle::area_two_point(a, b, c), 16);
    assert!(!Triangle::is_clockwise_point(a, b, c));
    assert!(Triangle::is_clockwise_point(a, c, b));
    assert_eq!(Triangle::clock_order_point(a, b, c), Ordering::Less);
    assert_eq!(Triangle::clock_order_point(a, c, b), Ordering::Greater);
    assert_eq!(Triangle::clock_order_point(a, b, p(8, 0)), Ordering::Equal);
    assert_eq!(Triangle::clock_direction_point(a, b, c), 1);
    assert_eq!(Triangle::clock_direction_point(a, c, b), -1);
    assert!(Triangle::is_line_point(a, p(2, 0), b));
    assert!(Triangle::is_not_line_point(a, p(2, 1), b));
    assert!(Triangle::is_cw_or_line_point(a, p(2, 0), b));
    assert!(Triangle::is_contain_point_exclude_borders(p(1, 1), a, b, c));
    assert!(!Triangle::is_contain_point_exclude_borders(p(2, 0), a, b, c));
    assert!(!Triangle::is_contain_point_exclude_borders(p(5, 5), a, b, c));
}

#[test]
fn u128_product() {
    let r = UInt128::multiply(u64::MAX, u64::MAX);
    let v = (r.high as u128) << 64 | r.low as u128;
    assert_eq!(v, (u64::MAX as u128) * (u64::MAX as u128));
    let s = UInt128::multiply(6, 7);
    assert_eq!((s.low, s.high), (42, 0));
}

#[test]
fn earcut_containment() {
    let abc = Abc::new(p(0, 0), p(4, 0), p(0, 4));
    assert!(abc.contains(p(1, 1)));
    assert!(!abc.contains(p(0, 2)));
    assert!(!abc.contains(p(5, 5)));
    assert_eq!(abc.contains_exclude_ca(p(1, 1)), ABCExcludeResult::Inside);
    assert_eq!(abc.contains_exclude_ca(p(0, 2)), ABCExcludeResult::Inside);
    assert_eq!(abc.contains_exclude_ca(p(-1, 1)), ABCExcludeResult::OutsideEdge);
    assert_eq!(abc.contains_exclude_ca(p(2, -1)), ABCExcludeResult::Outside);
    assert!(AB::contains(p(0, 0), p(4, 0), p(2, 0)));
    assert!(!AB::contains(p(0, 0), p(4, 0), p(4, 0)));
}

#[test]
fn flat_buffer_stores_contours_back_to_back() {
    let mut buf = FlatContoursBuffer::default();
    assert!(buf.is_empty());
    buf.add_contour(&[p(0, 0), p(1, 0), p(1, 1)]);
    assert!(buf.is_single_contour());
    buf.store_shape(vec![vec![p(5, 5), p(6, 5)], vec![p(7, 7)]]);
    assert_eq!(buf.points.len(), 6);
    let ranges: Vec<(usize, usize)> = buf.ranges.iter().map(|r| (r.start, r.end)).collect();
    assert_eq!(ranges, vec![(0, 3), (3, 5), (5, 6)]);
    assert_eq!(buf.as_first_contour(), &[p(0, 0), p(1, 0), p(1, 1)]);
    buf.as_first_contour_mut()[0] = p(9, 9);
    assert_eq!(buf.points[0], p(9, 9));
    buf.clear_and_reserve(2, 10);
    assert!(buf.is_empty());
    assert!(buf.ranges.is_empty());
}

#[test]
fn delaunay_indices() {
    let v = |index: usize, x: i32| IntVertex { index, point: p(x, 0) };
    let d = IntDelaunay {
        points: vec![p(0, 0), p(1, 0), p(0, 1), p(1, 1)],
        triangles: vec![
            IntTriangle { vertices: [v(0, 0), v(1, 1), v(2, 0)] },
            IntTriangle { vertices: [v(1, 1), v(3, 1), v(70000, 0)] },
        ],
    };
    assert_eq!(d.points().len(), 4);
    let wide: Vec<u32> = d.triangle_indices();
    assert_eq!(wide, vec![0, 1, 2, 1, 3, 70000]);
    let narrow: Vec<u16> = d.triangle_indices();
    assert_eq!(narrow, vec![0, 1, 2, 1, 3, 0]);
    let t = d.into_triangulation::<usize>();
    assert_eq!(t.indices, vec![0, 1, 2, 1, 3, 70000]);
    assert_eq!(t.points.len(), 4);
}

#[test]
fn contour_loops_are_found() {
    let mut builder: GraphBuilder<Vec<usize>> = GraphBuilder { nodes: Vec::new() };
    let mut buffer = Vec::new();
    assert!(!builder.test_contour_for_loops(&[p(0, 0), p(1, 0), p(1, 1)], &mut buffer));
    assert!(builder.test_contour_for_loops(&[p(0, 0), p(1, 0), p(0, 0)], &mut buffer));
    let long: Vec<IntPoint> = (0..100).map(|i| p(i % 50, i / 50)).collect();
    assert!(!builder.test_contour_for_loops(&long, &mut buffer));
    let mut looped = long.clone();
    looped.push(p(3, 1));
    assert!(builder.test_contour_for_loops(&looped, &mut buffer));
    assert_eq!(buffer.len(), looped.len());
}
