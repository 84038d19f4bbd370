use quad_transformer::homography::{
    build_transform, Point2D, ProjectedPoint, RectCorners, TransformError,
};
use quad_transformer::region::{point_is_inside_quad, Margin};
use quad_transformer::QuadTransformer;

fn pt(x: i64, y: i64, w: i64) -> Point2D {
    Point2D { x, y, w }
}

fn to_f64(p: &ProjectedPoint) -> (f64, f64) {
    (p.x as f64 / p.w as f64, p.y as f64 / p.w as f64)
}

fn exact(p: &ProjectedPoint, x: i128, y: i128) -> bool {
    p.w != 0 && p.x == x * p.w && p.y == y * p.w
}

fn margin(num: i64, den: i64) -> Margin {
    Margin { num, den }
}

#[test]
fn test_get_transform_matrix() {
    let src_quad: RectCorners = [(158, 64), (494, 69), (495, 404), (158, 404)];
    let dst_quad: RectCorners = [(100, 500), (152, 564), (148, 604), (100, 560)];
    let transform_matrix = build_transform(&src_quad, &dst_quad).unwrap();
    let result = transform_matrix.transform_point(&pt(250, 120, 1)).unwrap();
    let (x, y) = to_f64(&result);
    assert_eq!(
        ((x as f32).round(), (y as f32).round()),
        (117.27521125839255_f32.round(), 530.9202410878403_f32.round()),
    );
}

#[test]
fn test_get_transform_matrix_simple() {
    let src_quad: RectCorners = [(0, 0), (1, 0), (1, 1), (0, 1)];
    let dst_quad: RectCorners = [(1, 2), (1, 4), (3, 4), (3, 2)];
    let transform_matrix = build_transform(&src_quad, &dst_quad).unwrap();
    // (0.5, 0.5)
    let result = transform_matrix.transform_point(&pt(1, 1, 2)).unwrap();
    assert_eq!(to_f64(&result), (2., 3.));
    assert!(exact(&result, 2, 3));
}

#[test]
fn test_inside_standard_quad() {
    assert!(point_is_inside_quad(&pt(1, 1, 2), None, &margin(0, 1)).unwrap());
    // Outside
    assert!(!point_is_inside_quad(&pt(-1, 1, 2), None, &margin(0, 1)).unwrap());
    // Right on the edge
    assert!(point_is_inside_quad(&pt(1, 1, 1), None, &margin(0, 1)).unwrap());
}

#[test]
fn test_inside_dst_quad() {
    let centered_dst_quad: RectCorners = [(-100, -100), (100, -100), (100, 100), (-100, 100)];
    assert!(point_is_inside_quad(&pt(0, 0, 1), Some(centered_dst_quad), &margin(0, 1)).unwrap());
    assert!(!point_is_inside_quad(&pt(101, 0, 1), Some(centered_dst_quad), &margin(0, 1)).unwrap());
    assert!(point_is_inside_quad(&pt(100, 0, 1), Some(centered_dst_quad), &margin(0, 1)).unwrap());
}

#[test]
fn test_inside_with_margin_standard_quad() {
    // 1.1 with margin 0.25
    assert!(point_is_inside_quad(&pt(11, 0, 10), None, &margin(1, 4)).unwrap());
    // 1.5 with margin 0.25
    assert!(!point_is_inside_quad(&pt(15, 0, 10), None, &margin(1, 4)).unwrap());
}

#[test]
fn test_inside_with_margin_dst_quad() {
    let centered_dst_quad: RectCorners = [(-100, -100), (100, -100), (100, 100), (-100, 100)];
    assert!(point_is_inside_quad(&pt(101, 0, 1), Some(centered_dst_quad), &margin(10, 1)).unwrap());
    assert!(!point_is_inside_quad(&pt(115, 0, 1), Some(centered_dst_quad), &margin(10, 1)).unwrap());
}

#[test]
fn corners_map_onto_corners() {
    let src: RectCorners = [(158, 64), (494, 69), (495, 404), (158, 404)];
    let dst: RectCorners = [(100, 500), (152, 564), (148, 604), (100, 560)];
    let h = build_transform(&src, &dst).unwrap();
    for k in 0..4 {
        let r = h.transform_point(&pt(src[k].0 as i64, src[k].1 as i64, 1)).unwrap();
        assert!(exact(&r, dst[k].0 as i128, dst[k].1 as i128));
    }
}

#[test]
fn swapped_transform_recovers_source_corners() {
    let src: RectCorners = [(10, 20), (300, 25), (310, 200), (5, 190)];
    let dst: RectCorners = [(0, 0), (1, 0), (1, 1), (0, 1)];
    let back = build_transform(&dst, &src).unwrap();
    for k in 0..4 {
        let r = back.transform_point(&pt(dst[k].0 as i64, dst[k].1 as i64, 1)).unwrap();
        assert!(exact(&r, src[k].0 as i128, src[k].1 as i128));
    }
}

#[test]
fn collinear_source_is_rejected() {
    let src: RectCorners = [(0, 0), (1, 1), (2, 2), (0, 5)];
    let dst: RectCorners = [(0, 0), (1, 0), (1, 1), (0, 1)];
    assert_eq!(build_transform(&src, &dst), Err(TransformError::DegenerateQuad));
    let dup: RectCorners = [(0, 0), (0, 0), (1, 1), (0, 1)];
    assert_eq!(build_transform(&dup, &dst), Err(TransformError::DegenerateQuad));
}

#[test]
fn margin_reaches_a_point_beyond_the_edge() {
    // x = 2 lies one unit beyond the unit square
    assert!(!point_is_inside_quad(&pt(2, 0, 1), None, &margin(0, 1)).unwrap());
    assert!(point_is_inside_quad(&pt(2, 0, 1), None, &margin(1, 1)).unwrap());
    assert!(point_is_inside_quad(&pt(0, 1, 1), None, &margin(0, 1)).unwrap());
    // negative homogeneous weight: (-1, -1, -2) is (0.5, 0.5)
    assert!(point_is_inside_quad(&pt(-1, -1, -2), None, &margin(0, 1)).unwrap());
    // a point at infinity is nowhere
    assert!(!point_is_inside_quad(&pt(1, 0, 0), None, &margin(5, 1)).unwrap());
}

#[test]
fn filter_keeps_order() {
    let session = QuadTransformer::new(None, None, Some(margin(0, 1)));
    let points = vec![pt(1, 1, 2), pt(3, 0, 1), pt(1, 0, 1)];
    let kept = session.filter_points_inside(&points).unwrap();
    assert_eq!(kept, vec![pt(1, 1, 2), pt(1, 0, 1)]);
}

#[test]
fn filter_without_margin_keeps_everything() {
    let session = QuadTransformer::new(None, None, None);
    let points = vec![pt(100, 100, 1), pt(-7, 3, 1)];
    assert_eq!(session.filter_points_inside(&points).unwrap(), points);
    assert_eq!(session.filter_points_inside(&[]).unwrap(), vec![]);
}

#[test]
fn session_readiness() {
    let mut session = QuadTransformer::new(None, None, None);
    assert!(!session.is_ready());
    assert_eq!(session.transform(&pt(1, 1, 1)), Err(TransformError::NotReady));
    let src: RectCorners = [(0, 0), (2, 0), (2, 2), (0, 2)];
    assert_eq!(session.set_new_quad(&src, None), Ok(()));
    assert!(session.is_ready());
    let r = session.transform(&pt(1, 1, 1)).unwrap();
    assert!(r.w != 0 && r.x * 2 == r.w && r.y * 2 == r.w);
}

#[test]
fn session_with_degenerate_source_is_not_ready() {
    let src: RectCorners = [(0, 0), (1, 0), (2, 0), (0, 1)];
    let mut session = QuadTransformer::new(Some(src), None, None);
    assert!(!session.is_ready());
    assert_eq!(session.set_new_quad(&src, None), Err(TransformError::DegenerateQuad));
    assert!(!session.is_ready());
}

#[test]
fn session_unit_square_scenario() {
    let src: RectCorners = [(0, 0), (1, 0), (1, 1), (0, 1)];
    let dst: RectCorners = [(1, 2), (1, 4), (3, 4), (3, 2)];
    let session = QuadTransformer::new(Some(src), Some(dst), None);
    let r = session.transform(&pt(1, 1, 2)).unwrap();
    assert!(exact(&r, 2, 3));
}

#[test]
fn origin_sent_to_infinity_is_rejected() {
    let src: RectCorners = [(-1, 1), (1, 1), (2, 2), (-2, 2)];
    let dst: RectCorners = [(0, 0), (1, 0), (1, 1), (0, 1)];
    assert_eq!(build_transform(&src, &dst), Err(TransformError::DegenerateQuad));
}

#[test]
fn quad_onto_itself_is_identity_up_to_scale() {
    let q: RectCorners = [(3, 1), (40, 5), (38, 30), (2, 27)];
    let h = build_transform(&q, &q).unwrap();
    assert!(h.i != 0);
    assert_eq!((h.a, h.e), (h.i, h.i));
    assert_eq!((h.b, h.c, h.d, h.f, h.g, h.h), (0, 0, 0, 0, 0, 0));
}

#[test]
fn vanishing_line_maps_to_infinity() {
    // (x, y) -> (2x / (x + 1), 2y / (x + 1)): a genuinely projective map
    let src: RectCorners = [(0, 0), (1, 0), (1, 1), (0, 1)];
    let dst: RectCorners = [(0, 0), (1, 0), (1, 1), (0, 2)];
    let h = build_transform(&src, &dst).unwrap();
    assert!(h.g != 0);
    let r = h.transform_point(&pt(3, 1, 1)).unwrap();
    assert!(r.w != 0 && r.x * 2 == 3 * r.w && r.y * 2 == r.w);
    // x = -1 is the vanishing line
    assert_eq!(h.transform_point(&pt(-1, 5, 1)).unwrap().w, 0);
}

#[test]
fn largest_corners_still_solve() {
    let src: RectCorners = [(-4096, -4096), (4096, -4000), (4000, 4096), (-4096, 4096)];
    let dst: RectCorners = [(-4096, -4096), (4096, -4096), (4096, 4096), (-4000, 4000)];
    let h = build_transform(&src, &dst).unwrap();
    assert!(h.i != 0);
}

#[test]
fn largest_region_values_still_filter() {
    let big: RectCorners = [(-1048576, -1048576), (1048576, -1048576), (1048576, 1048576), (-1048576, 1048576)];
    let session = QuadTransformer::new(None, Some(big), Some(margin(1048576, 1048576)));
    let points = vec![pt(1048576, -1048576, 1048576), pt(-1048576, 1048576, 1)];
    assert_eq!(session.filter_points_inside(&points).unwrap(), points);
}
