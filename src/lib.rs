//! Exact planar projective transforms between quadrilaterals, and filtering of points
//! against the destination region.
use vstd::prelude::*;

pub mod algebra;
pub mod homography;
pub mod region;

use crate::algebra::mat_vec;
use crate::homography::{
    build_transform, corners_within, mat_within, CORNER_LIMIT, MATRIX_LIMIT, homography_of, non_degenerate, Point2D, ProjectedPoint, RectCorners,
    TransformError, TransformMatrix,
};
use crate::region::{
    default_dst_quad, inside_quad, margin_within, point_is_inside_quad, point_within, region_of,
    Margin, REGION_LIMIT,
};

verus! {

/// A transform session: the derived matrix (once a source quadrilateral is known), the
/// destination quadrilateral (the unit square when absent) and the optional margin.
pub struct QuadTransformer {
    transform_matrix: Option<TransformMatrix>,
    ignore_outside_margin: Option<Margin>,
    dst_quad: Option<RectCorners>,
}

impl QuadTransformer {
    pub closed spec fn matrix(&self) -> Option<TransformMatrix> {
        self.transform_matrix
    }

    pub closed spec fn margin(&self) -> Option<Margin> {
        self.ignore_outside_margin
    }

    pub closed spec fn destination(&self) -> Option<RectCorners> {
        self.dst_quad
    }

    pub open spec fn wf(&self) -> bool {
        self.margin() matches Some(m) ==> m.valid()
    }

    /// Whether `filter_points_inside` keeps `p`.
    pub open spec fn accepts(&self, p: Point2D) -> bool {
        match self.margin() {
            None => true,
            Some(m) => inside_quad(p, region_of(self.destination()), m),
        }
    }

    /// Both quadrilaterals are non-degenerate, their corners lie within `CORNER_LIMIT`, and the
    /// transform between them has a nonzero bottom-right entry: deriving it succeeds.
    pub open spec fn solvable_within_limit(src: RectCorners, dst: RectCorners) -> bool {
        &&& non_degenerate(src)
        &&& non_degenerate(dst)
        &&& corners_within(src, CORNER_LIMIT as int)
        &&& corners_within(dst, CORNER_LIMIT as int)
        &&& homography_of(src, dst).i != 0
    }

    /// Builds a session; with a source quadrilateral the matrix is derived at once, and a
    /// failed derivation leaves the session not ready.
    pub fn new(
        src_quad: Option<RectCorners>,
        dst_quad: Option<RectCorners>,
        ignore_outside_margin: Option<Margin>,
    ) -> (r: QuadTransformer)
        requires
            ignore_outside_margin matches Some(m) ==> m.valid(),
        ensures
            r.wf(),
            r.destination() == dst_quad,
            r.margin() == ignore_outside_margin,
            r.matrix() matches Some(h) ==> src_quad is Some && h@ == homography_of(
                src_quad->0,
                region_of(dst_quad),
            ) && h.i != 0,
            src_quad matches Some(s) ==> (Self::solvable_within_limit(s, region_of(dst_quad))
                ==> r.matrix() is Some),
            src_quad is None ==> r.matrix() is None,
            src_quad matches Some(s) ==> (!non_degenerate(s) || !non_degenerate(region_of(dst_quad))
                ==> r.matrix() is None),
    {
        let useable_dst_quad: RectCorners = match dst_quad {
            Some(q) => q,
            None => default_dst_quad(),
        };
        let transform_matrix = match src_quad {
            Some(quad) => match build_transform(&quad, &useable_dst_quad) {
                Ok(h) => Some(h),
                Err(_) => None,
            },
            None => None,
        };
        QuadTransformer { transform_matrix, dst_quad, ignore_outside_margin }
    }

    /// Replaces the destination quadrilateral and the matrix; on failure the session is left
    /// not ready.
    pub fn set_new_quad(&mut self, src_quad: &RectCorners, dst_quad: Option<RectCorners>) -> (r:
        Result<(), TransformError>)
        requires
            old(self).wf(),
        ensures
            final(self).wf(),
            final(self).destination() == dst_quad,
            final(self).margin() == old(self).margin(),
            r is Ok <==> final(self).matrix() is Some,
            final(self).matrix() matches Some(h) ==> h@ == homography_of(*src_quad, region_of(dst_quad)),
            final(self).matrix() matches Some(h) ==> h.i != 0,
            !non_degenerate(*src_quad) || !non_degenerate(region_of(dst_quad)) ==> r == Err::<
                (),
                TransformError,
            >(TransformError::DegenerateQuad),
            Self::solvable_within_limit(*src_quad, region_of(dst_quad)) ==> r is Ok,
            r is Err ==> r == Err::<(), TransformError>(TransformError::DegenerateQuad) || r == Err::<
                (),
                TransformError,
            >(TransformError::Overflow),
    {
        let useable_dst_quad: RectCorners = match dst_quad {
            Some(q) => q,
            None => default_dst_quad(),
        };
        self.dst_quad = dst_quad;
        match build_transform(src_quad, &useable_dst_quad) {
            Ok(h) => {
                self.transform_matrix = Some(h);
                Ok(())
            },
            Err(e) => {
                self.transform_matrix = None;
                Err(e)
            },
        }
    }

    /// Maps a point of the source plane into the destination plane.
    pub fn transform(&self, point: &Point2D) -> (r: Result<ProjectedPoint, TransformError>)
        ensures
            self.matrix() is None <==> r == Err::<ProjectedPoint, TransformError>(
                TransformError::NotReady,
            ),
            r matches Ok(q) ==> q@ == mat_vec(self.matrix()->0@, point.hom()),
            self.matrix() matches Some(h) && mat_within(h@, MATRIX_LIMIT as int) ==> r is Ok,
            r is Err ==> r == Err::<ProjectedPoint, TransformError>(TransformError::NotReady) || r
                == Err::<ProjectedPoint, TransformError>(TransformError::Overflow),
    {
        match &self.transform_matrix {
            Some(matrix) => matrix.transform_point(point),
            None => Err(TransformError::NotReady),
        }
    }

    /// The points that `accepts` keeps, in their input order; all of them when no margin is set.
    pub fn filter_points_inside(&self, points: &[Point2D]) -> (r: Result<
        Vec<Point2D>,
        TransformError,
    >)
        requires
            self.wf(),
        ensures
            r matches Ok(v) ==> v@ == points@.filter(|p: Point2D| self.accepts(p)),
            self.margin() is None ==> r is Ok,
            self.margin() matches Some(m) && margin_within(m, REGION_LIMIT as int) && corners_within(
                region_of(self.destination()),
                REGION_LIMIT as int,
            ) && (forall|j: int|
                0 <= j < points@.len() ==> point_within(#[trigger] points@[j], REGION_LIMIT as int))
                ==> r is Ok,
            r is Err ==> r == Err::<Vec<Point2D>, TransformError>(TransformError::Overflow),
    {
        let ghost pred = |p: Point2D| self.accepts(p);
        let ghost small = self.margin() matches Some(m) && margin_within(m, REGION_LIMIT as int)
            && corners_within(region_of(self.destination()), REGION_LIMIT as int) && (forall|j: int|
            0 <= j < points@.len() ==> point_within(#[trigger] points@[j], REGION_LIMIT as int));
        let mut kept: Vec<Point2D> = Vec::new();
        let mut i: usize = 0;
        while i < points.len()
            invariant
                i <= points@.len(),
                self.wf(),
                pred == (|p: Point2D| self.accepts(p)),
                kept@ == points@.take(i as int).filter(pred),
                small ==> (self.margin() matches Some(m) && margin_within(m, REGION_LIMIT as int)
                    && corners_within(region_of(self.destination()), REGION_LIMIT as int) && (forall|
                    j: int|
                    0 <= j < points@.len() ==> point_within(
                        #[trigger] points@[j],
                        REGION_LIMIT as int,
                    ))),
                small ==> self.margin() is Some,
            decreases points@.len() - i,
        {
            let p = points[i];
            let keep = match &self.ignore_outside_margin {
                Some(margin) => point_is_inside_quad(&p, self.dst_quad, margin)?,
                None => true,
            };
            proof {
                assert(points@.take(i as int + 1) == points@.take(i as int).push(p));
                points@.take(i as int).lemma_filter_push(p, pred);
            }
            if keep {
                kept.push(p);
            }
            i += 1;
        }
        assert(points@.take(points@.len() as int) == points@);
        Ok(kept)
    }

    pub fn is_ready(&self) -> (r: bool)
        ensures
            r == self.matrix() is Some,
    {
        self.transform_matrix.is_some()
    }
}

} // verus!
