//! Collects a font decoder's outline drawing commands into contours.
//!
//! `move_to` opens a new contour; `line_to`, `quad_to` and `curve_to` append a
//! segment that starts at the current pen head; `close` leaves the contour
//! as it is, so open contours are kept open.
use crate::math::Bezier;
use vstd::prelude::*;

verus! {

/// One contour: its segments in drawing order.
pub type Spline = Vec<Bezier>;

/// Control points of each segment of each contour.
pub open spec fn splines_view(s: Seq<Spline>) -> Seq<Seq<Seq<[i32; 2]>>> {
    s.map_values(|sp: Spline| sp@.map_values(|b: Bezier| b@))
}

/// Every segment has two to four control points.
pub open spec fn contours_wf(c: Seq<Seq<Seq<[i32; 2]>>>) -> bool {
    forall|i: int, j: int|
        0 <= i < c.len() && 0 <= j < c[i].len() ==> 2 <= #[trigger] c[i][j].len() <= 4
}

/// The contours after appending segment `seg` to the last one.
pub open spec fn append_to_last(
    c: Seq<Seq<Seq<[i32; 2]>>>,
    seg: Seq<[i32; 2]>,
) -> Seq<Seq<Seq<[i32; 2]>>> {
    c.update(c.len() - 1, c[c.len() - 1].push(seg))
}

/// Builds contours from outline commands.
pub struct SplineBuilder {
    splines: Vec<Spline>,
    head: [i32; 2],
}

impl View for SplineBuilder {
    /// The contours so far, and the pen head.
    type V = (Seq<Seq<Seq<[i32; 2]>>>, [i32; 2]);

    closed spec fn view(&self) -> Self::V {
        (splines_view(self.splines@), self.head)
    }
}

impl SplineBuilder {
    /// No contours, head at the origin.
    pub fn new() -> (r: SplineBuilder)
        ensures
            r@.0 == Seq::<Seq<Seq<[i32; 2]>>>::empty(),
            r@.1 == [0i32, 0i32],
            contours_wf(r@.0),
    {
        let r = SplineBuilder { splines: Vec::new(), head: [0, 0] };
        proof {
            assert(r@.0 =~= Seq::<Seq<Seq<[i32; 2]>>>::empty());
        }
        r
    }

    /// The contours collected.
    pub fn build(self) -> (r: Vec<Spline>)
        ensures
            splines_view(r@) == self@.0,
    {
        self.splines
    }

    /// Starts a new, empty contour at `(x, y)`.
    pub fn move_to(&mut self, x: i32, y: i32)
        ensures
            final(self)@.0 == old(self)@.0.push(Seq::empty()),
            final(self)@.1 == [x, y],
            contours_wf(old(self)@.0) ==> contours_wf(final(self)@.0),
    {
        let ghost before = self.splines@;
        let fresh: Spline = Vec::new();
        proof {
            assert(fresh@.map_values(|b: Bezier| b@) =~= Seq::<Seq<[i32; 2]>>::empty());
        }
        self.splines.push(fresh);
        self.head = [x, y];
        proof {
            assert(self.splines@ =~= before.push(fresh));
            assert(splines_view(self.splines@) =~= splines_view(before).push(Seq::empty()));
            let c = splines_view(self.splines@);
            assert forall|i: int, j: int| contours_wf(old(self)@.0) && 0 <= i < c.len() && 0 <= j < c[i].len() implies 2 <= #[trigger] c[i][j].len() <= 4 by {
                assert(c[i] == old(self)@.0[i]);
            }
        }
    }

    /// Appends `seg` to the last contour and moves the head to `to`.
    fn push_segment(&mut self, seg: Bezier, to: [i32; 2])
        requires
            old(self)@.0.len() > 0,
        ensures
            final(self)@.0 == append_to_last(old(self)@.0, seg@),
            final(self)@.1 == to,
    {
        let ghost before = self.splines@;
        let mut last = self.splines.pop().unwrap();
        let ghost mid = last@;
        last.push(seg);
        self.splines.push(last);
        self.head = to;
        proof {
            let n = before.len() - 1;
            assert(self.splines@ =~= before.update(n, last));
            assert(last@ =~= mid.push(seg));
            assert(last@.map_values(|b: Bezier| b@) =~= mid.map_values(|b: Bezier| b@).push(seg@));
            assert(splines_view(self.splines@) =~= append_to_last(splines_view(before), seg@));
        }
    }

    /// Appends a straight segment from the head to `(x, y)`.
    pub fn line_to(&mut self, x: i32, y: i32)
        requires
            old(self)@.0.len() > 0,
        ensures
            final(self)@.0 == append_to_last(old(self)@.0, seq![old(self)@.1, [x, y]]),
            final(self)@.1 == [x, y],
            contours_wf(old(self)@.0) ==> contours_wf(final(self)@.0),
    {
        let seg = Bezier { points: vec![self.head, [x, y]] };
        proof {
            assert(seg@ =~= seq![old(self)@.1, [x, y]]);
        }
        proof {
            if contours_wf(old(self)@.0) {
                lemma_append_keeps_wf(old(self)@.0, seg@);
            }
        }
        self.push_segment(seg, [x, y]);
    }

    /// Appends a quadratic segment from the head through `(x1, y1)` to `(x, y)`.
    pub fn quad_to(&mut self, x1: i32, y1: i32, x: i32, y: i32)
        requires
            old(self)@.0.len() > 0,
        ensures
            final(self)@.0 == append_to_last(
                old(self)@.0,
                seq![old(self)@.1, [x1, y1], [x, y]],
            ),
            final(self)@.1 == [x, y],
            contours_wf(old(self)@.0) ==> contours_wf(final(self)@.0),
    {
        let seg = Bezier { points: vec![self.head, [x1, y1], [x, y]] };
        proof {
            assert(seg@ =~= seq![old(self)@.1, [x1, y1], [x, y]]);
        }
        proof {
            if contours_wf(old(self)@.0) {
                lemma_append_keeps_wf(old(self)@.0, seg@);
            }
        }
        self.push_segment(seg, [x, y]);
    }

    /// Appends a cubic segment from the head through `(x1, y1)` and `(x2, y2)` to `(x, y)`.
    pub fn curve_to(&mut self, x1: i32, y1: i32, x2: i32, y2: i32, x: i32, y: i32)
        requires
            old(self)@.0.len() > 0,
        ensures
            final(self)@.0 == append_to_last(
                old(self)@.0,
                seq![old(self)@.1, [x1, y1], [x2, y2], [x, y]],
            ),
            final(self)@.1 == [x, y],
            contours_wf(old(self)@.0) ==> contours_wf(final(self)@.0),
    {
        let seg = Bezier { points: vec![self.head, [x1, y1], [x2, y2], [x, y]] };
        proof {
            assert(seg@ =~= seq![old(self)@.1, [x1, y1], [x2, y2], [x, y]]);
        }
        proof {
            if contours_wf(old(self)@.0) {
                lemma_append_keeps_wf(old(self)@.0, seg@);
            }
        }
        self.push_segment(seg, [x, y]);
    }

    /// Ends the current contour; no closing segment is added.
    pub fn close(&mut self)
        ensures
            final(self)@ == old(self)@,
    {
    }
}

/// Appending a segment of two to four points keeps every segment well formed.
proof fn lemma_append_keeps_wf(c: Seq<Seq<Seq<[i32; 2]>>>, seg: Seq<[i32; 2]>)
    requires
        contours_wf(c),
        c.len() > 0,
        2 <= seg.len() <= 4,
    ensures
        contours_wf(append_to_last(c, seg)),
{
    let r = append_to_last(c, seg);
    assert forall|i: int, j: int| 0 <= i < r.len() && 0 <= j < r[i].len() implies 2 <= #[trigger] r[i][j].len() <= 4 by {
        if i == c.len() - 1 && j == c[i].len() {
        } else {
            assert(r[i][j] == c[i][j]);
        }
    }
}

} // verus!
