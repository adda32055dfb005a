//! Geometry of glyph rasterization.
//!
//! Every segment of every contour is sampled at `STEPS + 1` points and each
//! point is mapped from the glyph's bounding box onto `[-1, 1] x [-1, 1]`.
//! The resulting vertex list, drawn as a triangle fan into a stencil buffer,
//! marks the glyph's interior.
//!
//! All samples are brought to the common denominator `STEPS^3`, the largest
//! that a segment of degree up to 3 needs. A normalized coordinate is then
//! `2 (p - lo) / ext - 1 = (2 (P - lo D) - ext D) / (ext D)` with `P` the
//! sample's numerator over `D = STEPS^3`, so each vertex is held as the integer
//! numerator over a per-axis denominator `ext D`.
use crate::math::{Bezier, ipow, lemma_ipow_nonneg_mono, sample_num, STEPS};
use crate::outline::{contours_wf, splines_view, Spline};
use vstd::prelude::*;

verus! {

/// `STEPS^3`: the denominator every sample is brought to.
pub const DEN: i128 = 1000;

/// Numerator of a sample of a degree-`k` segment, over `DEN` instead of `STEPS^k`.
pub open spec fn lift(num: int, k: nat) -> int {
    num * ipow(STEPS as int, (3 - k) as nat)
}

/// Numerator of a normalized coordinate over `ext * DEN`.
pub open spec fn norm(num: int, k: nat, lo: int, ext: int) -> int {
    2 * (lift(num, k) - lo * DEN) - ext * DEN
}

/// Normalized vertices of one segment.
pub open spec fn segment_fan(seg: Seq<[i32; 2]>, lo: [i32; 2], ext: [i32; 2]) -> Seq<(int, int)> {
    Seq::new(
        (STEPS + 1) as nat,
        |i: int|
            (
                norm(sample_num(seg, 0, i, STEPS as int), (seg.len() - 1) as nat, lo[0] as int, ext[0] as int),
                norm(sample_num(seg, 1, i, STEPS as int), (seg.len() - 1) as nat, lo[1] as int, ext[1] as int),
            ),
    )
}

/// Normalized vertices of one contour, segment after segment.
pub open spec fn contour_fan(c: Seq<Seq<[i32; 2]>>, lo: [i32; 2], ext: [i32; 2]) -> Seq<(int, int)>
    decreases c.len(),
{
    if c.len() == 0 {
        Seq::empty()
    } else {
        contour_fan(c.drop_last(), lo, ext) + segment_fan(c.last(), lo, ext)
    }
}

/// Normalized vertices of a whole outline, contour after contour.
pub open spec fn outline_fan(cs: Seq<Seq<Seq<[i32; 2]>>>, lo: [i32; 2], ext: [i32; 2]) -> Seq<(int, int)>
    decreases cs.len(),
{
    if cs.len() == 0 {
        Seq::empty()
    } else {
        outline_fan(cs.drop_last(), lo, ext) + contour_fan(cs.last(), lo, ext)
    }
}

pub open spec fn verts_view(v: Seq<[i128; 2]>) -> Seq<(int, int)> {
    v.map_values(|p: [i128; 2]| (p[0] as int, p[1] as int))
}

/// A glyph's fan: vertex numerators over the per-axis denominators `den`.
pub struct Fan {
    pub den: [i128; 2],
    pub verts: Vec<[i128; 2]>,
}

/// Appends the normalized samples of one segment.
fn push_segment(out: &mut Vec<[i128; 2]>, b: &Bezier, lo: [i32; 2], ext: [i32; 2])
    requires
        b.wf(),
    ensures
        verts_view(final(out)@) == verts_view(old(out)@) + segment_fan(b@, lo, ext),
{
    let k: usize = b.points.len() - 1;
    proof {
        reveal_with_fuel(ipow, 4);
        assert(ipow(10, 3) == 1000);
        lemma_ipow_nonneg_mono(0, 10, k as nat);
        lemma_ipow_nonneg_mono(10, 10, k as nat);
        if k < 3 {
            lemma_ipow_nonneg_mono(0, 10, 2);
        }
        assert(ipow(10, k as nat) <= 1000);
    }
    let s = b.subdivide(STEPS);
    let m: i128 = if k == 1 {
        100
    } else if k == 2 {
        10
    } else {
        1
    };
    proof {
        reveal_with_fuel(ipow, 4);
        assert(m == ipow(STEPS as int, (3 - k) as nat));
        assert(s.den <= 1000);
    }
    let ghost start = out@;
    let mut i: usize = 0;
    while i <= STEPS
        invariant
            b.wf(),
            k == b.degree(),
            i <= STEPS + 1,
            m == ipow(STEPS as int, (3 - k) as nat),
            1 <= m <= 100,
            s.den <= 1000,
            s.points@.len() == STEPS + 1,
            forall|j: int, c: int|
                0 <= j <= STEPS && 0 <= c < 2 ==> -(12 * s.den * 0x8000_0000) <= #[trigger] s.points@[j][c]
                    <= 12 * s.den * 0x8000_0000,
            forall|j: int, c: int|
                0 <= j <= STEPS && 0 <= c < 2 ==> #[trigger] s.points@[j][c] == sample_num(
                    b@,
                    c,
                    j,
                    STEPS as int,
                ),
            verts_view(out@) == verts_view(start) + segment_fan(b@, lo, ext).take(i as int),
        decreases STEPS + 1 - i,
    {
        let p = s.points[i];
        proof {
            assert(-(12 * s.den * 0x8000_0000) <= p[0] <= 12 * s.den * 0x8000_0000);
            assert(-(12 * s.den * 0x8000_0000) <= p[1] <= 12 * s.den * 0x8000_0000);
            assert(-(12 * 1000 * 0x8000_0000 * 100) <= p[0] * m <= 12 * 1000 * 0x8000_0000 * 100)
                by (nonlinear_arith)
                requires
                    -(12 * s.den * 0x8000_0000) <= p[0] <= 12 * s.den * 0x8000_0000,
                    s.den <= 1000,
                    1 <= m <= 100,
            ;
            assert(-(12 * 1000 * 0x8000_0000 * 100) <= p[1] * m <= 12 * 1000 * 0x8000_0000 * 100)
                by (nonlinear_arith)
                requires
                    -(12 * s.den * 0x8000_0000) <= p[1] <= 12 * s.den * 0x8000_0000,
                    s.den <= 1000,
                    1 <= m <= 100,
            ;
        }
        let x: i128 = 2 * (p[0] * m - (lo[0] as i128) * DEN) - (ext[0] as i128) * DEN;
        let y: i128 = 2 * (p[1] * m - (lo[1] as i128) * DEN) - (ext[1] as i128) * DEN;
        let ghost before = out@;
        out.push([x, y]);
        proof {
            let f = segment_fan(b@, lo, ext);
            assert(f[i as int] == (x as int, y as int));
            assert(f.take(i as int + 1) =~= f.take(i as int).push(f[i as int]));
            assert(verts_view(out@) =~= verts_view(before).push((x as int, y as int)));
        }
        i = i + 1;
    }
    proof {
        assert(segment_fan(b@, lo, ext).take(STEPS as int + 1) =~= segment_fan(b@, lo, ext));
    }
}

/// The fan of an outline whose bounding box starts at `lo` and has extent
/// `ext`, both in font units.
pub fn fan_vertices(outline: &Vec<Spline>, lo: [i32; 2], ext: [i32; 2]) -> (r: Fan)
    requires
        contours_wf(splines_view(outline@)),
    ensures
        r.den[0] == ext[0] * DEN,
        r.den[1] == ext[1] * DEN,
        verts_view(r.verts@) == outline_fan(splines_view(outline@), lo, ext),
{
    let ghost cs = splines_view(outline@);
    let mut out: Vec<[i128; 2]> = Vec::new();
    let mut si: usize = 0;
    proof {
        assert(cs.take(0) =~= Seq::<Seq<Seq<[i32; 2]>>>::empty());
        assert(verts_view(out@) =~= Seq::<(int, int)>::empty());
    }
    while si < outline.len()
        invariant
            cs == splines_view(outline@),
            contours_wf(cs),
            si <= outline@.len(),
            verts_view(out@) == outline_fan(cs.take(si as int), lo, ext),
        decreases outline@.len() - si,
    {
        let spline = &outline[si];
        let ghost c = cs[si as int];
        proof {
            assert(c == spline@.map_values(|b: Bezier| b@));
        }
        let ghost start = out@;
        let mut bi: usize = 0;
        proof {
            assert(c.take(0) =~= Seq::<Seq<[i32; 2]>>::empty());
            assert(verts_view(start) + contour_fan(c.take(0), lo, ext) =~= verts_view(start));
        }
        while bi < spline.len()
            invariant
                cs == splines_view(outline@),
                contours_wf(cs),
                si < outline@.len(),
                c == cs[si as int],
                c == spline@.map_values(|b: Bezier| b@),
                bi <= spline@.len(),
                verts_view(out@) == verts_view(start) + contour_fan(c.take(bi as int), lo, ext),
            decreases spline@.len() - bi,
        {
            let b = &spline[bi];
            proof {
                assert(c[bi as int] == b@);
                assert(2 <= c[bi as int].len() <= 4);
            }
            let ghost mid = out@;
            push_segment(&mut out, b, lo, ext);
            proof {
                let t = c.take(bi as int + 1);
                assert(t.drop_last() =~= c.take(bi as int));
                assert(t.last() == b@);
                assert(verts_view(out@) =~= verts_view(start) + contour_fan(t, lo, ext));
            }
            bi = bi + 1;
        }
        proof {
            assert(c.take(bi as int) =~= c);
            let t = cs.take(si as int + 1);
            assert(t.drop_last() =~= cs.take(si as int));
            assert(t.last() == c);
        }
        si = si + 1;
    }
    proof {
        assert(cs.take(si as int) =~= cs);
    }
    Fan { den: [ext[0] as i128 * DEN, ext[1] as i128 * DEN], verts: out }
}

} // verus!
