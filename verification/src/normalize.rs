//! The height normalizer: rescales the height channel into `[0, h]`.
//!
//! With `lo` and `hi` the least and greatest height, every height `z`
//! becomes `(z - lo) * h / (hi - lo)`, truncated.  When the range is
//! collapsed (`lo == hi`, as after zero deposition iterations) the quotient
//! is undefined; the chosen policy is to set every height to `0`, never to
//! propagate a non-finite value.

use vstd::prelude::*;
use vstd::arithmetic::div_mod::{lemma_div_is_ordered, lemma_div_multiples_vanish, lemma_div_pos_is_pos};
use vstd::arithmetic::mul::lemma_mul_inequality;
use crate::vec3::Vec3;

verus! {

/// Largest accepted target height for [`normalize_heights`]: keeps the
/// 128-bit rescaling product in range.
pub const TARGET_MAX: i64 = 0x2000_0000_0000_0000;

/// The least height of a lattice (`0` for an empty one).
pub open spec fn z_min(s: Seq<Vec3>) -> int
    decreases s.len(),
{
    if s.len() == 0 {
        0
    } else if s.len() == 1 {
        s[0].z as int
    } else {
        let m = z_min(s.drop_last());
        if (s.last().z as int) < m {
            s.last().z as int
        } else {
            m
        }
    }
}

/// The greatest height of a lattice (`0` for an empty one).
pub open spec fn z_max(s: Seq<Vec3>) -> int
    decreases s.len(),
{
    if s.len() == 0 {
        0
    } else if s.len() == 1 {
        s[0].z as int
    } else {
        let m = z_max(s.drop_last());
        if (s.last().z as int) > m {
            s.last().z as int
        } else {
            m
        }
    }
}

/// Every height lies between `z_min` and `z_max`.
pub proof fn lemma_z_min_max(s: Seq<Vec3>)
    requires
        s.len() >= 1,
    ensures
        forall|i: int| 0 <= i < s.len() ==> z_min(s) <= (#[trigger] s[i].z as int) <= z_max(s),
    decreases s.len(),
{
    if s.len() > 1 {
        lemma_z_min_max(s.drop_last());
        assert forall|i: int| 0 <= i < s.len() implies z_min(s) <= (#[trigger] s[i].z as int)
            <= z_max(s) by {
            if i < s.len() - 1 {
                assert(s.drop_last()[i] == s[i]);
            }
        }
    }
}

/// A lattice of one constant height has that height as both extremes.
pub proof fn lemma_z_const(s: Seq<Vec3>, c: int)
    requires
        s.len() >= 1,
        forall|i: int| 0 <= i < s.len() ==> (#[trigger] s[i].z as int) == c,
    ensures
        z_min(s) == c,
        z_max(s) == c,
    decreases s.len(),
{
    if s.len() > 1 {
        assert forall|i: int|
            0 <= i < s.drop_last().len() implies (#[trigger] s.drop_last()[i].z as int) == c by {
            assert(s.drop_last()[i] == s[i]);
        }
        lemma_z_const(s.drop_last(), c);
        assert(s.last().z as int == c);
    }
}

/// One rescaled height: `(z - lo) * h / (hi - lo)`, or `0` on a collapsed
/// range.
pub open spec fn normalize_point(z: int, lo: int, hi: int, h: int) -> int {
    if lo == hi {
        0
    } else {
        ((z - lo) * h) / (hi - lo)
    }
}

/// The lattice with its height channel rescaled into `[0, h]`.
pub open spec fn normalize_seq(s: Seq<Vec3>, h: int) -> Seq<Vec3> {
    let lo = z_min(s);
    let hi = z_max(s);
    Seq::new(
        s.len(),
        |i: int| Vec3 { x: s[i].x, y: s[i].y, z: normalize_point(s[i].z as int, lo, hi, h) as i64 },
    )
}

/// A rescaled height stays within the target range `[0, h]`.
pub proof fn lemma_normalize_point_range(z: int, lo: int, hi: int, h: int)
    requires
        lo <= z <= hi,
        0 <= h,
    ensures
        0 <= normalize_point(z, lo, hi, h) <= h,
{
    if lo != hi {
        let d = hi - lo;
        lemma_mul_inequality(z - lo, d, h);
        lemma_div_is_ordered((z - lo) * h, d * h, d);
        lemma_div_multiples_vanish(h, d);
        assert(d * h == h * d) by (nonlinear_arith);
        assert((z - lo) * h >= 0) by (nonlinear_arith)
            requires
                z - lo >= 0,
                h >= 0,
        ;
        lemma_div_pos_is_pos((z - lo) * h, d);
    }
}

/// Normalizing keeps the length and planar coordinates and pins every
/// height into `[0, h]`.
pub proof fn lemma_normalize_seq_props(s: Seq<Vec3>, h: int)
    requires
        s.len() >= 1,
        0 <= h <= 0x7fff_ffff_ffff_ffff,
    ensures
        normalize_seq(s, h).len() == s.len(),
        forall|i: int| 0 <= i < s.len() ==> (#[trigger] normalize_seq(s, h)[i].x) == s[i].x,
        forall|i: int| 0 <= i < s.len() ==> (#[trigger] normalize_seq(s, h)[i].y) == s[i].y,
        forall|i: int|
            0 <= i < s.len() ==> 0 <= (#[trigger] normalize_seq(s, h)[i].z as int) <= h,
{
    lemma_z_min_max(s);
    assert forall|i: int|
        0 <= i < s.len() implies 0 <= (#[trigger] normalize_seq(s, h)[i].z as int) <= h by {
        lemma_normalize_point_range(s[i].z as int, z_min(s), z_max(s), h);
    }
}

/// Rescales every height into `[0, h]`, leaving `x` and `y` untouched.
/// On a collapsed height range every height becomes `0`.
#[verifier::loop_isolation(false)]
pub fn normalize_heights(v: &mut Vec<Vec3>, h: i64)
    requires
        old(v)@.len() >= 1,
        0 <= h <= TARGET_MAX,
    ensures
        final(v)@ == normalize_seq(old(v)@, h as int),
        forall|i: int| 0 <= i < final(v)@.len() ==> 0 <= (#[trigger] final(v)@[i].z as int) <= h,
{
    let ghost s = v@;
    let n = v.len();
    let mut lo: i64 = v[0].z;
    let mut hi: i64 = v[0].z;
    let mut i: usize = 1;
    while i < n
        invariant
            1 <= i <= n,
            lo as int == z_min(s.take(i as int)),
            hi as int == z_max(s.take(i as int)),
        decreases n - i,
    {
        proof {
            assert(s.take(i as int + 1).drop_last() =~= s.take(i as int));
            assert(s.take(i as int + 1).last() == s[i as int]);
        }
        let z = v[i].z;
        if z < lo {
            lo = z;
        }
        if z > hi {
            hi = z;
        }
        i = i + 1;
    }
    proof {
        assert(s.take(n as int) =~= s);
        lemma_z_min_max(s);
    }
    let mut out: Vec<Vec3> = Vec::new();
    let mut i: usize = 0;
    while i < n
        invariant
            0 <= i <= n,
            out@ == normalize_seq(s, h as int).take(i as int),
        decreases n - i,
    {
        let p = v[i];
        let z: i64 = if lo == hi {
            0
        } else {
            proof {
                lemma_normalize_point_range(p.z as int, lo as int, hi as int, h as int);
                assert((p.z as int - lo as int) * (h as int) >= 0) by (nonlinear_arith)
                    requires
                        p.z as int - lo as int >= 0,
                        h as int >= 0,
                ;
                assert((p.z as int - lo as int) * (h as int) < 0x2000_0000_0000_0000_0000_0000_0000_0000)
                    by (nonlinear_arith)
                    requires
                        0 <= p.z as int - lo as int,
                        (p.z as int - lo as int) < 0x1_0000_0000_0000_0000,
                        0 <= h as int && (h as int) <= 0x2000_0000_0000_0000,
                ;
            }
            let d: i128 = (p.z as i128) - (lo as i128);
            let range: i128 = (hi as i128) - (lo as i128);
            let q: u128 = ((d * (h as i128)) as u128) / (range as u128);
            q as i64
        };
        out.push(Vec3 { x: p.x, y: p.y, z });
        proof {
            let spec_out = normalize_seq(s, h as int);
            assert(spec_out[i as int] == Vec3 { x: p.x, y: p.y, z });
            assert(spec_out.take(i as int + 1) =~= spec_out.take(i as int).push(
                spec_out[i as int],
            ));
        }
        i = i + 1;
    }
    *v = out;
    proof {
        assert(v@ =~= normalize_seq(s, h as int));
        assert forall|i2: int| 0 <= i2 < v@.len() implies 0 <= (#[trigger] v@[i2].z as int)
            <= h as int by {
            lemma_normalize_point_range(s[i2].z as int, z_min(s), z_max(s), h as int);
        }
    }
}

} // verus!
