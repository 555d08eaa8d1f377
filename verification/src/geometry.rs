use vstd::prelude::*;

verus! {

/// The largest pixel count (width times height) of any image the pipeline
/// keeps alive. It bounds every buffer the codec library is asked to
/// allocate far below the machine's address-space limit.
pub const MAX_PIXELS: u64 = 0x100_0000_0000;

/// `n / d` rounded to the nearest integer, halves rounded up.
pub open spec fn rdiv(n: nat, d: nat) -> nat {
    (n + d / 2) / d
}

/// The length dimension `a` takes when its partner dimension `b` is scaled
/// to `target_b`, keeping the `a : b` aspect ratio; never below 1, so a
/// strong downscale cannot produce an empty image.
pub open spec fn auto_dim(a: nat, b: nat, target_b: nat) -> nat {
    if rdiv(a * target_b, b) == 0 {
        1
    } else {
        rdiv(a * target_b, b)
    }
}

/// Dimensions the pipeline accepts for a live image: nothing empty, nothing
/// beyond `MAX_PIXELS`.
pub open spec fn dims_ok(w: nat, h: nat) -> bool {
    1 <= w && 1 <= h && w * h <= MAX_PIXELS as nat
}

/// Rounded division stays within half a denominator of the true quotient:
/// `rdiv(n, d) * d` differs from `n` by at most `d / 2` in either direction.
pub proof fn lemma_rdiv_bounds(n: nat, d: nat)
    requires
        1 <= d,
    ensures
        2 * (rdiv(n, d) * d) <= 2 * n + d,
        2 * n <= 2 * (rdiv(n, d) * d) + d,
{
    let q = rdiv(n, d);
    assert(q == (n + d / 2) / d);
    assert(2 * (q * d) <= 2 * n + d && 2 * n <= 2 * (q * d) + d) by (nonlinear_arith)
        requires
            1 <= d,
            q == (n + d / 2) / d,
    ;
}

/// Scaling a whole multiple is exact: `rdiv(a * b, b) == a`.
pub proof fn lemma_rdiv_exact(a: nat, b: nat)
    requires
        1 <= b,
    ensures
        rdiv(a * b, b) == a,
{
    assert((a * b + b / 2) / b == a) by (nonlinear_arith)
        requires
            1 <= b,
    ;
}

/// The computed dimension preserves the aspect ratio within rounding: the
/// cross products `auto_dim(a, b, t) * b` and `a * t` differ by at most half
/// of `b`, except in the degenerate case where the rounded value would be 0
/// and 1 is used instead.
pub proof fn lemma_auto_dim_aspect(a: nat, b: nat, t: nat)
    requires
        1 <= b,
    ensures
        rdiv(a * t, b) >= 1 ==> 2 * (auto_dim(a, b, t) * b) <= 2 * (a * t) + b,
        rdiv(a * t, b) >= 1 ==> 2 * (a * t) <= 2 * (auto_dim(a, b, t) * b) + b,
        rdiv(a * t, b) == 0 ==> auto_dim(a, b, t) == 1 && 2 * (a * t) <= b,
{
    lemma_rdiv_bounds(a * t, b);
    if rdiv(a * t, b) == 0 {
        assert(2 * (a * t) <= 2 * (0 * b) + b);
    }
}

/// Keeping the partner dimension fixed is exact: scaling `b` to itself
/// leaves `a` unchanged.
pub proof fn lemma_auto_dim_identity(a: nat, b: nat)
    requires
        1 <= a,
        1 <= b,
    ensures
        auto_dim(a, b, b) == a,
{
    lemma_rdiv_exact(a, b);
}

/// The pixel count of a `width x height` rectangle, which always fits in
/// `u64`.
pub fn mul_dims(a: u32, b: u32) -> (r: u64)
    ensures
        r as nat == (a as nat) * (b as nat),
{
    proof {
        assert((a as nat) * (b as nat) <= 0xffff_ffff * 0xffff_ffff) by (nonlinear_arith)
            requires
                a <= 0xffff_ffffu32 && b <= 0xffff_ffffu32,
        ;
    }
    (a as u64) * (b as u64)
}

/// The aspect-preserving partner of `a` when `b` is rescaled to `target_b`,
/// or `None` when that length does not fit in `u32`.
pub fn scale_dim(a: u32, b: u32, target_b: u32) -> (r: Option<u32>)
    requires
        1 <= b,
    ensures
        match r {
            Some(v) => 1 <= v && v as nat == auto_dim(a as nat, b as nat, target_b as nat),
            None => auto_dim(a as nat, b as nat, target_b as nat) > u32::MAX,
        },
{
    proof {
        assert((a as nat) * (target_b as nat) <= 0xffff_ffff * 0xffff_ffff) by (nonlinear_arith)
            requires
                a <= 0xffff_ffffu32 && target_b <= 0xffff_ffffu32,
        ;
    }
    let n: u64 = (a as u64) * (target_b as u64);
    let q: u64 = (n + (b as u64) / 2) / (b as u64);
    assert(q as nat == rdiv((a as nat) * (target_b as nat), b as nat));
    let q: u64 = if q == 0 {
        1
    } else {
        q
    };
    if q <= u32::MAX as u64 {
        Some(q as u32)
    } else {
        None
    }
}

} // verus!
