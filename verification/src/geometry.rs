//! Integer helpers shared by the hit tests and layout code: the meaning of
//! Rust's `as` casts between `u32`, `usize` and `i32`, and of truncating
//! division, written as spec functions over `int`.
use vstd::prelude::*;

verus! {

/// The value of `v as i32` for a `u32`: the same bits read as a signed number.
pub open spec fn u32_as_i32(v: u32) -> int {
    if v <= 0x7fff_ffff { v as int } else { v as int - 0x1_0000_0000 }
}

/// The value of `v as u32` for an `i32`: the same bits read as an unsigned number.
pub open spec fn i32_as_u32(v: i32) -> int {
    if v >= 0 { v as int } else { v as int + 0x1_0000_0000 }
}

/// Whether a mathematical integer fits in an `i32`.
pub open spec fn fits_i32(v: int) -> bool {
    i32::MIN <= v <= i32::MAX
}

/// `v as i32` for a `u32`, proved to agree with [`u32_as_i32`].
pub fn cast_u32_i32(v: u32) -> (r: i32)
    ensures
        r as int == u32_as_i32(v),
{
    let r = #[verifier::truncate] (v as i32);
    assert(v <= 0x7fff_ffff ==> (v as i32) as int == v as int) by (bit_vector);
    assert(v > 0x7fff_ffff ==> (v as i32) as int == v as int - 0x1_0000_0000) by (bit_vector);
    r
}

/// `v as u32` for an `i32`, proved to agree with [`i32_as_u32`].
pub fn cast_i32_u32(v: i32) -> (r: u32)
    ensures
        r as int == i32_as_u32(v),
{
    let r = #[verifier::truncate] (v as u32);
    assert(v >= 0 ==> (v as u32) as int == v as int) by (bit_vector);
    assert(v < 0 ==> (v as u32) as int == v as int + 0x1_0000_0000) by (bit_vector);
    r
}

/// `max` on `i32`, as `Ord::max` computes it.
pub open spec fn max_int(a: int, b: int) -> int {
    if a >= b { a } else { b }
}

/// `Ord::max` for `i32`.
pub fn max_i32(a: i32, b: i32) -> (r: i32)
    ensures
        r as int == max_int(a as int, b as int),
{
    if a >= b { a } else { b }
}

/// Quotient of Rust's `/` on signed integers: rounds toward zero.
pub open spec fn trunc_div(a: int, b: int) -> int
    recommends
        b != 0,
{
    if a >= 0 {
        if b > 0 { a / b } else { -(a / (-b)) }
    } else {
        if b > 0 { -((-a) / b) } else { (-a) / (-b) }
    }
}

/// Remainder of Rust's `%` on signed integers: takes the sign of the dividend.
pub open spec fn trunc_rem(a: int, b: int) -> int
    recommends
        b != 0,
{
    a - b * trunc_div(a, b)
}

} // verus!

verus! {

/// The low 32 bits of `v` read as a signed number: what `as i32` gives for
/// an integer type of at least 32 bits.
pub open spec fn wrap_i32(v: int) -> int {
    let m = v % 0x1_0000_0000;
    if m <= 0x7fff_ffff { m } else { m - 0x1_0000_0000 }
}

/// `as i32` keeps a value that fits.
pub proof fn lemma_wrap_i32_small(v: int)
    requires
        0 <= v <= i32::MAX,
    ensures
        wrap_i32(v) == v,
{
    vstd::arithmetic::div_mod::lemma_small_mod(v as nat, 0x1_0000_0000nat);
}

/// The value of `v as i32` for a `usize`: its low 32 bits read as a signed number.
pub open spec fn usize_as_i32(v: usize) -> int {
    let m = (v as int) % 0x1_0000_0000;
    if m <= 0x7fff_ffff { m } else { m - 0x1_0000_0000 }
}

/// `v as i32` for a `usize`, proved to agree with [`usize_as_i32`].
pub fn cast_usize_i32(v: usize) -> (r: i32)
    ensures
        r as int == usize_as_i32(v),
{
    let wide: u64 = v as u64;
    let low: u32 = (wide % 0x1_0000_0000u64) as u32;
    let r = cast_u32_i32(low);
    r
}

} // verus!

verus! {

/// Rust's `a / b` and `a % b` on `i32`: the quotient rounds toward zero and
/// the remainder takes the dividend's sign.
pub fn div_rem_i32(a: i32, b: i32) -> (r: (i32, i32))
    requires
        b != 0,
        !(a == i32::MIN && b == -1),
    ensures
        r.0 as int == trunc_div(a as int, b as int),
        r.1 as int == trunc_rem(a as int, b as int),
{
    let aa: i64 = if a < 0 { -(a as i64) } else { a as i64 };
    let bb: i64 = if b < 0 { -(b as i64) } else { b as i64 };
    let q0: i64 = aa / bb;
    let r0: i64 = aa % bb;
    proof {
        assert(aa == q0 * bb + r0 && 0 <= r0 < bb) by (nonlinear_arith)
            requires
                aa >= 0,
                bb > 0,
                q0 == aa / bb,
                r0 == aa % bb,
        ;
        assert(0 <= q0 <= aa) by (nonlinear_arith)
            requires
                aa >= 0,
                bb >= 1,
                q0 == aa / bb,
        ;
    }
    let q: i64 = if (a < 0) != (b < 0) { -q0 } else { q0 };
    let rm: i64 = if a < 0 { -r0 } else { r0 };
    proof {
        let ai = a as int;
        let bi = b as int;
        assert(q == trunc_div(ai, bi));
        assert(rm == ai - bi * q) by (nonlinear_arith)
            requires
                aa == q0 * bb + r0,
                aa == if ai < 0 { -ai } else { ai },
                bb == if bi < 0 { -bi } else { bi },
                q == if (ai < 0) != (bi < 0) { -q0 } else { q0 as int },
                rm == if ai < 0 { -r0 } else { r0 as int },
        ;
        assert(q0 < 0x8000_0000 || bb == 1) by (nonlinear_arith)
            requires
                aa == q0 * bb + r0,
                0 <= r0 < bb,
                0 <= q0,
                aa <= 0x8000_0000,
                bb >= 1,
        ;
        assert(-0x8000_0000 <= q <= 0x7fff_ffff);
        assert(-0x8000_0000 <= rm <= 0x7fff_ffff);
    }
    (q as i32, rm as i32)
}

} // verus!
