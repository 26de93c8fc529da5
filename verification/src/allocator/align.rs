//! Rounding addresses up to an alignment boundary.

use vstd::prelude::*;
use vstd::arithmetic::power2::is_pow2;
use vstd::arithmetic::div_mod::{lemma_fundamental_div_mod, lemma_mod_multiples_basic};

verus! {

/// The least multiple of `align` that is not below `addr`.
pub open spec fn align_up_spec(addr: int, align: int) -> int
    recommends
        align > 0,
{
    if addr % align == 0 {
        addr
    } else {
        addr - addr % align + align
    }
}

/// `align_up_spec(addr, align)` is a multiple of `align` that is not below
/// `addr` and less than one `align` above it.
pub proof fn lemma_align_up_is_multiple(addr: int, align: int)
    requires
        align > 0,
    ensures
        align_up_spec(addr, align) % align == 0,
        addr <= align_up_spec(addr, align) < addr + align,
{
    let r = addr % align;
    let up = align_up_spec(addr, align);
    assert(0 <= r < align && up % align == 0) by (nonlinear_arith)
        requires
            align > 0,
            r == addr % align,
            up == if r == 0 { addr } else { addr - r + align },
    ;
}

/// No multiple of `align` that is not below `addr` is smaller than
/// `align_up_spec(addr, align)`.
pub proof fn lemma_align_up_is_least(addr: int, align: int, multiple: int)
    requires
        align > 0,
        addr <= multiple,
        multiple % align == 0,
    ensures
        align_up_spec(addr, align) <= multiple,
{
    let up = align_up_spec(addr, align);
    lemma_align_up_is_multiple(addr, align);
    if multiple < up {
        assert(false) by (nonlinear_arith)
            requires
                align > 0,
                multiple < up,
                up - multiple < align,
                multiple % align == 0,
                up % align == 0,
        ;
    }
}

proof fn lemma_remainder_bounds(addr: int, align: int)
    by (nonlinear_arith)
    requires
        addr >= 0,
        align > 0,
    ensures
        0 <= addr % align <= addr,
        addr % align < align,
{
}

/// Rounds `addr` up to the next multiple of `align`; an address that is
/// already a multiple is returned as it is.
pub fn align_up(addr: usize, align: usize) -> (aligned: usize)
    requires
        align > 0,
        align_up_spec(addr as int, align as int) <= usize::MAX,
    ensures
        aligned == align_up_spec(addr as int, align as int),
        aligned % align == 0,
        addr <= aligned < addr + align,
{
    proof {
        lemma_align_up_is_multiple(addr as int, align as int);
        lemma_remainder_bounds(addr as int, align as int);
    }
    let remainder: usize = addr % align;
    if remainder == 0 {
        addr
    } else {
        addr - remainder + align
    }
}

/// Rounds `addr` up to the next multiple of `align`, or returns `None`
/// where that multiple does not fit in an address.
pub fn checked_align_up(addr: usize, align: usize) -> (aligned: Option<usize>)
    requires
        align > 0,
    ensures
        aligned == if align_up_spec(addr as int, align as int) <= usize::MAX {
            Some(align_up_spec(addr as int, align as int) as usize)
        } else {
            None
        },
{
    proof {
        lemma_remainder_bounds(addr as int, align as int);
    }
    let remainder: usize = addr % align;
    if remainder == 0 {
        Some(addr)
    } else {
        (addr - remainder).checked_add(align)
    }
}

/// Whether `n` is a power of two.
pub fn is_power_of_two(n: usize) -> (yes: bool)
    ensures
        yes == is_pow2(n as int),
{
    let mut rest: usize = n;
    while rest > 1 && rest % 2 == 0
        invariant
            is_pow2(rest as int) == is_pow2(n as int),
        decreases rest,
    {
        proof {
            reveal(is_pow2);
        }
        rest = rest / 2;
    }
    proof {
        reveal(is_pow2);
    }
    rest == 1
}

/// Of two powers of two, the smaller divides the larger.
pub proof fn lemma_smaller_power_divides(small: int, large: int)
    requires
        is_pow2(small),
        is_pow2(large),
        small <= large,
    ensures
        0 < small,
        large % small == 0,
    decreases small,
{
    reveal(is_pow2);
    if small == 1 {
        assert(large % 1 == 0);
    } else {
        lemma_smaller_power_divides(small / 2, large / 2);
        let half = small / 2;
        let quotient = (large / 2) / half;
        lemma_fundamental_div_mod(large / 2, half);
        assert(large == quotient * small) by (nonlinear_arith)
            requires
                small == 2 * half,
                large == 2 * (half * quotient),
        ;
        lemma_mod_multiples_basic(quotient, small);
    }
}

/// A multiple of `large` is a multiple of every divisor of `large`.
pub proof fn lemma_multiple_of_multiple(addr: int, large: int, small: int)
    requires
        small > 0,
        large > 0,
        large % small == 0,
        addr % large == 0,
    ensures
        addr % small == 0,
{
    let outer = addr / large;
    let inner = large / small;
    lemma_fundamental_div_mod(addr, large);
    lemma_fundamental_div_mod(large, small);
    assert(addr == (outer * inner) * small) by (nonlinear_arith)
        requires
            addr == large * outer,
            large == small * inner,
    ;
    lemma_mod_multiples_basic(outer * inner, small);
}

} // verus!
