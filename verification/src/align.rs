//! Rounding addresses to whole pages.

use vstd::prelude::*;
use vstd::arithmetic::div_mod::{
    lemma_fundamental_div_mod, lemma_mod_bound, lemma_mod_multiples_basic,
};

verus! {

/// The largest multiple of `align` that is not above `value`.
pub open spec fn aligned_down(value: int, align: int) -> int {
    value / align * align
}

/// The smallest multiple of `align` that is not below `value`.
pub open spec fn aligned_up(value: int, align: int) -> int {
    if value % align == 0 {
        value
    } else {
        value / align * align + align
    }
}

/// Rounds `val` down to a multiple of `align`.
pub fn align_down(val: usize, align: usize) -> (aligned: usize)
    requires
        align > 0,
    ensures
        aligned == aligned_down(val as int, align as int),
{
    proof {
        law_alignment_brackets(val as int, align as int);
    }
    val / align * align
}

/// Rounds `val` up to a multiple of `align`.
pub fn align_up(val: usize, align: usize) -> (aligned: usize)
    requires
        align > 0,
        aligned_up(val as int, align as int) <= usize::MAX,
    ensures
        aligned == aligned_up(val as int, align as int),
{
    proof {
        law_alignment_brackets(val as int, align as int);
        lemma_fundamental_div_mod(val as int, align as int);
        vstd::arithmetic::mul::lemma_mul_is_commutative(align as int, val as int / align as int);
    }
    let result: usize = val / align * align;
    if val % align != 0 {
        result + align
    } else {
        result
    }
}

/// Rounding moves a value by less than `align`, to multiples of `align` that lie
/// on either side of it, and are the value itself exactly if it is one already.
pub proof fn law_alignment_brackets(value: int, align: int)
    requires
        align > 0,
        value >= 0,
    ensures
        0 <= aligned_down(value, align) <= value < aligned_down(value, align) + align,
        value <= aligned_up(value, align) < value + align,
        aligned_down(value, align) % align == 0,
        aligned_up(value, align) % align == 0,
        value % align == 0 <==> aligned_down(value, align) == value,
        value % align == 0 <==> aligned_up(value, align) == value,
{
    let quotient = value / align;
    lemma_fundamental_div_mod(value, align);
    lemma_mod_bound(value, align);
    vstd::arithmetic::mul::lemma_mul_is_commutative(align, quotient);
    lemma_mod_multiples_basic(quotient, align);
    lemma_mod_multiples_basic(quotient + 1, align);
    assert((quotient + 1) * align == quotient * align + align) by (nonlinear_arith);
    vstd::arithmetic::div_mod::lemma_div_pos_is_pos(value, align);
    assert(0 <= quotient * align) by (nonlinear_arith)
        requires
            0 <= quotient,
            0 < align,
    ;
}

/// Rounding what is rounded changes nothing.
pub proof fn law_alignment_is_idempotent(value: int, align: int)
    requires
        align > 0,
        value >= 0,
    ensures
        aligned_down(aligned_down(value, align), align) == aligned_down(value, align),
        aligned_up(aligned_up(value, align), align) == aligned_up(value, align),
{
    law_alignment_brackets(value, align);
    law_alignment_brackets(aligned_down(value, align), align);
    law_alignment_brackets(aligned_up(value, align), align);
}

/// No multiple of `align` lies between a value and what it is rounded to.
pub proof fn law_alignment_is_tight(value: int, align: int, multiple: int)
    requires
        align > 0,
        value >= 0,
        multiple % align == 0,
    ensures
        multiple <= value ==> multiple <= aligned_down(value, align),
        value <= multiple ==> aligned_up(value, align) <= multiple,
{
    law_alignment_brackets(value, align);
    lemma_fundamental_div_mod(multiple, align);
    let down = aligned_down(value, align);
    let up = aligned_up(value, align);
    lemma_fundamental_div_mod(down, align);
    lemma_fundamental_div_mod(up, align);
    let m = multiple / align;
    let d = down / align;
    let u = up / align;
    if multiple <= value && multiple > down {
        assert(false) by (nonlinear_arith)
            requires
                align > 0,
                multiple == align * m,
                down == align * d,
                multiple > down,
                multiple < down + align,
        ;
    }
    if value <= multiple && up > multiple {
        assert(false) by (nonlinear_arith)
            requires
                align > 0,
                multiple == align * m,
                up == align * u,
                up > multiple,
                up < multiple + align,
        ;
    }
}

/// Rounding keeps the order of values.
pub proof fn law_alignment_is_monotonic(low: int, high: int, align: int)
    requires
        align > 0,
        0 <= low <= high,
    ensures
        aligned_down(low, align) <= aligned_down(high, align),
        aligned_up(low, align) <= aligned_up(high, align),
{
    law_alignment_brackets(low, align);
    law_alignment_brackets(high, align);
    law_alignment_is_tight(high, align, aligned_down(low, align));
    law_alignment_is_tight(low, align, aligned_up(high, align));
}

} // verus!
