//! Padding needed to bring a byte offset up to an alignment boundary.
use vstd::prelude::*;

verus! {

/// Number of padding bytes that take `value` up to the next multiple of
/// `align` (zero when `value` is already aligned).
pub open spec fn spec_align_pad(value: int, align: int) -> int
    recommends
        align > 0,
{
    (align - value % align) % align
}

/// Every offset plus its padding lands exactly on an alignment boundary.
pub proof fn lemma_align_pad(value: int, align: int)
    requires
        align > 0,
        value >= 0,
    ensures
        0 <= spec_align_pad(value, align) < align,
        (value + spec_align_pad(value, align)) % align == 0,
{
    let r = value % align;
    assert((value + ((align - r) % align)) % align == 0) by (nonlinear_arith)
        requires
            align > 0,
            value >= 0,
            r == value % align,
    ;
}

/// Multiples of eight are even.
pub proof fn lemma_mod8_even(x: int)
    requires
        x >= 0,
        x % 8 == 0,
    ensures
        x % 2 == 0,
{
    assert(x % 2 == 0) by (nonlinear_arith)
        requires
            x >= 0,
            x % 8 == 0,
    ;
}

/// Sums and differences stay on a boundary both parts respect.
pub proof fn lemma_mod_add_sub(a: int, b: int, m: int)
    requires
        a >= 0,
        b >= 0,
        m == 2 || m == 8,
    ensures
        a % m == 0 && b % m == 0 ==> (a + b) % m == 0,
        a % m == 0 && (a + b) % m == 0 ==> b % m == 0,
{
    assert((a % m == 0 && b % m == 0 ==> (a + b) % m == 0) && (a % m == 0 && (a + b) % m == 0
        ==> b % m == 0)) by (nonlinear_arith)
        requires
            a >= 0,
            b >= 0,
            m == 2 || m == 8,
    ;
}

pub fn offset_to_alignment(value: u64, align: u64) -> (r: u64)
    requires
        align > 0,
    ensures
        r == spec_align_pad(value as int, align as int),
        r < align,
{
    proof {
        lemma_align_pad(value as int, align as int);
    }
    (align - value % align) % align
}

} // verus!
