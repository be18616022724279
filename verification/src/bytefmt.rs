//! Fixed-width textual number fields and binary integer fields, the two
//! primitive encodings every archive header is built from.
use vstd::prelude::*;

use crate::kind::{ArchiveKind, spec_is_64bit_kind, spec_is_bsd_like, spec_writable};

verus! {

/// Decimal digits of `v`, most significant first.
pub open spec fn spec_dec(v: int) -> Seq<u8>
    recommends
        v >= 0,
    decreases v,
{
    if v < 10 {
        seq![(48 + v) as u8]
    } else {
        spec_dec(v / 10).push((48 + v % 10) as u8)
    }
}

/// Octal digits of `v`, most significant first.
pub open spec fn spec_oct(v: int) -> Seq<u8>
    recommends
        v >= 0,
    decreases v,
{
    if v < 8 {
        seq![(48 + v) as u8]
    } else {
        spec_oct(v / 8).push((48 + v % 8) as u8)
    }
}

/// `n` copies of the byte `b`.
pub open spec fn spec_fill(b: u8, n: int) -> Seq<u8>
    recommends
        n >= 0,
{
    Seq::new(n as nat, |i: int| b)
}

/// `s` left-justified in a field of `w` bytes filled with `b`; kept whole
/// when it is already wider.
pub open spec fn spec_pad_right(s: Seq<u8>, b: u8, w: int) -> Seq<u8> {
    if s.len() >= w {
        s
    } else {
        s + spec_fill(b, w - s.len())
    }
}

/// A `w`-character decimal field, space padded.
pub open spec fn spec_dec_field(v: int, w: int) -> Seq<u8> {
    spec_pad_right(spec_dec(v), 32u8, w)
}

/// A `w`-character octal field, space padded.
pub open spec fn spec_oct_field(v: int, w: int) -> Seq<u8> {
    spec_pad_right(spec_oct(v), 32u8, w)
}

pub open spec fn pow10(k: nat) -> int
    decreases k,
{
    if k == 0 {
        1
    } else {
        10 * pow10((k - 1) as nat)
    }
}

/// A value below `10^k` prints in at most `k` decimal digits.
pub proof fn lemma_dec_len(v: int, k: nat)
    requires
        0 <= v < pow10(k),
        k >= 1,
    ensures
        1 <= spec_dec(v).len() <= k,
    decreases k,
{
    if v < 10 {
    } else {
        assert(k >= 2) by {
            if k == 1 {
                assert(pow10(1) == 10) by {
                    reveal_with_fuel(pow10, 2);
                }
            }
        }
        assert(v / 10 < pow10((k - 1) as nat)) by (nonlinear_arith)
            requires
                v < pow10(k),
                pow10(k) == 10 * pow10((k - 1) as nat),
                v >= 10,
        ;
        lemma_dec_len(v / 10, (k - 1) as nat);
    }
}

/// Any unsigned 64-bit value prints in at most twenty decimal digits.
pub proof fn lemma_dec_len_u64(v: u64)
    ensures
        1 <= spec_dec(v as int).len() <= 20,
{
    assert(pow10(20) == 0x56bc75e2d63100000) by {
        reveal_with_fuel(pow10, 21);
    }
    lemma_dec_len(v as int, 20);
}

pub open spec fn pow8(k: nat) -> int
    decreases k,
{
    if k == 0 {
        1
    } else {
        8 * pow8((k - 1) as nat)
    }
}

/// A value below `8^k` prints in at most `k` octal digits.
pub proof fn lemma_oct_len(v: int, k: nat)
    requires
        0 <= v < pow8(k),
        k >= 1,
    ensures
        1 <= spec_oct(v).len() <= k,
    decreases k,
{
    if v < 8 {
    } else {
        assert(k >= 2) by {
            if k == 1 {
                assert(pow8(1) == 8) by {
                    reveal_with_fuel(pow8, 2);
                }
            }
        }
        assert(v / 8 < pow8((k - 1) as nat)) by (nonlinear_arith)
            requires
                v < pow8(k),
                pow8(k) == 8 * pow8((k - 1) as nat),
                v >= 8,
        ;
        lemma_oct_len(v / 8, (k - 1) as nat);
    }
}

/// Any unsigned 32-bit value prints in at most eleven octal digits.
pub proof fn lemma_oct_len_u32(v: u32)
    ensures
        1 <= spec_oct(v as int).len() <= 11,
{
    assert(pow8(11) == 0x200000000) by {
        reveal_with_fuel(pow8, 12);
    }
    lemma_oct_len(v as int, 11);
}

/// Append the decimal digits of `v`.
pub fn push_dec(out: &mut Vec<u8>, v: u64)
    ensures
        final(out)@ == old(out)@ + spec_dec(v as int),
    decreases v,
{
    if v < 10 {
        out.push((48 + v) as u8);
        assert(final(out)@ =~= old(out)@ + spec_dec(v as int));
    } else {
        push_dec(out, v / 10);
        out.push((48 + (v % 10)) as u8);
        assert(final(out)@ =~= old(out)@ + spec_dec(v as int));
    }
}

/// Append the octal digits of `v`.
pub fn push_oct(out: &mut Vec<u8>, v: u64)
    ensures
        final(out)@ == old(out)@ + spec_oct(v as int),
    decreases v,
{
    if v < 8 {
        out.push((48 + v) as u8);
        assert(final(out)@ =~= old(out)@ + spec_oct(v as int));
    } else {
        push_oct(out, v / 8);
        out.push((48 + (v % 8)) as u8);
        assert(final(out)@ =~= old(out)@ + spec_oct(v as int));
    }
}

/// Number of decimal digits of `v`.
pub fn dec_len(v: u64) -> (r: usize)
    ensures
        r == spec_dec(v as int).len(),
        1 <= r <= 20,
    decreases v,
{
    proof {
        lemma_dec_len_u64(v);
    }
    if v < 10 {
        1
    } else {
        1 + dec_len(v / 10)
    }
}

/// Number of octal digits of `v`.
pub fn oct_len(v: u64) -> (r: usize)
    ensures
        r == spec_oct(v as int).len(),
        r >= 1,
    decreases v,
{
    if v < 8 {
        1
    } else {
        let n = oct_len(v / 8);
        assert(spec_oct(v as int).len() == n + 1);
        assert(n + 1 <= usize::MAX) by {
            lemma_oct_small(v as int);
        }
        1 + n
    }
}

/// Octal digit strings of 64-bit values never exceed twenty-two digits.
pub proof fn lemma_oct_small(v: int)
    requires
        0 <= v <= u64::MAX,
    ensures
        spec_oct(v).len() <= 22,
{
    assert(pow8(22) == 0x40000000000000000) by {
        reveal_with_fuel(pow8, 23);
    }
    lemma_oct_len(v, 22);
}

/// Append `n` copies of `b`.
pub fn push_fill(out: &mut Vec<u8>, b: u8, n: usize)
    ensures
        final(out)@ == old(out)@ + spec_fill(b, n as int),
{
    let mut i: usize = 0;
    while i < n
        invariant
            i <= n,
            out@ == old(out)@ + spec_fill(b, i as int),
        decreases n - i,
    {
        out.push(b);
        assert(out@ =~= old(out)@ + spec_fill(b, i + 1));
        i += 1;
    }
}

/// Append all of `s`.
pub fn push_bytes(out: &mut Vec<u8>, s: &[u8])
    ensures
        final(out)@ == old(out)@ + s@,
{
    let mut i: usize = 0;
    while i < s.len()
        invariant
            i <= s@.len(),
            out@ == old(out)@ + s@.take(i as int),
        decreases s@.len() - i,
    {
        out.push(s[i]);
        assert(out@ =~= old(out)@ + s@.take(i + 1));
        i += 1;
    }
    assert(s@.take(s@.len() as int) =~= s@);
}

/// Append a `w`-character space-padded decimal field holding `v`.
pub fn push_dec_field(out: &mut Vec<u8>, v: u64, w: usize)
    ensures
        final(out)@ == old(out)@ + spec_dec_field(v as int, w as int),
{
    let n = dec_len(v);
    push_dec(out, v);
    if n < w {
        push_fill(out, 32u8, w - n);
        assert(out@ =~= old(out)@ + spec_dec_field(v as int, w as int));
    }
}

/// Append a `w`-character space-padded octal field holding `v`.
pub fn push_oct_field(out: &mut Vec<u8>, v: u64, w: usize)
    ensures
        final(out)@ == old(out)@ + spec_oct_field(v as int, w as int),
{
    let n = oct_len(v);
    push_oct(out, v);
    if n < w {
        push_fill(out, 32u8, w - n);
        assert(out@ =~= old(out)@ + spec_oct_field(v as int, w as int));
    }
}

/// The four bytes of `v`, least significant first.
pub open spec fn spec_u32_le(v: u32) -> Seq<u8> {
    seq![
        (v as int % 256) as u8,
        (v as int / 256 % 256) as u8,
        (v as int / 65536 % 256) as u8,
        (v as int / 16777216 % 256) as u8,
    ]
}

pub open spec fn spec_u32_be(v: u32) -> Seq<u8> {
    spec_u32_le(v).reverse()
}

/// The eight bytes of `v`, least significant first.
pub open spec fn spec_u64_le(v: u64) -> Seq<u8> {
    seq![
        (v as int % 256) as u8,
        (v as int / 0x100 % 256) as u8,
        (v as int / 0x10000 % 256) as u8,
        (v as int / 0x1000000 % 256) as u8,
        (v as int / 0x100000000 % 256) as u8,
        (v as int / 0x10000000000 % 256) as u8,
        (v as int / 0x1000000000000 % 256) as u8,
        (v as int / 0x100000000000000 % 256) as u8,
    ]
}

pub open spec fn spec_u64_be(v: u64) -> Seq<u8> {
    spec_u64_le(v).reverse()
}

/// The binary offset field of the symbol table: four or eight bytes, little
/// endian for the BSD family and big endian for the GNU family.
pub open spec fn spec_n_bits(kind: ArchiveKind, v: u64) -> Seq<u8> {
    if spec_is_64bit_kind(kind) {
        if spec_is_bsd_like(kind) {
            spec_u64_le(v)
        } else {
            spec_u64_be(v)
        }
    } else {
        if spec_is_bsd_like(kind) {
            spec_u32_le(v as u32)
        } else {
            spec_u32_be(v as u32)
        }
    }
}

fn push_u32_le(out: &mut Vec<u8>, v: u32)
    ensures
        final(out)@ == old(out)@ + spec_u32_le(v),
{
    out.push((v % 256) as u8);
    out.push((v / 256 % 256) as u8);
    out.push((v / 65536 % 256) as u8);
    out.push((v / 16777216 % 256) as u8);
    assert(final(out)@ =~= old(out)@ + spec_u32_le(v));
}

fn push_u32_be(out: &mut Vec<u8>, v: u32)
    ensures
        final(out)@ == old(out)@ + spec_u32_be(v),
{
    out.push((v / 16777216 % 256) as u8);
    out.push((v / 65536 % 256) as u8);
    out.push((v / 256 % 256) as u8);
    out.push((v % 256) as u8);
    assert(final(out)@ =~= old(out)@ + spec_u32_be(v));
}

fn push_u64_le(out: &mut Vec<u8>, v: u64)
    ensures
        final(out)@ == old(out)@ + spec_u64_le(v),
{
    out.push((v % 256) as u8);
    out.push((v / 0x100 % 256) as u8);
    out.push((v / 0x10000 % 256) as u8);
    out.push((v / 0x1000000 % 256) as u8);
    out.push((v / 0x100000000 % 256) as u8);
    out.push((v / 0x10000000000 % 256) as u8);
    out.push((v / 0x1000000000000 % 256) as u8);
    out.push((v / 0x100000000000000 % 256) as u8);
    assert(final(out)@ =~= old(out)@ + spec_u64_le(v));
}

fn push_u64_be(out: &mut Vec<u8>, v: u64)
    ensures
        final(out)@ == old(out)@ + spec_u64_be(v),
{
    out.push((v / 0x100000000000000 % 256) as u8);
    out.push((v / 0x1000000000000 % 256) as u8);
    out.push((v / 0x10000000000 % 256) as u8);
    out.push((v / 0x100000000 % 256) as u8);
    out.push((v / 0x1000000 % 256) as u8);
    out.push((v / 0x10000 % 256) as u8);
    out.push((v / 0x100 % 256) as u8);
    out.push((v % 256) as u8);
    assert(final(out)@ =~= old(out)@ + spec_u64_be(v));
}

/// Append one symbol-table offset field in the width and endianness of
/// `kind`. Thirty-two-bit kinds can only record offsets below `2^32`.
pub fn print_n_bits(out: &mut Vec<u8>, kind: ArchiveKind, val: u64)
    requires
        spec_writable(kind),
        !spec_is_64bit_kind(kind) ==> val <= u32::MAX,
    ensures
        final(out)@ == old(out)@ + spec_n_bits(kind, val),
{
    if crate::kind::is_64bit_kind(kind) {
        if crate::kind::is_bsd_like(kind) {
            push_u64_le(out, val);
        } else {
            push_u64_be(out, val);
        }
    } else {
        let v32 = val as u32;
        if crate::kind::is_bsd_like(kind) {
            push_u32_le(out, v32);
        } else {
            push_u32_be(out, v32);
        }
    }
}

} // verus!
