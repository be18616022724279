//! The synthesized symbol-table pseudo-member: sizing, header and body.
use vstd::prelude::*;

use crate::align::{offset_to_alignment, spec_align_pad};
use crate::bytefmt::{print_n_bits, push_bytes, push_fill, spec_fill, spec_n_bits};
use crate::header::{
    print_bsd_member_header, print_gnu_small_member_header, spec_bsd_header, spec_gnu_small_header,
    spec_rest_of_header,
};
use crate::kind::{
    ArchiveKind, is_64bit_kind, is_bsd_like, is_darwin, spec_is_64bit_kind, spec_is_bsd_like,
    spec_is_darwin, spec_writable,
};
use crate::member::{MemberData, MemberDataView, views_of};

verus! {

/// Seconds to stamp a synthesized member with: the fixed epoch in
/// deterministic mode, the wall clock otherwise.
pub fn now(deterministic: bool) -> (r: u64)
    ensures
        deterministic ==> r == 0,
{
    if deterministic {
        0
    } else {
        wall_clock_seconds()
    }
}

/// Relies on `std::time::SystemTime`: `now`, `duration_since` from the
/// epoch and `Duration::as_secs`. The value depends on the clock, so
/// nothing is promised of it beyond its type.
#[verifier::external_body]
fn wall_clock_seconds() -> (r: u64)
{
    match std::time::SystemTime::now().duration_since(std::time::UNIX_EPOCH) {
        Ok(d) => d.as_secs(),
        Err(_) => 0,
    }
}

/// Name of the BSD-family symbol-table member.
pub open spec fn spec_symdef_name(kind: ArchiveKind) -> Seq<u8> {
    if spec_is_64bit_kind(kind) {
        seq![95u8, 95u8, 46u8, 83u8, 89u8, 77u8, 68u8, 69u8, 70u8, 95u8, 54u8, 52u8]
    } else {
        seq![95u8, 95u8, 46u8, 83u8, 89u8, 77u8, 68u8, 69u8, 70u8]
    }
}

/// Name of the GNU-family symbol-table member (empty for the 32-bit form,
/// whose header field is a bare slash).
pub open spec fn spec_gnu_symtab_name(kind: ArchiveKind) -> Seq<u8> {
    if spec_is_64bit_kind(kind) {
        seq![47u8, 83u8, 89u8, 77u8, 54u8, 52u8]
    } else {
        Seq::empty()
    }
}

fn symdef_name(kind: ArchiveKind) -> (r: Vec<u8>)
    ensures
        r@ == spec_symdef_name(kind),
{
    let mut r: Vec<u8> = Vec::new();
    r.push(95u8);
    r.push(95u8);
    r.push(46u8);
    r.push(83u8);
    r.push(89u8);
    r.push(77u8);
    r.push(68u8);
    r.push(69u8);
    r.push(70u8);
    if is_64bit_kind(kind) {
        r.push(95u8);
        r.push(54u8);
        r.push(52u8);
    }
    assert(r@ =~= spec_symdef_name(kind));
    r
}

fn gnu_symtab_name(kind: ArchiveKind) -> (r: Vec<u8>)
    ensures
        r@ == spec_gnu_symtab_name(kind),
{
    let mut r: Vec<u8> = Vec::new();
    if is_64bit_kind(kind) {
        r.push(47u8);
        r.push(83u8);
        r.push(89u8);
        r.push(77u8);
        r.push(54u8);
        r.push(52u8);
    }
    assert(r@ =~= spec_gnu_symtab_name(kind));
    r
}

/// Byte size of the symbol-table body before padding: the leading count or
/// byte-count word, the offset entries (pairs on the BSD side, bare member
/// offsets on the GNU side), the BSD trailing byte count, and the name
/// buffer.
pub open spec fn spec_symtab_content_size(
    kind: ArchiveKind,
    num_syms: int,
    offset_size: int,
    names_len: int,
) -> int {
    if spec_is_bsd_like(kind) {
        offset_size + num_syms * offset_size * 2 + offset_size + names_len
    } else {
        offset_size + num_syms * offset_size + names_len
    }
}

/// The body is padded to eight bytes for the BSD family (so 64-bit members
/// stay aligned) and to two bytes otherwise.
pub open spec fn spec_symtab_pad(kind: ArchiveKind, content: int) -> int {
    spec_align_pad(content, if spec_is_bsd_like(kind) { 8int } else { 2int })
}

pub open spec fn spec_symtab_size(
    kind: ArchiveKind,
    num_syms: int,
    offset_size: int,
    names_len: int,
) -> int {
    let content = spec_symtab_content_size(kind, num_syms, offset_size, names_len);
    content + spec_symtab_pad(kind, content)
}

/// Size and padding of the symbol-table member for the given symbol count
/// and name-buffer, with `string_table` holding the symbol names.
pub fn compute_symbol_table_size_and_pad(
    kind: ArchiveKind,
    num_syms: u64,
    offset_size: u64,
    string_table: &[u8],
) -> (r: (u64, u64))
    requires
        spec_writable(kind),
        offset_size == 4 || offset_size == 8,
        num_syms <= 0x1000000000000,
        string_table@.len() <= 0x100000000000000,
    ensures
        r.0 == spec_symtab_size(kind, num_syms as int, offset_size as int, string_table@.len() as int),
        r.1 == spec_symtab_pad(
            kind,
            spec_symtab_content_size(
                kind,
                num_syms as int,
                offset_size as int,
                string_table@.len() as int,
            ),
        ),
        r.0 <= 0x200000000000000,
{
    proof {
        assert(num_syms * offset_size <= 0x8000000000000) by (nonlinear_arith)
            requires
                num_syms <= 0x1000000000000,
                0 <= offset_size <= 8,
        ;
    }
    let mut size: u64 = offset_size;  // number of entries
    if is_bsd_like(kind) {
        size = size + num_syms * offset_size * 2;
    } else {
        size = size + num_syms * offset_size;
    }
    if is_bsd_like(kind) {
        size = size + offset_size;  // byte count
    }
    size = size + string_table.len() as u64;
    let pad = offset_to_alignment(size, if is_bsd_like(kind) { 8 } else { 2 });
    size = size + pad;
    (size, pad)
}

/// Header of the symbol-table member, written at archive offset `pos` with
/// zeroed owner metadata.
pub open spec fn spec_symtab_header(kind: ArchiveKind, mtime: int, size: int, pos: int) -> Seq<
    u8,
> {
    if spec_is_bsd_like(kind) {
        spec_bsd_header(pos, spec_symdef_name(kind), mtime, 0, 0, 0, size)
    } else {
        spec_gnu_small_header(spec_gnu_symtab_name(kind), mtime, 0, 0, 0, size)
    }
}

/// Symbol-table headers are between 60 and 100 bytes long.
pub proof fn lemma_symtab_header_len(kind: ArchiveKind, mtime: int, size: int, pos: int)
    requires
        0 <= mtime <= u64::MAX,
        0 <= size,
        size + 32 <= u64::MAX,
        pos >= 0,
    ensures
        60 <= spec_symtab_header(kind, mtime, size, pos).len() <= 100,
{
    crate::header::lemma_rest_of_header_len(mtime, 0, 0, 0, size);
    if spec_is_bsd_like(kind) {
        let name = spec_symdef_name(kind);
        let pad = spec_align_pad(pos + 60 + name.len(), 8);
        crate::align::lemma_align_pad(pos + 60 + name.len(), 8);
        let nwp = name.len() + pad;
        assert(nwp <= 19);
        assert(crate::bytefmt::pow10(13) == 10000000000000) by {
            reveal_with_fuel(crate::bytefmt::pow10, 14);
        }
        crate::bytefmt::lemma_dec_len(nwp, 13);
        crate::header::lemma_rest_of_header_len(mtime, 0, 0, 0, nwp + size);
    }
}

/// The header's length depends on the write position only through its
/// remainder modulo eight.
pub proof fn lemma_symtab_header_len_mod8(
    kind: ArchiveKind,
    mtime: int,
    size: int,
    pos1: int,
    pos2: int,
)
    requires
        pos1 >= 0,
        pos2 >= 0,
        pos1 % 8 == pos2 % 8,
    ensures
        spec_symtab_header(kind, mtime, size, pos1).len() == spec_symtab_header(
            kind,
            mtime,
            size,
            pos2,
        ).len(),
{
    if spec_is_bsd_like(kind) {
        let n = spec_symdef_name(kind).len() as int;
        assert(spec_align_pad(pos1 + 60 + n, 8) == spec_align_pad(pos2 + 60 + n, 8))
            by (nonlinear_arith)
            requires
                pos1 >= 0,
                pos2 >= 0,
                pos1 % 8 == pos2 % 8,
                n >= 0,
        ;
    }
}

/// Append the symbol-table member's header. The caller supplies the
/// timestamp it wants recorded (see `now`).
pub fn write_symbol_table_header(
    out: &mut Vec<u8>,
    kind: ArchiveKind,
    symtab_mtime: u64,
    size: u64,
)
    requires
        spec_writable(kind),
        old(out)@.len() + 128 <= u64::MAX,
        size + 32 <= u64::MAX,
    ensures
        final(out)@ == old(out)@ + spec_symtab_header(
            kind,
            symtab_mtime as int,
            size as int,
            old(out)@.len() as int,
        ),
{
    if is_bsd_like(kind) {
        let name = symdef_name(kind);
        let pos = out.len() as u64;
        print_bsd_member_header(out, pos, &name, symtab_mtime, 0, 0, 0, size);
    } else {
        let name = gnu_symtab_name(kind);
        print_gnu_small_member_header(out, &name, symtab_mtime, 0, 0, 0, size);
    }
}

/// Total number of symbol entries over a member-data list.
pub open spec fn spec_total_syms(ms: Seq<MemberDataView>) -> int
    decreases ms.len(),
{
    if ms.len() == 0 {
        0
    } else {
        ms[0].symbols.len() + spec_total_syms(ms.drop_first())
    }
}

/// Total emitted length of the records of a member-data list.
pub open spec fn spec_sum_record_lens(ms: Seq<MemberDataView>) -> int
    decreases ms.len(),
{
    if ms.len() == 0 {
        0
    } else {
        ms[0].record_len() + spec_sum_record_lens(ms.drop_first())
    }
}

pub proof fn lemma_total_syms_nonneg(ms: Seq<MemberDataView>)
    ensures
        spec_total_syms(ms) >= 0,
    decreases ms.len(),
{
    if ms.len() > 0 {
        lemma_total_syms_nonneg(ms.drop_first());
    }
}

pub proof fn lemma_sum_record_lens_nonneg(ms: Seq<MemberDataView>)
    ensures
        spec_sum_record_lens(ms) >= 0,
    decreases ms.len(),
{
    if ms.len() > 0 {
        lemma_sum_record_lens_nonneg(ms.drop_first());
    }
}

/// A sum over a list splits at any point into the prefix and suffix sums.
pub proof fn lemma_sum_record_lens_split(ms: Seq<MemberDataView>, i: int)
    requires
        0 <= i <= ms.len(),
    ensures
        spec_sum_record_lens(ms) == spec_sum_record_lens(ms.take(i)) + spec_sum_record_lens(
            ms.skip(i),
        ),
    decreases i,
{
    if i == 0 {
        assert(ms.take(0) =~= Seq::<MemberDataView>::empty());
        assert(ms.skip(0) =~= ms);
    } else {
        lemma_sum_record_lens_split(ms.drop_first(), i - 1);
        assert(ms.take(i)[0] == ms[0]);
        assert(ms.take(i).drop_first() =~= ms.drop_first().take(i - 1));
        assert(ms.skip(i) =~= ms.drop_first().skip(i - 1));
    }
}

/// Offset entries contributed by one member: for the BSD family a
/// (name-offset, member-offset) pair per symbol, for the GNU family the
/// member offset alone.
pub open spec fn spec_member_entries(kind: ArchiveKind, syms: Seq<u64>, pos: int) -> Seq<u8>
    decreases syms.len(),
{
    if syms.len() == 0 {
        Seq::empty()
    } else {
        (if spec_is_bsd_like(kind) {
            spec_n_bits(kind, syms[0])
        } else {
            Seq::empty()
        }) + spec_n_bits(kind, pos as u64) + spec_member_entries(kind, syms.drop_first(), pos)
    }
}

/// Offset entries of the whole archive: each member's entries, all citing
/// the offset its record starts at.
pub open spec fn spec_symtab_entries(kind: ArchiveKind, ms: Seq<MemberDataView>, pos: int) -> Seq<
    u8,
>
    decreases ms.len(),
{
    if ms.len() == 0 {
        Seq::empty()
    } else {
        spec_member_entries(kind, ms[0].symbols, pos) + spec_symtab_entries(
            kind,
            ms.drop_first(),
            pos + ms[0].record_len(),
        )
    }
}

/// The complete symbol-table member as emitted at archive offset `pos`:
/// nothing at all when no symbol was found (except under Darwin, whose
/// linkers demand the member even empty), otherwise header, count word,
/// entries, the BSD name-buffer byte count, the name buffer and padding.
pub open spec fn spec_symbol_table(
    kind: ArchiveKind,
    mtime: int,
    ms: Seq<MemberDataView>,
    sym_names: Seq<u8>,
    pos: int,
) -> Seq<u8> {
    if sym_names.len() == 0 && !spec_is_darwin(kind) {
        Seq::empty()
    } else {
        let num_syms = spec_total_syms(ms);
        let offset_size: int = if spec_is_64bit_kind(kind) {
            8
        } else {
            4
        };
        let content = spec_symtab_content_size(kind, num_syms, offset_size, sym_names.len() as int);
        let pad = spec_symtab_pad(kind, content);
        let size = content + pad;
        let header = spec_symtab_header(kind, mtime, size, pos);
        let first_pos = pos + header.len() + size;
        let count_word = if spec_is_bsd_like(kind) {
            spec_n_bits(kind, (num_syms * 2 * offset_size) as u64)
        } else {
            spec_n_bits(kind, num_syms as u64)
        };
        header + count_word + spec_symtab_entries(kind, ms, first_pos) + (if spec_is_bsd_like(
            kind,
        ) {
            spec_n_bits(kind, sym_names.len() as u64)
        } else {
            Seq::empty()
        }) + sym_names + spec_fill(0u8, pad)
    }
}

pub proof fn lemma_total_syms_push(ms: Seq<MemberDataView>, x: MemberDataView)
    ensures
        spec_total_syms(ms.push(x)) == spec_total_syms(ms) + x.symbols.len(),
    decreases ms.len(),
{
    let p = ms.push(x);
    assert(p.len() == ms.len() + 1);
    assert(spec_total_syms(p) == p[0].symbols.len() + spec_total_syms(p.drop_first()));
    if ms.len() == 0 {
        assert(p[0] == x);
        assert(p.drop_first() =~= Seq::<MemberDataView>::empty());
        assert(spec_total_syms(p.drop_first()) == 0);
    } else {
        assert(p[0] == ms[0]);
        assert(p.drop_first() =~= ms.drop_first().push(x));
        lemma_total_syms_push(ms.drop_first(), x);
        assert(spec_total_syms(ms) == ms[0].symbols.len() + spec_total_syms(ms.drop_first()));
    }
}

pub proof fn lemma_sum_record_lens_push(ms: Seq<MemberDataView>, x: MemberDataView)
    ensures
        spec_sum_record_lens(ms.push(x)) == spec_sum_record_lens(ms) + x.record_len(),
    decreases ms.len(),
{
    let p = ms.push(x);
    assert(p.len() == ms.len() + 1);
    assert(spec_sum_record_lens(p) == p[0].record_len() + spec_sum_record_lens(p.drop_first()));
    if ms.len() == 0 {
        assert(p[0] == x);
        assert(p.drop_first() =~= Seq::<MemberDataView>::empty());
        assert(spec_sum_record_lens(p.drop_first()) == 0);
    } else {
        assert(p[0] == ms[0]);
        assert(p.drop_first() =~= ms.drop_first().push(x));
        lemma_sum_record_lens_push(ms.drop_first(), x);
        assert(spec_sum_record_lens(ms) == ms[0].record_len() + spec_sum_record_lens(
            ms.drop_first(),
        ));
    }
}

/// Prefix sums of record lengths grow with the prefix.
pub proof fn lemma_sum_record_lens_prefix_mono(ms: Seq<MemberDataView>, i: int, j: int)
    requires
        0 <= i <= j <= ms.len(),
    ensures
        spec_sum_record_lens(ms.take(i)) <= spec_sum_record_lens(ms.take(j)),
{
    lemma_sum_record_lens_split(ms.take(j), i);
    assert(ms.take(j).take(i) =~= ms.take(i));
    lemma_sum_record_lens_nonneg(ms.take(j).skip(i));
}

/// Archive offset at which the last member's record would start, were the
/// symbol table written at `pos` with the given timestamp.
pub open spec fn spec_last_member_offset(
    kind: ArchiveKind,
    mtime: int,
    ms: Seq<MemberDataView>,
    sym_names: Seq<u8>,
    pos: int,
) -> int {
    let num_syms = spec_total_syms(ms);
    let offset_size: int = if spec_is_64bit_kind(kind) {
        8
    } else {
        4
    };
    let size = spec_symtab_size(kind, num_syms, offset_size, sym_names.len() as int);
    let header = spec_symtab_header(kind, mtime, size, pos);
    pos + header.len() + size + (if ms.len() == 0 {
        0int
    } else {
        spec_sum_record_lens(ms.take(ms.len() - 1))
    })
}

/// Total symbol count of the records, by one pass over them.
pub(crate) fn count_total_syms(members: &Vec<MemberData>) -> (r: u64)
    requires
        spec_total_syms(views_of(members@)) <= 0x1000000000000,
    ensures
        r == spec_total_syms(views_of(members@)),
{
    let ghost ms = views_of(members@);
    proof {
        lemma_total_syms_nonneg(ms);
        assert(ms.skip(0) =~= ms);
    }
    let n = members.len();
    let mut num_syms: u64 = 0;
    let mut i: usize = 0;
    while i < n
        invariant
            n == members@.len(),
            ms == views_of(members@),
            i <= n,
            spec_total_syms(ms) <= 0x1000000000000,
            num_syms == spec_total_syms(ms) - spec_total_syms(ms.skip(i as int)),
            num_syms <= spec_total_syms(ms),
        decreases n - i,
    {
        proof {
            assert(ms.skip(i as int).drop_first() =~= ms.skip(i as int + 1));
            assert(ms.skip(i as int)[0] == ms[i as int]);
            assert(ms[i as int] == members@[i as int]@);
            lemma_total_syms_nonneg(ms.skip(i as int + 1));
            lemma_total_syms_nonneg(ms.skip(i as int));
        }
        num_syms = num_syms + members[i].symbols.len() as u64;
        i += 1;
    }
    proof {
        assert(ms.skip(n as int) =~= Seq::<MemberDataView>::empty());
    }
    num_syms
}

/// Append the symbol-table member, or nothing when it is omitted. The
/// member records start right after it; on a thirty-two-bit kind the
/// caller must have checked that the last member's offset stays below
/// `2^32` (that is what the upgrade pass is for).
#[verifier::rlimit(100)]
pub fn write_symbol_table(
    out: &mut Vec<u8>,
    kind: ArchiveKind,
    symtab_mtime: u64,
    members: &Vec<MemberData>,
    sym_names: &Vec<u8>,
)
    requires
        spec_writable(kind),
        spec_total_syms(views_of(members@)) <= 0x1000000000000,
        sym_names@.len() <= 0x100000000000000,
        old(out)@.len() <= 0x1000000000000000,
        spec_sum_record_lens(views_of(members@)) <= 0x4000000000000000,
        forall|i: int, j: int|
            0 <= i < members@.len() && 0 <= j < views_of(members@)[i].symbols.len()
                ==> #[trigger] views_of(members@)[i].symbols[j] <= sym_names@.len(),
        !spec_is_64bit_kind(kind) ==> spec_last_member_offset(
            kind,
            symtab_mtime as int,
            views_of(members@),
            sym_names@,
            old(out)@.len() as int,
        ) < 0x100000000,
    ensures
        final(out)@ == old(out)@ + spec_symbol_table(
            kind,
            symtab_mtime as int,
            views_of(members@),
            sym_names@,
            old(out)@.len() as int,
        ),
{
    let ghost ms = views_of(members@);
    let ghost pos0 = old(out)@.len() as int;
    if sym_names.len() == 0 && !is_darwin(kind) {
        assert(final(out)@ =~= old(out)@ + spec_symbol_table(
            kind,
            symtab_mtime as int,
            ms,
            sym_names@,
            pos0,
        ));
        return ;
    }
    let n = members.len();
    proof {
        lemma_total_syms_nonneg(ms);
        lemma_sum_record_lens_nonneg(ms);
    }
    let num_syms: u64 = count_total_syms(members);
    let offset_size: u64 = if is_64bit_kind(kind) {
        8
    } else {
        4
    };
    let (size, pad) = compute_symbol_table_size_and_pad(kind, num_syms, offset_size, sym_names.as_slice());
    let ghost content = spec_symtab_content_size(
        kind,
        num_syms as int,
        offset_size as int,
        sym_names@.len() as int,
    );
    proof {
        assert(num_syms * offset_size >= 0 && num_syms * offset_size * 2 >= 0)
            by (nonlinear_arith)
            requires
                num_syms >= 0,
                offset_size >= 0,
        ;
        crate::align::lemma_align_pad(content, if spec_is_bsd_like(kind) { 8int } else { 2int });
    }
    write_symbol_table_header(out, kind, symtab_mtime, size);
    let ghost header = spec_symtab_header(kind, symtab_mtime as int, size as int, pos0);
    proof {
        lemma_symtab_header_len(kind, symtab_mtime as int, size as int, pos0);
    }
    let ghost first_pos = pos0 + header.len() + size;
    let mut pos: u64 = out.len() as u64 + size;
    assert(pos == first_pos);
    let ghost last_off = spec_last_member_offset(kind, symtab_mtime as int, ms, sym_names@, pos0);
    proof {
        if n > 0 {
            lemma_sum_record_lens_nonneg(ms.take(n - 1));
            assert(last_off == first_pos + spec_sum_record_lens(ms.take(n - 1)));
        }
    }
    // Leading count word: entry bytes for BSD, entry count for GNU.
    if is_bsd_like(kind) {
        proof {
            assert(num_syms * 2 * offset_size <= 0x10000000000000) by (nonlinear_arith)
                requires
                    0 <= num_syms <= 0x1000000000000,
                    0 <= offset_size <= 8,
            ;
            if !spec_is_64bit_kind(kind) {
                assert(num_syms * 2 * offset_size == num_syms * offset_size * 2)
                    by (nonlinear_arith);
                assert(num_syms * 2 * offset_size <= content);
            }
        }
        print_n_bits(out, kind, num_syms * 2 * offset_size);
    } else {
        proof {
            if !spec_is_64bit_kind(kind) {
                assert(num_syms * offset_size >= num_syms) by (nonlinear_arith)
                    requires
                        num_syms >= 0,
                        offset_size >= 4,
                ;
            }
        }
        print_n_bits(out, kind, num_syms);
    }
    let ghost count_word = if spec_is_bsd_like(kind) {
        spec_n_bits(kind, (spec_total_syms(ms) * 2 * (if spec_is_64bit_kind(kind) { 8int } else { 4int })) as u64)
    } else {
        spec_n_bits(kind, spec_total_syms(ms) as u64)
    };
    proof {
        assert(num_syms * 2 * offset_size == spec_total_syms(ms) * 2 * (
        if spec_is_64bit_kind(kind) {
            8int
        } else {
            4int
        }));
        assert(out@ =~= old(out)@ + header + count_word);
    }
    let ghost target = old(out)@ + header + count_word + spec_symtab_entries(kind, ms, first_pos);
    // Offset entries, member by member.
    proof {
        assert(ms.skip(0) =~= ms);
        assert(ms.take(0) =~= Seq::<MemberDataView>::empty());
        assert(out@ + spec_symtab_entries(kind, ms, first_pos) =~= target);
    }
    let mut i: usize = 0;
    while i < n
        invariant
            n == members@.len(),
            ms == views_of(members@),
            i <= n,
            sym_names@.len() <= 0x100000000000000,
            spec_sum_record_lens(ms) <= 0x4000000000000000,
            first_pos <= 0x1000000000000000 + 100 + 0x200000000000000,
            pos == first_pos + spec_sum_record_lens(ms.take(i as int)),
            pos <= first_pos + spec_sum_record_lens(ms),
            out@ + spec_symtab_entries(kind, ms.skip(i as int), pos as int) == target,
            forall|a: int, b: int|
                0 <= a < ms.len() && 0 <= b < ms[a].symbols.len() ==> #[trigger] ms[a].symbols[b]
                    <= sym_names@.len(),
            spec_writable(kind),
            !spec_is_64bit_kind(kind) ==> last_off < 0x100000000,
            !spec_is_64bit_kind(kind) ==> sym_names@.len() < 0x100000000,
            n > 0 ==> last_off == first_pos + spec_sum_record_lens(ms.take(n - 1)),
        decreases n - i,
    {
        proof {
            assert(ms.skip(i as int).drop_first() =~= ms.skip(i as int + 1));
            assert(ms.skip(i as int)[0] == ms[i as int]);
            assert(ms[i as int] == members@[i as int]@);
            lemma_sum_record_lens_split(ms, i as int);
            lemma_sum_record_lens_split(ms, i as int + 1);
            lemma_sum_record_lens_nonneg(ms.skip(i as int + 1));
            if !spec_is_64bit_kind(kind) {
                lemma_sum_record_lens_prefix_mono(ms, i as int, n - 1);
            }
        }
        let ghost member_target = spec_symtab_entries(kind, ms.skip(i as int), pos as int);
        proof {
            let ss = ms[i as int].symbols;
            assert(ss.skip(0) =~= ss);
            assert(member_target == spec_member_entries(kind, ss, pos as int)
                + spec_symtab_entries(kind, ms.skip(i as int + 1), pos + ms[i as int].record_len()));
            assert(out@ + spec_member_entries(kind, ss, pos as int) + spec_symtab_entries(
                kind,
                ms.skip(i as int + 1),
                pos + ms[i as int].record_len(),
            ) =~= out@ + member_target);
        }
        let syms_len = members[i].symbols.len();
        let mut j: usize = 0;
        while j < syms_len
            invariant
                n == members@.len(),
                ms == views_of(members@),
                i < n,
                j <= syms_len,
                ms[i as int] == members@[i as int]@,
                syms_len == ms[i as int].symbols.len(),
                spec_writable(kind),
                !spec_is_64bit_kind(kind) ==> pos <= 0xffffffff,
                !spec_is_64bit_kind(kind) ==> sym_names@.len() < 0x100000000,
                forall|b: int|
                    0 <= b < ms[i as int].symbols.len() ==> #[trigger] ms[i as int].symbols[b]
                        <= sym_names@.len(),
                out@ + spec_member_entries(
                    kind,
                    ms[i as int].symbols.skip(j as int),
                    pos as int,
                ) + spec_symtab_entries(
                    kind,
                    ms.skip(i as int + 1),
                    pos + ms[i as int].record_len(),
                ) == target,
            decreases syms_len - j,
        {
            proof {
                let ss = ms[i as int].symbols;
                assert(ss.skip(j as int).drop_first() =~= ss.skip(j as int + 1));
                assert(ss.skip(j as int)[0] == ss[j as int]);
            }
            if is_bsd_like(kind) {
                print_n_bits(out, kind, members[i].symbols[j]);
            }
            print_n_bits(out, kind, pos);
            j += 1;
        }
        proof {
            assert(ms[i as int].symbols.skip(syms_len as int)
                =~= Seq::<u64>::empty());
        }
        let step = members[i].byte_len();
        pos = pos + step;
        proof {
            assert(ms.take(i as int + 1) =~= ms.take(i as int).push(ms[i as int]));
        }
        i += 1;
    }
    proof {
        assert(ms.skip(n as int) =~= Seq::<MemberDataView>::empty());
        assert(out@ =~= target);
    }
    // BSD records the size of the name buffer before the names.
    if is_bsd_like(kind) {
        print_n_bits(out, kind, sym_names.len() as u64);
    }
    push_bytes(out, sym_names.as_slice());
    push_fill(out, 0u8, pad as usize);
    proof {
        assert(final(out)@ =~= old(out)@ + spec_symbol_table(
            kind,
            symtab_mtime as int,
            ms,
            sym_names@,
            pos0,
        ));
    }
}

} // verus!
