//! The orchestrator: eager precondition checks, the per-member pass, the
//! string-table prepend, the two-phase 32/64-bit sizing, and the final
//! byte-stream assembly.
use vstd::prelude::*;

use crate::bytefmt::push_bytes;
use crate::errors::{ArchiveError, spec_is_member_too_big};
use crate::kind::{
    ArchiveKind, is_bsd_like, spec_is_64bit_kind, spec_is_bsd_like, spec_writable,
};
use crate::member::{
    MemberData, MemberDataView, MemberView, NewArchiveMember, lemma_footprint_nonneg,
    lemma_footprint_split, member_views, spec_footprint, views_of,
};
use crate::memberdata::{ComputeState, compute_member_data, spec_compute_member_data};
use crate::strtab::{compute_string_table, spec_string_table_member};
use crate::symtab::{
    compute_symbol_table_size_and_pad, count_total_syms, lemma_sum_record_lens_nonneg,
    lemma_sum_record_lens_prefix_mono, lemma_sum_record_lens_split, lemma_total_syms_nonneg,
    now, spec_last_member_offset, spec_sum_record_lens, spec_symbol_table, spec_symtab_header,
    spec_symtab_size, spec_total_syms, write_symbol_table, write_symbol_table_header,
};

verus! {

/// The eight-byte magic opening a normal or thin archive.
pub open spec fn spec_magic(thin: bool) -> Seq<u8> {
    if thin {
        seq![33u8, 60u8, 116u8, 104u8, 105u8, 110u8, 62u8, 10u8]
    } else {
        seq![33u8, 60u8, 97u8, 114u8, 99u8, 104u8, 62u8, 10u8]
    }
}

fn push_magic(out: &mut Vec<u8>, thin: bool)
    ensures
        final(out)@ == old(out)@ + spec_magic(thin),
{
    if thin {
        out.push(33u8);
        out.push(60u8);
        out.push(116u8);
        out.push(104u8);
        out.push(105u8);
        out.push(110u8);
        out.push(62u8);
        out.push(10u8);
    } else {
        out.push(33u8);
        out.push(60u8);
        out.push(97u8);
        out.push(114u8);
        out.push(99u8);
        out.push(104u8);
        out.push(62u8);
        out.push(10u8);
    }
    assert(final(out)@ =~= old(out)@ + spec_magic(thin));
}

/// The member list as laid out in the file: the string-table pseudo-member
/// first when there is one, then the real members.
pub open spec fn spec_prepended_members(st: ComputeState) -> Seq<MemberDataView> {
    if st.strtab.len() > 0 {
        seq![spec_string_table_member(st.strtab)] + st.members
    } else {
        st.members
    }
}

/// Where the last member would start under a thirty-two-bit layout: the
/// speculative pass that decides whether the kind must be upgraded.
pub open spec fn spec_estimate_last_offset(
    kind: ArchiveKind,
    ts: u64,
    data: Seq<MemberDataView>,
    sym_names: Seq<u8>,
) -> int {
    let size32 = spec_symtab_size(kind, spec_total_syms(data), 4, sym_names.len() as int);
    let hdr = spec_symtab_header(kind, ts as int, size32, 0);
    8 + (if data.len() == 0 {
        0int
    } else {
        spec_sum_record_lens(data.take(data.len() - 1))
    }) + hdr.len() + size32
}

/// The kind actually emitted: upgraded to its 64-bit counterpart when the
/// last member would start at or past `2^32`.
pub open spec fn spec_effective_kind(
    kind: ArchiveKind,
    write_symtab: bool,
    ts: u64,
    data: Seq<MemberDataView>,
    sym_names: Seq<u8>,
) -> ArchiveKind {
    if write_symtab && spec_estimate_last_offset(kind, ts, data, sym_names) >= 0x100000000 {
        if kind is Darwin {
            ArchiveKind::Darwin64
        } else {
            ArchiveKind::Gnu64
        }
    } else {
        kind
    }
}

/// Member records as emitted, in order: header, payload, padding.
pub open spec fn spec_records(ms: Seq<MemberDataView>) -> Seq<u8>
    decreases ms.len(),
{
    if ms.len() == 0 {
        Seq::empty()
    } else {
        ms[0].record_bytes() + spec_records(ms.drop_first())
    }
}

/// The whole archive, byte for byte, for an input that passes every check:
/// magic, the symbol table when requested, then every record.
pub open spec fn spec_archive_ok_bytes(
    members: Seq<MemberView>,
    write_symtab: bool,
    kind: ArchiveKind,
    deterministic: bool,
    thin: bool,
    ts: u64,
) -> Seq<u8>
    recommends
        spec_compute_member_data(members, kind, thin, deterministic, write_symtab) is Ok,
{
    let st = spec_compute_member_data(members, kind, thin, deterministic, write_symtab)->Ok_0;
    let data = spec_prepended_members(st);
    let ekind = spec_effective_kind(kind, write_symtab, ts, data, st.sym_names);
    spec_magic(thin) + (if write_symtab {
        spec_symbol_table(ekind, ts as int, data, st.sym_names, 8)
    } else {
        Seq::empty()
    }) + spec_records(data)
}

/// Input budget the layout arithmetic is proved against.
pub open spec fn spec_input_fits(members: Seq<MemberView>) -> bool {
    spec_footprint(members) <= 0x1000000000000000
}

/// Budget on the symbol-name buffer an input's payloads may produce.
pub open spec fn spec_sym_names_fit(sym_names: Seq<u8>) -> bool {
    sym_names.len() <= 0x10000000000
}

/// Does the footprint of the member list stay within the input budget?
fn check_footprint(new_members: &Vec<NewArchiveMember>) -> (r: bool)
    ensures
        r == spec_input_fits(member_views(new_members@)),
{
    let ghost mviews = member_views(new_members@);
    let n = new_members.len();
    let mut acc: u64 = 0;
    let mut i: usize = 0;
    proof {
        assert(mviews.take(0) =~= Seq::<MemberView>::empty());
    }
    while i < n
        invariant
            n == new_members@.len(),
            mviews == member_views(new_members@),
            i <= n,
            acc == spec_footprint(mviews.take(i as int)),
            acc <= 0x1000000000000000,
        decreases n - i,
    {
        proof {
            assert(mviews[i as int] == new_members@[i as int]@);
            lemma_footprint_split(mviews, i as int);
            lemma_footprint_split(mviews, i as int + 1);
            assert(mviews.skip(i as int)[0] == mviews[i as int]);
            assert(mviews.skip(i as int).drop_first() =~= mviews.skip(i as int + 1));
            lemma_footprint_nonneg(mviews.skip(i as int + 1));
            assert(spec_footprint(mviews.take(i as int + 1)) == spec_footprint(
                mviews.take(i as int),
            ) + 128 + mviews[i as int].member_name.len() + mviews[i as int].buf.len());
        }
        let name_len = new_members[i].member_name.len() as u64;
        let buf_len = new_members[i].buf.len() as u64;
        if name_len >= 0x1000000000000000 || buf_len >= 0x1000000000000000 {
            proof {
                lemma_footprint_split(mviews, i as int + 1);
                lemma_footprint_nonneg(mviews.skip(i as int + 1));
                lemma_footprint_nonneg(mviews.take(i as int));
                assert(spec_footprint(mviews) > 0x1000000000000000);
            }
            return false;
        }
        acc = acc + 128 + name_len + buf_len;
        if acc > 0x1000000000000000 {
            proof {
                lemma_footprint_split(mviews, i as int + 1);
                lemma_footprint_nonneg(mviews.skip(i as int + 1));
                assert(spec_footprint(mviews) > 0x1000000000000000);
            }
            return false;
        }
        i += 1;
    }
    proof {
        assert(mviews.take(n as int) =~= mviews);
    }
    true
}

/// Run the speculative thirty-two-bit sizing pass: where would the last
/// member start, were the symbol table laid out with four-byte entries?
fn estimate_last_offset(
    data: &Vec<MemberData>,
    kind: ArchiveKind,
    ts: u64,
    sym_names: &Vec<u8>,
) -> (r: u64)
    requires
        spec_writable(kind),
        spec_total_syms(views_of(data@)) <= 0x1000000000000,
        sym_names@.len() <= 0x100000000000000,
        spec_sum_record_lens(views_of(data@)) <= 0x4000000000000000,
    ensures
        r == spec_estimate_last_offset(kind, ts, views_of(data@), sym_names@),
{
    let ghost ms = views_of(data@);
    let num_syms = count_total_syms(data);
    let (size32, _pad32) = compute_symbol_table_size_and_pad(kind, num_syms, 4, sym_names.as_slice());
    let mut tmp: Vec<u8> = Vec::new();
    write_symbol_table_header(&mut tmp, kind, ts, size32);
    proof {
        lemma_sum_record_lens_nonneg(ms);
        crate::symtab::lemma_symtab_header_len(kind, ts as int, size32 as int, 0);
        assert(tmp@ =~= spec_symtab_header(kind, ts as int, size32 as int, 0));
        assert(ms.take(0) =~= Seq::<MemberDataView>::empty());
    }
    let n = data.len();
    let mut max_offset: u64 = 8;
    let mut last_offset: u64 = max_offset;
    let mut i: usize = 0;
    while i < n
        invariant
            n == data@.len(),
            ms == views_of(data@),
            i <= n,
            spec_sum_record_lens(ms) <= 0x4000000000000000,
            max_offset == 8 + spec_sum_record_lens(ms.take(i as int)),
            last_offset == 8 + (if i == 0 {
                0int
            } else {
                spec_sum_record_lens(ms.take(i as int - 1))
            }),
            max_offset <= 8 + spec_sum_record_lens(ms),
        decreases n - i,
    {
        proof {
            assert(ms[i as int] == data@[i as int]@);
            lemma_sum_record_lens_split(ms, i as int);
            lemma_sum_record_lens_split(ms, i as int + 1);
            lemma_sum_record_lens_nonneg(ms.skip(i as int + 1));
            lemma_sum_record_lens_nonneg(ms.take(i as int));
            assert(ms.skip(i as int)[0] == ms[i as int]);
            assert(ms.skip(i as int).drop_first() =~= ms.skip(i as int + 1));
        }
        last_offset = max_offset;
        let step = data[i].byte_len();
        max_offset = max_offset + step;
        i += 1;
    }
    proof {
        assert(ms.take(n as int) =~= ms);
        if n > 0 {
            lemma_sum_record_lens_prefix_mono(ms, n - 1, n as int);
            lemma_sum_record_lens_nonneg(ms.take(n - 1));
        }
    }
    last_offset + tmp.len() as u64 + size32
}

/// Append every record: header, payload, padding, in member order.
fn emit_records(out: &mut Vec<u8>, data: &Vec<MemberData>)
    ensures
        final(out)@ == old(out)@ + spec_records(views_of(data@)),
{
    let ghost ms = views_of(data@);
    let ghost target = old(out)@ + spec_records(ms);
    let n = data.len();
    let mut i: usize = 0;
    proof {
        assert(ms.skip(0) =~= ms);
    }
    while i < n
        invariant
            n == data@.len(),
            ms == views_of(data@),
            i <= n,
            out@ + spec_records(ms.skip(i as int)) == target,
        decreases n - i,
    {
        proof {
            assert(ms[i as int] == data@[i as int]@);
            assert(ms.skip(i as int)[0] == ms[i as int]);
            assert(ms.skip(i as int).drop_first() =~= ms.skip(i as int + 1));
        }
        push_bytes(out, data[i].header.as_slice());
        push_bytes(out, data[i].data.as_slice());
        push_bytes(out, data[i].padding.as_slice());
        proof {
            assert(out@ + spec_records(ms.skip(i as int + 1)) =~= target);
        }
        i += 1;
    }
    proof {
        assert(ms.skip(n as int) =~= Seq::<MemberDataView>::empty());
        assert(out@ =~= target);
    }
}


/// Prepending the string-table pseudo-member adds no symbols and at most
/// 71 bytes beyond the table itself.
proof fn lemma_prepend_strtab(st: ComputeState)
    requires
        st.strtab.len() > 0,
        st.strtab.len() + 1 <= u64::MAX,
    ensures
        spec_total_syms(spec_prepended_members(st)) == spec_total_syms(st.members),
        spec_sum_record_lens(spec_prepended_members(st)) == spec_string_table_member(
            st.strtab,
        ).record_len() + spec_sum_record_lens(st.members),
        60 <= spec_string_table_member(st.strtab).record_len() - st.strtab.len() <= 71,
{
    let stm = spec_string_table_member(st.strtab);
    let d = spec_prepended_members(st);
    assert(d[0] == stm);
    assert(d.drop_first() =~= st.members);
    let size = st.strtab.len() as int;
    let pad = crate::align::spec_align_pad(size, 2);
    crate::align::lemma_align_pad(size, 2);
    crate::bytefmt::lemma_dec_len_u64((size + pad) as u64);
}

/// Serialize the members into one archive byte stream.
///
/// The order of the eager checks fixes which failure is reported: an
/// unwritable kind, then thin mode on a BSD-like kind, then an input too
/// large for the layout arithmetic, then the first oversized member, then
/// payloads whose symbol names outgrow their budget. On success the bytes
/// are exactly `spec_archive_ok_bytes`; with `deterministic` they are a
/// pure function of the input, otherwise the symbol-table timestamp is
/// drawn from the clock.
#[verifier::rlimit(100)]
pub fn write_archive_to_stream(
    new_members: &Vec<NewArchiveMember>,
    write_symtab: bool,
    kind: ArchiveKind,
    deterministic: bool,
    thin: bool,
) -> (r: Result<Vec<u8>, ArchiveError>)
    ensures
        ({
            let members = member_views(new_members@);
            if !spec_writable(kind) {
                r matches Err(e) && e is UnsupportedKind
            } else if thin && spec_is_bsd_like(kind) {
                r matches Err(e) && e is ThinNotSupported
            } else if !spec_input_fits(members) {
                r matches Err(e) && e is TooLarge
            } else {
                match spec_compute_member_data(members, kind, thin, deterministic, write_symtab) {
                    Err(i) => (r matches Err(e) && spec_is_member_too_big(
                        e,
                        members[i].member_name,
                    )),
                    Ok(st) => if write_symtab && !spec_sym_names_fit(st.sym_names) {
                        r matches Err(e) && e is TooLarge
                    } else {
                        ((deterministic || !write_symtab) ==> (r matches Ok(out) && out@
                            == spec_archive_ok_bytes(
                            members,
                            write_symtab,
                            kind,
                            deterministic,
                            thin,
                            0,
                        ))) && (exists|t: u64|
                            r matches Ok(out) && out@ == #[trigger] spec_archive_ok_bytes(
                                members,
                                write_symtab,
                                kind,
                                deterministic,
                                thin,
                                t,
                            ))
                    },
                }
            }
        }),
{
    let ghost members = member_views(new_members@);
    if matches!(kind, ArchiveKind::Coff | ArchiveKind::AixBig) {
        return Err(ArchiveError::UnsupportedKind);
    }
    if thin && is_bsd_like(kind) {
        return Err(ArchiveError::ThinNotSupported);
    }
    if !check_footprint(new_members) {
        return Err(ArchiveError::TooLarge);
    }
    let mut string_table: Vec<u8> = Vec::new();
    let mut sym_names: Vec<u8> = Vec::new();
    let mut data: Vec<MemberData> = match compute_member_data(
        &mut string_table,
        &mut sym_names,
        kind,
        thin,
        deterministic,
        write_symtab,
        new_members,
    ) {
        Ok(d) => d,
        Err(e) => {
            return Err(e);
        },
    };
    let ghost st = spec_compute_member_data(members, kind, thin, deterministic, write_symtab)->Ok_0;
    if write_symtab && sym_names.len() as u64 > 0x10000000000u64 {
        return Err(ArchiveError::TooLarge);
    }
    // Prepend the string table as a synthetic member when it is non-empty.
    if string_table.len() > 0 {
        let stm = compute_string_table(&string_table);
        proof {
            lemma_prepend_strtab(st);
        }
        data.insert(0, stm);
        proof {
            assert(views_of(data@) =~= spec_prepended_members(st));
        }
    }
    let ghost dviews = views_of(data@);
    proof {
        assert(dviews == spec_prepended_members(st));
        lemma_total_syms_nonneg(st.members);
        lemma_sum_record_lens_nonneg(st.members);
        if st.strtab.len() > 0 {
            lemma_prepend_strtab(st);
        }
        assert(spec_total_syms(dviews) == spec_total_syms(st.members));
        assert(spec_sum_record_lens(dviews) <= 0x4000000000000000);
        assert forall|a: int, b: int|
            0 <= a < dviews.len() && 0 <= b < dviews[a].symbols.len() implies #[trigger] dviews[a].symbols[b]
            <= sym_names@.len() by {
            if st.strtab.len() > 0 {
                if a == 0 {
                    assert(dviews[0].symbols.len() == 0);
                } else {
                    assert(dviews[a] == st.members[a - 1]);
                }
            } else {
                assert(dviews[a] == st.members[a]);
            }
        }
    }
    let ts = now(deterministic);
    // Decide whether the kind must switch to its 64-bit counterpart: would
    // the last member start at or past the 32-bit threshold?
    let mut ekind = kind;
    if write_symtab {
        let last_offset = estimate_last_offset(&data, kind, ts, &sym_names);
        if last_offset >= 0x100000000 {
            ekind = if matches!(kind, ArchiveKind::Darwin) {
                ArchiveKind::Darwin64
            } else {
                ArchiveKind::Gnu64
            };
        }
    }
    assert(ekind == spec_effective_kind(kind, write_symtab, ts, dviews, st.sym_names));
    let mut out: Vec<u8> = Vec::new();
    push_magic(&mut out, thin);
    if write_symtab {
        proof {
            if !spec_is_64bit_kind(ekind) {
                crate::symtab::lemma_symtab_header_len_mod8(
                    kind,
                    ts as int,
                    spec_symtab_size(
                        kind,
                        spec_total_syms(dviews),
                        4,
                        st.sym_names.len() as int,
                    ),
                    8,
                    0,
                );
                assert(spec_last_member_offset(ekind, ts as int, dviews, st.sym_names, 8)
                    == spec_estimate_last_offset(kind, ts, dviews, st.sym_names));
            }
        }
        write_symbol_table(&mut out, ekind, ts, &data, &sym_names);
    }
    emit_records(&mut out, &data);
    proof {
        assert(out@ =~= spec_archive_ok_bytes(members, write_symtab, kind, deterministic, thin, ts));
        if deterministic || !write_symtab {
            assert(out@ =~= spec_archive_ok_bytes(
                members,
                write_symtab,
                kind,
                deterministic,
                thin,
                0,
            ));
        }
    }
    Ok(out)
}

} // verus!
