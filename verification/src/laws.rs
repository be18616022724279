//! Properties of the writer that hold across runs and inputs, stated and
//! proved over the same spec functions the writer's contracts use.
use vstd::prelude::*;

use crate::header::{spec_gnu_long_header, spec_strtab_record};
use crate::kind::{
    ArchiveKind, spec_is_64bit_kind, spec_is_bsd_like, spec_is_darwin, spec_use_string_table,
    spec_writable,
};
use crate::member::{MemberDataView, MemberView};
use crate::memberdata::{
    spec_compute_fold, spec_compute_member_data, spec_unique_timestamps,
};
use crate::strtab::{
    assoc_find, lemma_assoc_find_none, lemma_assoc_find_push_found, lemma_assoc_find_push_new,
};
use crate::symtab::{spec_symbol_table, spec_total_syms};
use crate::writer::{spec_archive_ok_bytes, spec_effective_kind, spec_estimate_last_offset};

verus! {

/// The string-table bytes implied by its entry list: one `name/\n` record
/// per entry, in insertion order.
pub open spec fn spec_names_concat(names: Seq<(Seq<u8>, u64)>) -> Seq<u8>
    decreases names.len(),
{
    if names.len() == 0 {
        Seq::empty()
    } else {
        spec_names_concat(names.drop_last()) + spec_strtab_record(names.last().0)
    }
}

/// Decimal value of a digit string, most significant first.
pub open spec fn spec_dec_value(s: Seq<u8>) -> int
    decreases s.len(),
{
    if s.len() == 0 {
        0
    } else {
        spec_dec_value(s.drop_last()) * 10 + (s.last() - 48)
    }
}

/// The leading run of decimal digits of a field.
pub open spec fn spec_field_digits(s: Seq<u8>) -> Seq<u8>
    decreases s.len(),
{
    if s.len() == 0 || !(48 <= s[0] <= 57) {
        Seq::empty()
    } else {
        seq![s[0]] + spec_field_digits(s.drop_first())
    }
}

/// The bytes of an inline GNU name field before its closing slash.
pub open spec fn spec_field_name(s: Seq<u8>) -> Seq<u8>
    decreases s.len(),
{
    if s.len() == 0 || s[0] == 47 {
        Seq::empty()
    } else {
        seq![s[0]] + spec_field_name(s.drop_first())
    }
}

/// A printed number consists of decimal digits.
pub proof fn lemma_dec_digits_are_digits(v: int)
    requires
        v >= 0,
    ensures
        forall|k: int|
            0 <= k < crate::bytefmt::spec_dec(v).len() ==> 48 <= #[trigger] crate::bytefmt::spec_dec(
                v,
            )[k] <= 57,
    decreases v,
{
    let d = crate::bytefmt::spec_dec(v);
    if v < 10 {
        assert(d =~= seq![(48 + v) as u8]);
        assert(d[0] == (48 + v) as u8);
    } else {
        lemma_dec_digits_are_digits(v / 10);
        let p = crate::bytefmt::spec_dec(v / 10);
        assert(d == p.push((48 + v % 10) as u8));
        assert forall|k: int| 0 <= k < d.len() implies 48 <= #[trigger] d[k] <= 57 by {
            if k < p.len() {
                assert(d[k] == p[k]);
            } else {
                assert(d[k] == (48 + v % 10) as u8);
            }
        }
    }
}

/// Reading a printed number back yields the number.
pub proof fn lemma_dec_value_inverse(v: int)
    requires
        v >= 0,
    ensures
        spec_dec_value(crate::bytefmt::spec_dec(v)) == v,
    decreases v,
{
    let d = crate::bytefmt::spec_dec(v);
    if v < 10 {
        assert(d =~= seq![(48 + v) as u8]);
        assert(d.drop_last() =~= Seq::<u8>::empty());
        assert(spec_dec_value(d.drop_last()) == 0);
        assert(d.last() == (48 + v) as u8);
    } else {
        lemma_dec_value_inverse(v / 10);
        assert(d.drop_last() =~= crate::bytefmt::spec_dec(v / 10));
        assert(d.last() == (48 + v % 10) as u8);
    }
}

/// Scanning digits stops exactly where the digits end.
pub proof fn lemma_field_digits_concat(d: Seq<u8>, rest: Seq<u8>)
    requires
        forall|k: int| 0 <= k < d.len() ==> 48 <= #[trigger] d[k] <= 57,
        rest.len() == 0 || !(48 <= rest[0] <= 57),
    ensures
        spec_field_digits(d + rest) == d,
    decreases d.len(),
{
    if d.len() == 0 {
        assert(d + rest =~= rest);
        assert(spec_field_digits(d + rest) =~= d);
    } else {
        assert((d + rest)[0] == d[0]);
        assert((d + rest).drop_first() =~= d.drop_first() + rest);
        lemma_field_digits_concat(d.drop_first(), rest);
        assert(spec_field_digits(d + rest) =~= seq![d[0]] + d.drop_first());
        assert(seq![d[0]] + d.drop_first() =~= d);
    }
}

/// Scanning a name stops exactly at its closing slash.
pub proof fn lemma_field_name_concat(name: Seq<u8>, rest: Seq<u8>)
    requires
        forall|k: int| 0 <= k < name.len() ==> #[trigger] name[k] != 47,
        rest.len() > 0 && rest[0] == 47,
    ensures
        spec_field_name(name + rest) == name,
    decreases name.len(),
{
    if name.len() == 0 {
        assert(name + rest =~= rest);
        assert(spec_field_name(name + rest) =~= name);
    } else {
        assert((name + rest)[0] == name[0]);
        assert((name + rest).drop_first() =~= name.drop_first() + rest);
        lemma_field_name_concat(name.drop_first(), rest);
        assert(spec_field_name(name + rest) =~= seq![name[0]] + name.drop_first());
        assert(seq![name[0]] + name.drop_first() =~= name);
    }
}

/// Two deterministic runs on identical input produce byte-identical
/// output: the writer's contract pins the result to one spec-level byte
/// sequence, so any two outputs that satisfy it are equal.
pub proof fn lemma_deterministic_output(
    members: Seq<MemberView>,
    write_symtab: bool,
    kind: ArchiveKind,
    thin: bool,
    out1: Seq<u8>,
    out2: Seq<u8>,
)
    requires
        !(spec_is_darwin(kind) && exists|i: int, j: int|
            0 <= i < j < members.len() && members[i].member_name == members[j].member_name),
        out1 == spec_archive_ok_bytes(members, write_symtab, kind, true, thin, 0),
        out2 == spec_archive_ok_bytes(members, write_symtab, kind, true, thin, 0),
    ensures
        out1 == out2,
{
}

/// An archive that yielded no symbol names omits the symbol-table member
/// entirely — except under a Darwin kind, whose linkers demand one, so a
/// (possibly empty) member is still emitted.
pub proof fn lemma_symbol_table_presence(
    kind: ArchiveKind,
    mtime: u64,
    ms: Seq<MemberDataView>,
    sym_names: Seq<u8>,
    pos: int,
)
    requires
        spec_writable(kind),
        pos >= 0,
        spec_total_syms(ms) <= 0x1000000000000,
        sym_names.len() <= 0x100000000000000,
    ensures
        sym_names.len() == 0 && !spec_is_darwin(kind) ==> spec_symbol_table(
            kind,
            mtime as int,
            ms,
            sym_names,
            pos,
        ) == Seq::<u8>::empty(),
        spec_is_darwin(kind) ==> spec_symbol_table(kind, mtime as int, ms, sym_names, pos).len()
            >= 60,
{
    if spec_is_darwin(kind) {
        let num_syms = spec_total_syms(ms);
        crate::symtab::lemma_total_syms_nonneg(ms);
        let offset_size: int = if spec_is_64bit_kind(kind) {
            8
        } else {
            4
        };
        let content = crate::symtab::spec_symtab_content_size(
            kind,
            num_syms,
            offset_size,
            sym_names.len() as int,
        );
        assert(num_syms * offset_size >= 0 && num_syms * offset_size * 2 >= 0)
            by (nonlinear_arith)
            requires
                num_syms >= 0,
                offset_size >= 0,
        ;
        assert(num_syms * offset_size * 2 <= 0x20000000000000) by (nonlinear_arith)
            requires
                0 <= num_syms <= 0x1000000000000,
                0 <= offset_size <= 8,
        ;
        crate::align::lemma_align_pad(content, 8);
        let pad = crate::symtab::spec_symtab_pad(kind, content);
        let size = content + pad;
        crate::symtab::lemma_symtab_header_len(kind, mtime as int, size, pos);
    }
}

/// When the speculative sizing pass finds the last member at or past the
/// thirty-two-bit threshold, the emitted kind switches to its 64-bit
/// counterpart, whose symbol-table offset fields are eight bytes wide.
pub proof fn lemma_kind_upgrade(
    kind: ArchiveKind,
    write_symtab: bool,
    ts: u64,
    data: Seq<MemberDataView>,
    sym_names: Seq<u8>,
    val: u64,
)
    requires
        write_symtab,
        spec_estimate_last_offset(kind, ts, data, sym_names) >= 0x100000000,
    ensures
        spec_effective_kind(kind, write_symtab, ts, data, sym_names) == (if kind is Darwin {
            ArchiveKind::Darwin64
        } else {
            ArchiveKind::Gnu64
        }),
        spec_is_64bit_kind(spec_effective_kind(kind, write_symtab, ts, data, sym_names)),
        crate::bytefmt::spec_n_bits(
            spec_effective_kind(kind, write_symtab, ts, data, sym_names),
            val,
        ).len() == 8,
{
}

/// Invariants of the non-thin GNU pass: the string table consists of one
/// record per distinct routed name, in first-appearance order, and every
/// member whose name is routed through it carries a header citing the
/// offset of that name's single entry.
#[verifier::rlimit(100)]
proof fn lemma_fold_gnu_strtab(
    members: Seq<MemberView>,
    kind: ArchiveKind,
    need_symbols: bool,
    n: int,
)
    requires
        spec_writable(kind),
        !spec_is_bsd_like(kind),
        0 <= n <= members.len(),
        crate::member::spec_footprint(members) <= 0x1000000000000000,
        spec_compute_fold(members, kind, false, need_symbols, false, n) is Ok,
    ensures
        ({
            let st = spec_compute_fold(members, kind, false, need_symbols, false, n)->Ok_0;
            &&& st.strtab == spec_names_concat(st.names)
            &&& st.strtab.len() <= crate::member::spec_footprint(members.take(n))
            &&& (forall|k1: int, k2: int|
                0 <= k1 < k2 < st.names.len() ==> (#[trigger] st.names[k1]).0 != (
                #[trigger] st.names[k2]).0)
            &&& st.members.len() == n
            &&& (forall|i: int|
                0 <= i < n && spec_use_string_table(false, members[i].member_name)
                    ==> (#[trigger] assoc_find(st.names, members[i].member_name)) is Some
                    && st.members[i].header == spec_gnu_long_header(
                    assoc_find(st.names, members[i].member_name)->Some_0 as int,
                    members[i].mtime as int,
                    members[i].uid as int,
                    members[i].gid as int,
                    members[i].perms as int,
                    members[i].buf.len() as int,
                ))
        }),
    decreases n,
{
    if n == 0 {
        let st = spec_compute_fold(members, kind, false, need_symbols, false, 0)->Ok_0;
        assert(st.strtab =~= spec_names_concat(st.names));
        assert(members.take(0) =~= Seq::<MemberView>::empty());
    } else {
        lemma_fold_gnu_strtab(members, kind, need_symbols, n - 1);
        let prev = spec_compute_fold(members, kind, false, need_symbols, false, n - 1)->Ok_0;
        let st = spec_compute_fold(members, kind, false, need_symbols, false, n)->Ok_0;
        let m = members[n - 1];
        let name = m.member_name;
        crate::member::lemma_footprint_split(members, n);
        crate::member::lemma_footprint_nonneg(members.skip(n));
        crate::member::lemma_footprint_split(members.take(n), n - 1);
        assert(members.take(n).take(n - 1) =~= members.take(n - 1));
        assert(members.take(n).skip(n - 1) =~= seq![m]);
        assert(seq![m].drop_first() =~= Seq::<MemberView>::empty());
        assert(seq![m][0] == m);
        assert(crate::member::spec_footprint(Seq::<MemberView>::empty()) == 0);
        assert(crate::member::spec_footprint(seq![m]) == 128 + name.len() + m.buf.len());
        assert(crate::member::spec_footprint(members.take(n)) == crate::member::spec_footprint(
            members.take(n - 1),
        ) + 128 + name.len() + m.buf.len());
        crate::member::lemma_footprint_nonneg(members.take(n - 1));
        assert(crate::memberdata::spec_member_mtime(
            false,
            crate::member::member_name_seq(members),
            n - 1,
            m.mtime,
        ) == m.mtime);
        // Unfold the step the fold takes for member n-1.
        let data = crate::memberdata::spec_member_emitted_data(false, m.buf);
        assert(crate::memberdata::spec_member_pad(kind, data.len() as int) == 0);
        let size = data.len() as int;
        let hs = crate::header::spec_member_header_step(
            kind,
            false,
            prev.pos,
            prev.strtab,
            prev.names,
            name,
            m.mtime as int,
            m.uid as int,
            m.gid as int,
            m.perms as int,
            size,
        );
        assert(st.members == prev.members.push(st.members.last()));
        assert(st.members.last().header == hs.header);
        assert(st.strtab == hs.strtab && st.names == hs.names);
        if spec_use_string_table(false, name) {
            match assoc_find(prev.names, name) {
                Some(off) => {
                    assert(st.names == prev.names && st.strtab == prev.strtab);
                    assert(hs.header == spec_gnu_long_header(
                        off as int,
                        m.mtime as int,
                        m.uid as int,
                        m.gid as int,
                        m.perms as int,
                        size,
                    ));
                },
                None => {
                    let off = prev.strtab.len() as u64;
                    assert(prev.strtab.len() <= 0x1000000000000000);
                    assert(off as int == prev.strtab.len() as int);
                    lemma_assoc_find_none(prev.names, name);
                    lemma_assoc_find_push_new(prev.names, name, off);
                    assert(st.names == prev.names.push((name, off)));
                    assert(st.names.drop_last() =~= prev.names);
                    assert(st.names.last() == (name, off));
                    assert(st.strtab =~= spec_names_concat(st.names));
                    assert(hs.header == spec_gnu_long_header(
                        off as int,
                        m.mtime as int,
                        m.uid as int,
                        m.gid as int,
                        m.perms as int,
                        size,
                    ));
                    assert forall|k1: int, k2: int| 0 <= k1 < k2 < st.names.len() implies (
                    #[trigger] st.names[k1]).0 != (#[trigger] st.names[k2]).0 by {
                        if k2 == st.names.len() - 1 {
                            assert(st.names[k1] == prev.names[k1]);
                            assert(st.names[k2].0 == name);
                        } else {
                            assert(st.names[k1] == prev.names[k1]);
                            assert(st.names[k2] == prev.names[k2]);
                        }
                    }
                },
            }
            // The new member cites its entry, and earlier members keep
            // citing theirs: appends never change what a scan found.
            assert(st.members.len() == n && st.members[n - 1].header == spec_gnu_long_header(
                assoc_find(st.names, name)->Some_0 as int,
                m.mtime as int,
                m.uid as int,
                m.gid as int,
                m.perms as int,
                m.buf.len() as int,
            ));
            assert forall|i: int|
                0 <= i < n && spec_use_string_table(false, members[i].member_name) implies (
            #[trigger] assoc_find(st.names, members[i].member_name)) is Some
                && st.members[i].header == spec_gnu_long_header(
                assoc_find(st.names, members[i].member_name)->Some_0 as int,
                members[i].mtime as int,
                members[i].uid as int,
                members[i].gid as int,
                members[i].perms as int,
                members[i].buf.len() as int,
            ) by {
                if i < n - 1 {
                    assert(st.members[i] == prev.members[i]);
                    if assoc_find(prev.names, name) is None {
                        lemma_assoc_find_push_found(
                            prev.names,
                            members[i].member_name,
                            (name, prev.strtab.len() as u64),
                        );
                    }
                }
            }
        } else {
            assert(st.names == prev.names && st.strtab == prev.strtab);
            assert forall|i: int|
                0 <= i < n && spec_use_string_table(false, members[i].member_name) implies (
            #[trigger] assoc_find(st.names, members[i].member_name)) is Some
                && st.members[i].header == spec_gnu_long_header(
                assoc_find(st.names, members[i].member_name)->Some_0 as int,
                members[i].mtime as int,
                members[i].uid as int,
                members[i].gid as int,
                members[i].perms as int,
                members[i].buf.len() as int,
            ) by {
                assert(i < n - 1);
                assert(st.members[i] == prev.members[i]);
            }
        }
    }
}

/// One step of the layout pass keeps the running offset aligned and
/// produces an even-length record (eight-byte-aligned payload under
/// Darwin), while every numeric header field stays inside its width.
#[verifier::rlimit(100)]
proof fn lemma_step_aligned(
    members: Seq<MemberView>,
    kind: ArchiveKind,
    thin: bool,
    need_symbols: bool,
    unique_ts: bool,
    i: int,
    st0: crate::memberdata::ComputeState,
)
    requires
        spec_writable(kind),
        0 <= i < members.len(),
        members.len() < 1000000000000,
        members[i].mtime < 1000000000000,
        members[i].perms < 16777216,
        members[i].member_name.len() + members[i].buf.len() + 32 < 10000000000,
        st0.pos >= 0,
        st0.pos % 2 == 0,
        spec_is_darwin(kind) ==> st0.pos % 8 == 0,
        st0.strtab.len() < 1000000000000000,
        forall|k: int| 0 <= k < st0.names.len() ==> (#[trigger] st0.names[k]).1 <= st0.strtab.len(),
        crate::memberdata::spec_compute_step(members, kind, thin, need_symbols, unique_ts, i, st0) is Ok,
    ensures
        ({
            let stn = crate::memberdata::spec_compute_step(
                members,
                kind,
                thin,
                need_symbols,
                unique_ts,
                i,
                st0,
            )->Ok_0;
            let last = stn.members.last();
            &&& stn.members == st0.members.push(last)
            &&& last.record_len() % 2 == 0
            &&& (spec_is_darwin(kind) ==> (last.data.len() + last.padding.len()) % 8 == 0)
            &&& stn.pos >= 0
            &&& stn.pos % 2 == 0
            &&& (spec_is_darwin(kind) ==> stn.pos % 8 == 0)
            &&& stn.strtab.len() <= st0.strtab.len() + members[i].member_name.len() + 2
            &&& (forall|k: int|
                0 <= k < stn.names.len() ==> (#[trigger] stn.names[k]).1 <= stn.strtab.len())
        }),
{
    let stn = crate::memberdata::spec_compute_step(
        members,
        kind,
        thin,
        need_symbols,
        unique_ts,
        i,
        st0,
    )->Ok_0;
    let m = members[i];
    let name = m.member_name;
    // The synthesized timestamp stays below the field width: it is at
    // most the member count.
    let names_seq = crate::member::member_name_seq(members);
    let mtime = crate::memberdata::spec_member_mtime(unique_ts, names_seq, i, m.mtime);
    crate::memberdata::lemma_count_name_range(names_seq.take(i), names_seq[i]);
    assert(mtime < 1000000000000);
    // Unfold the step.
    let data = crate::memberdata::spec_member_emitted_data(thin, m.buf);
    let mpad = crate::memberdata::spec_member_pad(kind, data.len() as int);
    let tail = crate::memberdata::spec_tail_pad(kind, data.len() as int);
    let size = data.len() + mpad;
    crate::align::lemma_align_pad(data.len() as int, 8);
    crate::align::lemma_align_pad(data.len() as int, 2);
    crate::align::lemma_align_pad(data.len() + mpad, 2);
    let hs = crate::header::spec_member_header_step(
        kind,
        thin,
        st0.pos,
        st0.strtab,
        st0.names,
        name,
        mtime as int,
        m.uid as int,
        m.gid as int,
        m.perms as int,
        size as int,
    );
    assert(stn.members == st0.members.push(stn.members.last()));
    assert(stn.members.last().header == hs.header);
    assert(stn.members.last().data == data);
    assert(stn.members.last().padding.len() == mpad + tail);
    assert(stn.strtab == hs.strtab && stn.names == hs.names);
    crate::header::lemma_member_header_step_len_exact(
        kind,
        thin,
        st0.pos,
        st0.strtab,
        st0.names,
        name,
        mtime as int,
        m.uid as int,
        m.gid as int,
        m.perms as int,
        size as int,
    );
    let h = hs.header.len() as int;
    let record = stn.members.last().record_len();
    if spec_is_bsd_like(kind) {
        let padb = crate::align::spec_align_pad(st0.pos + 60 + name.len(), 8);
        crate::align::lemma_align_pad(st0.pos + 60 + name.len(), 8);
        assert(h == 60 + name.len() + padb);
        assert((st0.pos + h) % 8 == 0);
        if spec_is_darwin(kind) {
            assert((data.len() + mpad) % 8 == 0);
            crate::align::lemma_mod8_even(data.len() + mpad);
            assert(tail == 0);
            crate::align::lemma_mod_add_sub(st0.pos, h, 8);
            assert(h % 8 == 0);
            crate::align::lemma_mod_add_sub(h, data.len() + mpad, 8);
            assert(record % 8 == 0);
            crate::align::lemma_mod8_even(record);
            crate::align::lemma_mod_add_sub(st0.pos, record, 8);
            crate::align::lemma_mod8_even(st0.pos + record);
        } else {
            assert(mpad == 0);
            assert((data.len() + tail) % 2 == 0);
            crate::align::lemma_mod8_even(st0.pos + h);
            crate::align::lemma_mod_add_sub(st0.pos, h, 2);
            assert(h % 2 == 0);
            crate::align::lemma_mod_add_sub(h, data.len() + tail, 2);
            assert(record % 2 == 0);
            crate::align::lemma_mod_add_sub(st0.pos, record, 2);
        }
    } else {
        assert(h == 60);
        assert(mpad == 0);
        assert((data.len() + tail) % 2 == 0);
        crate::align::lemma_mod_add_sub(60, data.len() + tail, 2);
        assert(record % 2 == 0);
        crate::align::lemma_mod_add_sub(st0.pos, record, 2);
    }
    assert(stn.strtab.len() <= st0.strtab.len() + name.len() + 2);
    assert forall|k: int| 0 <= k < stn.names.len() implies (#[trigger] stn.names[k]).1
        <= stn.strtab.len() by {
        if k < st0.names.len() {
            assert(stn.names[k] == st0.names[k]);
        }
    }
}

/// Invariants of the layout pass while every numeric header field stays
/// inside its fixed width: each record has even length; under a Darwin
/// kind, payloads with their internal padding land on eight-byte
/// boundaries and so does the running offset.
#[verifier::rlimit(100)]
proof fn lemma_fold_aligned(
    members: Seq<MemberView>,
    kind: ArchiveKind,
    thin: bool,
    need_symbols: bool,
    unique_ts: bool,
    n: int,
)
    requires
        spec_writable(kind),
        0 <= n <= members.len(),
        crate::member::spec_footprint(members) <= 100000000000000,
        forall|i: int|
            0 <= i < members.len() ==> (#[trigger] members[i]).mtime < 1000000000000
                && members[i].perms < 16777216,
        forall|i: int|
            0 <= i < members.len() ==> (#[trigger] members[i]).member_name.len()
                + members[i].buf.len() + 32 < 10000000000,
        spec_compute_fold(members, kind, thin, need_symbols, unique_ts, n) is Ok,
    ensures
        ({
            let st = spec_compute_fold(members, kind, thin, need_symbols, unique_ts, n)->Ok_0;
            &&& st.members.len() == n
            &&& st.pos >= 0
            &&& st.pos % 2 == 0
            &&& (spec_is_darwin(kind) ==> st.pos % 8 == 0)
            &&& st.strtab.len() <= crate::member::spec_footprint(members.take(n))
            &&& (forall|k: int|
                0 <= k < st.names.len() ==> (#[trigger] st.names[k]).1 <= st.strtab.len())
            &&& (forall|i: int|
                0 <= i < n ==> (#[trigger] st.members[i]).record_len() % 2 == 0)
            &&& (spec_is_darwin(kind) ==> forall|i: int|
                0 <= i < n ==> ((#[trigger] st.members[i]).data.len()
                    + st.members[i].padding.len()) % 8 == 0)
        }),
    decreases n,
{
    crate::member::lemma_footprint_nonneg(members);
    if n == 0 {
        assert(members.take(0) =~= Seq::<MemberView>::empty());
    } else {
        lemma_fold_aligned(members, kind, thin, need_symbols, unique_ts, n - 1);
        let prev = spec_compute_fold(members, kind, thin, need_symbols, unique_ts, n - 1)->Ok_0;
        let st = spec_compute_fold(members, kind, thin, need_symbols, unique_ts, n)->Ok_0;
        let m = members[n - 1];
        // Footprint bookkeeping for the string-table bound.
        crate::member::lemma_footprint_split(members, n);
        crate::member::lemma_footprint_nonneg(members.skip(n));
        crate::member::lemma_footprint_split(members.take(n), n - 1);
        assert(members.take(n).take(n - 1) =~= members.take(n - 1));
        assert(members.take(n).skip(n - 1) =~= seq![m]);
        assert(seq![m].drop_first() =~= Seq::<MemberView>::empty());
        assert(seq![m][0] == m);
        assert(crate::member::spec_footprint(Seq::<MemberView>::empty()) == 0);
        assert(crate::member::spec_footprint(seq![m]) == 128 + m.member_name.len() + m.buf.len());
        assert(crate::member::spec_footprint(members.take(n)) == crate::member::spec_footprint(
            members.take(n - 1),
        ) + 128 + m.member_name.len() + m.buf.len());
        crate::member::lemma_footprint_nonneg(members.take(n - 1));
        assert(128 * members.len() <= crate::member::spec_footprint(members));
        lemma_step_aligned(members, kind, thin, need_symbols, unique_ts, n - 1, prev);
        assert forall|i: int| 0 <= i < n implies (#[trigger] st.members[i]).record_len() % 2
            == 0 by {
            if i < n - 1 {
                assert(st.members[i] == prev.members[i]);
            } else {
                assert(st.members[i] == st.members.last());
            }
        }
        if spec_is_darwin(kind) {
            assert forall|i: int| 0 <= i < n implies ((#[trigger] st.members[i]).data.len()
                + st.members[i].padding.len()) % 8 == 0 by {
                if i < n - 1 {
                    assert(st.members[i] == prev.members[i]);
                } else {
                    assert(st.members[i] == st.members.last());
                }
            }
        }
    }
}

/// Every record of the computed layout is an even number of bytes, and
/// under a Darwin kind each payload together with its padding fills a
/// multiple of eight bytes. Holds while every numeric header field stays
/// inside its fixed width (a modification time of `10^12` seconds, or
/// permission bits past the eight octal digits, would stretch a header by
/// an odd amount).
pub proof fn lemma_member_records_aligned(
    members: Seq<MemberView>,
    kind: ArchiveKind,
    thin: bool,
    deterministic: bool,
    need_symbols: bool,
)
    requires
        spec_writable(kind),
        crate::member::spec_footprint(members) <= 100000000000000,
        forall|i: int|
            0 <= i < members.len() ==> (#[trigger] members[i]).mtime < 1000000000000
                && members[i].perms < 16777216,
        forall|i: int|
            0 <= i < members.len() ==> (#[trigger] members[i]).member_name.len()
                + members[i].buf.len() + 32 < 10000000000,
        spec_compute_member_data(members, kind, thin, deterministic, need_symbols) is Ok,
    ensures
        ({
            let st = spec_compute_member_data(members, kind, thin, deterministic, need_symbols)->Ok_0;
            &&& (forall|i: int|
                0 <= i < st.members.len() ==> (#[trigger] st.members[i]).record_len() % 2 == 0)
            &&& (spec_is_darwin(kind) ==> forall|i: int|
                0 <= i < st.members.len() ==> ((#[trigger] st.members[i]).data.len()
                    + st.members[i].padding.len()) % 8 == 0)
        }),
{
    lemma_fold_aligned(
        members,
        kind,
        thin,
        need_symbols,
        spec_unique_timestamps(kind, deterministic),
        members.len() as int,
    );
}

/// Two members sharing one routed name in a non-thin GNU archive share one
/// string-table record: the table holds each routed name exactly once (it
/// is the concatenation of its distinct entries' records), and both
/// headers cite the same offset.
pub proof fn lemma_string_table_dedup(
    members: Seq<MemberView>,
    kind: ArchiveKind,
    deterministic: bool,
    need_symbols: bool,
    i: int,
    j: int,
)
    requires
        spec_writable(kind),
        !spec_is_bsd_like(kind),
        crate::member::spec_footprint(members) <= 0x1000000000000000,
        spec_compute_member_data(members, kind, false, deterministic, need_symbols) is Ok,
        0 <= i < j < members.len(),
        members[i].member_name == members[j].member_name,
        spec_use_string_table(false, members[i].member_name),
    ensures
        ({
            let st = spec_compute_member_data(
                members,
                kind,
                false,
                deterministic,
                need_symbols,
            )->Ok_0;
            &&& st.strtab == spec_names_concat(st.names)
            &&& (forall|k1: int, k2: int|
                0 <= k1 < k2 < st.names.len() ==> (#[trigger] st.names[k1]).0 != (
                #[trigger] st.names[k2]).0)
            &&& (exists|off: u64|
                st.members[i].header == #[trigger] spec_gnu_long_header(
                    off as int,
                    members[i].mtime as int,
                    members[i].uid as int,
                    members[i].gid as int,
                    members[i].perms as int,
                    members[i].buf.len() as int,
                ) && st.members[j].header == spec_gnu_long_header(
                    off as int,
                    members[j].mtime as int,
                    members[j].uid as int,
                    members[j].gid as int,
                    members[j].perms as int,
                    members[j].buf.len() as int,
                ))
        }),
{
    assert(spec_unique_timestamps(kind, deterministic) == false);
    lemma_fold_gnu_strtab(members, kind, need_symbols, members.len() as int);
    let fr = spec_compute_fold(
        members,
        kind,
        false,
        need_symbols,
        false,
        members.len() as int,
    )->Ok_0;
    let st = spec_compute_member_data(members, kind, false, deterministic, need_symbols)->Ok_0;
    assert(st.names == fr.names && st.strtab == fr.strtab && st.members == fr.members);
    let off = assoc_find(st.names, members[i].member_name)->Some_0;
    assert(st.members[i].header == spec_gnu_long_header(
        off as int,
        members[i].mtime as int,
        members[i].uid as int,
        members[i].gid as int,
        members[i].perms as int,
        members[i].buf.len() as int,
    ));
    assert(st.members[j].header == spec_gnu_long_header(
        off as int,
        members[j].mtime as int,
        members[j].uid as int,
        members[j].gid as int,
        members[j].perms as int,
        members[j].buf.len() as int,
    ));
}


/// In a non-thin GNU archive whose names all fit the inline field, every
/// record carries a sixty-byte small header and the member's own payload.
proof fn lemma_fold_gnu_short(
    members: Seq<MemberView>,
    kind: ArchiveKind,
    need_symbols: bool,
    unique_ts: bool,
    n: int,
)
    requires
        spec_writable(kind),
        !spec_is_bsd_like(kind),
        unique_ts == false,
        0 <= n <= members.len(),
        forall|j: int|
            0 <= j < members.len() ==> !spec_use_string_table(
                false,
                (#[trigger] members[j]).member_name,
            ),
        spec_compute_fold(members, kind, false, need_symbols, unique_ts, n) is Ok,
    ensures
        ({
            let st = spec_compute_fold(members, kind, false, need_symbols, unique_ts, n)->Ok_0;
            &&& st.members.len() == n
            &&& (forall|i: int|
                0 <= i < n ==> (#[trigger] st.members[i]).header
                    == crate::header::spec_gnu_small_header(
                    members[i].member_name,
                    members[i].mtime as int,
                    members[i].uid as int,
                    members[i].gid as int,
                    members[i].perms as int,
                    members[i].buf.len() as int,
                ) && st.members[i].data == members[i].buf)
        }),
    decreases n,
{
    if n > 0 {
        lemma_fold_gnu_short(members, kind, need_symbols, unique_ts, n - 1);
        let prev = spec_compute_fold(members, kind, false, need_symbols, unique_ts, n - 1)->Ok_0;
        let st = spec_compute_fold(members, kind, false, need_symbols, unique_ts, n)->Ok_0;
        let m = members[n - 1];
        assert(crate::memberdata::spec_member_mtime(
            false,
            crate::member::member_name_seq(members),
            n - 1,
            m.mtime,
        ) == m.mtime);
        assert(crate::memberdata::spec_member_pad(
            kind,
            crate::memberdata::spec_member_emitted_data(false, m.buf).len() as int,
        ) == 0);
        assert(st.members == prev.members.push(st.members.last()));
        assert forall|i: int| 0 <= i < n implies (#[trigger] st.members[i]).header
            == crate::header::spec_gnu_small_header(
            members[i].member_name,
            members[i].mtime as int,
            members[i].uid as int,
            members[i].gid as int,
            members[i].perms as int,
            members[i].buf.len() as int,
        ) && st.members[i].data == members[i].buf by {
            if i < n - 1 {
                assert(st.members[i] == prev.members[i]);
            } else {
                assert(st.members[i] == st.members.last());
            }
        }
    }
}

/// Reading a produced non-thin GNU archive's headers back reproduces the
/// ordered (name, size) sequence, shown here for names that fit the
/// sixteen-character inline field: each record's header is sixty bytes;
/// the bytes of its name field before the slash are exactly the member's
/// name, and the digits of its size field are exactly the payload length,
/// while every numeric field stays inside its fixed width.
pub proof fn lemma_headers_read_back(
    members: Seq<MemberView>,
    kind: ArchiveKind,
    deterministic: bool,
    need_symbols: bool,
    i: int,
)
    requires
        spec_writable(kind),
        !spec_is_bsd_like(kind),
        forall|j: int|
            0 <= j < members.len() ==> !spec_use_string_table(
                false,
                (#[trigger] members[j]).member_name,
            ),
        forall|j: int|
            0 <= j < members.len() ==> (#[trigger] members[j]).mtime < 1000000000000 && members[j].perms
                < 16777216 && members[j].buf.len() < 10000000000,
        spec_compute_member_data(members, kind, false, deterministic, need_symbols) is Ok,
        0 <= i < members.len(),
    ensures
        ({
            let st = spec_compute_member_data(members, kind, false, deterministic, need_symbols)->Ok_0;
            &&& st.members[i].header.len() == 60
            &&& spec_field_name(st.members[i].header) == members[i].member_name
            &&& spec_dec_value(spec_field_digits(st.members[i].header.skip(48)))
                == members[i].buf.len()
            &&& st.members[i].data == members[i].buf
        }),
{
    assert(spec_unique_timestamps(kind, deterministic) == false);
    lemma_fold_gnu_short(
        members,
        kind,
        need_symbols,
        spec_unique_timestamps(kind, deterministic),
        members.len() as int,
    );
    let st = spec_compute_member_data(members, kind, false, deterministic, need_symbols)->Ok_0;
    let m = members[i];
    let name = m.member_name;
    let size = m.buf.len() as int;
    let h = st.members[i].header;
    let rest = crate::header::spec_rest_of_header(
        m.mtime as int,
        m.uid as int,
        m.gid as int,
        m.perms as int,
        size,
    );
    crate::header::lemma_rest_of_header_len(
        m.mtime as int,
        m.uid as int,
        m.gid as int,
        m.perms as int,
        size,
    );
    // The name field: everything before the slash is the name itself.
    let name_field = crate::bytefmt::spec_pad_right(name.push(47u8), 32u8, 16);
    assert(h == name_field + rest);
    let after_name = name_field.skip(name.len() as int);
    assert(after_name.len() > 0 && after_name[0] == 47);
    assert(name_field + rest =~= name + (after_name + rest));
    assert((after_name + rest)[0] == 47);
    lemma_field_name_concat(name, after_name + rest);
    // The size field: digits at offset 48, closed by padding or the
    // sentinel, reparse to the payload length.
    assert(crate::bytefmt::pow10(12) == 1000000000000) by {
        reveal_with_fuel(crate::bytefmt::pow10, 13);
    }
    assert(crate::bytefmt::pow10(6) == 1000000) by {
        reveal_with_fuel(crate::bytefmt::pow10, 7);
    }
    assert(crate::bytefmt::pow8(8) == 16777216) by {
        reveal_with_fuel(crate::bytefmt::pow8, 9);
    }
    assert(crate::bytefmt::pow10(10) == 10000000000) by {
        reveal_with_fuel(crate::bytefmt::pow10, 11);
    }
    crate::bytefmt::lemma_dec_len(m.mtime as int, 12);
    crate::bytefmt::lemma_dec_len(m.uid as int % 1000000, 6);
    crate::bytefmt::lemma_dec_len(m.gid as int % 1000000, 6);
    crate::bytefmt::lemma_oct_len(m.perms as int, 8);
    crate::bytefmt::lemma_dec_len(size, 10);
    let size_digits = crate::bytefmt::spec_dec(size);
    let size_field = crate::bytefmt::spec_dec_field(size, 10);
    assert(h.skip(48) =~= size_field + seq![96u8, 10u8]);
    let rest_after = size_field.skip(size_digits.len() as int) + seq![96u8, 10u8];
    assert(size_field + seq![96u8, 10u8] =~= size_digits + rest_after);
    lemma_dec_digits_are_digits(size);
    assert(rest_after[0] == 32u8 || rest_after[0] == 96u8);
    lemma_field_digits_concat(size_digits, rest_after);
    lemma_dec_value_inverse(size);
}

} // verus!
