//! The per-member computation pass: headers, payload framing, padding,
//! symbol collection, string-table accumulation and the Darwin duplicate
//! timestamps, folded over the member list in caller order.
use vstd::prelude::*;

use crate::align::{offset_to_alignment, spec_align_pad};
use crate::bytefmt::{push_fill, spec_fill};
use crate::errors::{ArchiveError, spec_is_member_too_big};
use crate::header::{print_member_header, spec_member_header_step};
use crate::kind::{ArchiveKind, MAX_MEMBER_SIZE, is_darwin, spec_is_darwin, spec_writable};
use crate::member::{
    MemberData, MemberDataView, MemberView, NewArchiveMember, copy_bytes, lemma_footprint_nonneg,
    lemma_footprint_split, member_name_seq, member_views, spec_footprint, views_of,
};
use crate::objsyms::{
    get_symbols, lemma_sym_blob_len, lemma_sym_offsets_bounds, lemma_sym_offsets_len,
    parsed_object_symbols, spec_qualifying_names, spec_sym_blob, spec_sym_offsets,
};
use crate::strtab::NameMap;
use crate::symtab::{spec_sum_record_lens, spec_total_syms};

verus! {

/// How often `name` occurs in a name list.
pub open spec fn spec_count_name(names: Seq<Seq<u8>>, name: Seq<u8>) -> int
    decreases names.len(),
{
    if names.len() == 0 {
        0
    } else {
        spec_count_name(names.drop_last(), name) + if names.last() == name {
            1int
        } else {
            0int
        }
    }
}

pub proof fn lemma_count_name_range(names: Seq<Seq<u8>>, name: Seq<u8>)
    ensures
        0 <= spec_count_name(names, name) <= names.len(),
    decreases names.len(),
{
    if names.len() > 0 {
        lemma_count_name_range(names.drop_last(), name);
    }
}

/// Timestamp recorded for member `i`. In deterministic Darwin mode a name
/// that occurs more than once gets its occurrence index (first occurrence
/// zero) in place of its real time, so debugging tools can tell same-named
/// members apart; all other members keep their own timestamp.
pub open spec fn spec_member_mtime(unique_ts: bool, names: Seq<Seq<u8>>, i: int, mtime: u64) -> u64
    recommends
        0 <= i < names.len(),
{
    if unique_ts && spec_count_name(names, names[i]) > 1 {
        spec_count_name(names.take(i), names[i]) as u64
    } else {
        mtime
    }
}

/// Occurrences of `name` among the first `k` member names.
fn count_name_upto(members: &Vec<NewArchiveMember>, name: &Vec<u8>, k: usize) -> (r: u64)
    requires
        k <= members@.len(),
        members@.len() < u64::MAX,
    ensures
        r == spec_count_name(member_name_seq(member_views(members@)).take(k as int), name@),
{
    let ghost names = member_name_seq(member_views(members@));
    let mut count: u64 = 0;
    let mut i: usize = 0;
    proof {
        assert(names.take(0) =~= Seq::<Seq<u8>>::empty());
    }
    while i < k
        invariant
            k <= members@.len(),
            members@.len() < u64::MAX,
            i <= k,
            names == member_name_seq(member_views(members@)),
            count == spec_count_name(names.take(i as int), name@),
            count <= i,
        decreases k - i,
    {
        proof {
            lemma_count_name_range(names.take(i as int), name@);
            assert(names.take(i + 1).drop_last() =~= names.take(i as int));
            assert(names.take(i + 1).last() == names[i as int]);
            assert(names[i as int] == members@[i as int]@.member_name);
        }
        if crate::strtab::bytes_eq(&members[i].member_name, name) {
            count = count + 1;
        }
        i += 1;
    }
    count
}

/// Payload bytes as emitted: nothing in thin mode.
pub open spec fn spec_member_emitted_data(thin: bool, buf: Seq<u8>) -> Seq<u8> {
    if thin {
        Seq::empty()
    } else {
        buf
    }
}

/// Internal padding after the payload: Darwin aligns payloads to eight
/// bytes for the benefit of its linker; other kinds add none.
pub open spec fn spec_member_pad(kind: ArchiveKind, data_len: int) -> int {
    if spec_is_darwin(kind) {
        spec_align_pad(data_len, 8)
    } else {
        0
    }
}

/// Trailing padding bringing the record to an even length.
pub open spec fn spec_tail_pad(kind: ArchiveKind, data_len: int) -> int {
    spec_align_pad(data_len + spec_member_pad(kind, data_len), 2)
}

/// State the per-member pass threads from member to member.
#[verifier::ext_equal]
pub struct ComputeState {
    /// String-table bytes accumulated so far.
    pub strtab: Seq<u8>,
    /// Name-to-offset entries of the string table, in insertion order.
    pub names: Seq<(Seq<u8>, u64)>,
    /// Symbol name buffer accumulated so far.
    pub sym_names: Seq<u8>,
    /// Whether any payload parsed as an object file.
    pub has_object: bool,
    /// Bytes of member records laid out so far.
    pub pos: int,
    /// The records computed so far.
    pub members: Seq<MemberDataView>,
}

pub open spec fn spec_initial_state() -> ComputeState {
    ComputeState {
        strtab: Seq::empty(),
        names: Seq::empty(),
        sym_names: Seq::empty(),
        has_object: false,
        pos: 0,
        members: Seq::empty(),
    }
}

/// What symbol collection does to the shared state for one payload.
pub open spec fn spec_symbols_outcome(
    need_symbols: bool,
    data: Seq<u8>,
    sym_names: Seq<u8>,
    has_object: bool,
) -> (Seq<u64>, Seq<u8>, bool) {
    if need_symbols {
        match parsed_object_symbols(data) {
            Some(s) => {
                let q = spec_qualifying_names(s);
                (spec_sym_offsets(q, sym_names.len() as int), sym_names + spec_sym_blob(q), true)
            },
            None => (Seq::empty(), sym_names, has_object),
        }
    } else {
        (Seq::empty(), sym_names, has_object)
    }
}

/// One member's step of the pass: frame the payload, refuse an oversized
/// member, serialize the header (possibly growing the string table), and
/// collect symbols.
pub open spec fn spec_compute_step(
    members: Seq<MemberView>,
    kind: ArchiveKind,
    thin: bool,
    need_symbols: bool,
    unique_ts: bool,
    i: int,
    st: ComputeState,
) -> Result<ComputeState, int>
    recommends
        0 <= i < members.len(),
{
    let m = members[i];
    let data = spec_member_emitted_data(thin, m.buf);
    let mpad = spec_member_pad(kind, data.len() as int);
    let tail = spec_tail_pad(kind, data.len() as int);
    let size = data.len() + mpad;
    if size > MAX_MEMBER_SIZE {
        Err(i)
    } else {
        let mtime = spec_member_mtime(unique_ts, member_name_seq(members), i, m.mtime);
        let hs = spec_member_header_step(
            kind,
            thin,
            st.pos,
            st.strtab,
            st.names,
            m.member_name,
            mtime as int,
            m.uid as int,
            m.gid as int,
            m.perms as int,
            size as int,
        );
        let so = spec_symbols_outcome(need_symbols, data, st.sym_names, st.has_object);
        let md = MemberDataView {
            symbols: so.0,
            header: hs.header,
            data,
            padding: spec_fill(10u8, mpad + tail),
        };
        Ok(
            ComputeState {
                strtab: hs.strtab,
                names: hs.names,
                sym_names: so.1,
                has_object: so.2,
                pos: st.pos + md.record_len(),
                members: st.members.push(md),
            },
        )
    }
}

/// The pass over the first `n` members, stopping at the first oversized
/// one.
pub open spec fn spec_compute_fold(
    members: Seq<MemberView>,
    kind: ArchiveKind,
    thin: bool,
    need_symbols: bool,
    unique_ts: bool,
    n: int,
) -> Result<ComputeState, int>
    decreases n,
{
    if n <= 0 {
        Ok(spec_initial_state())
    } else {
        match spec_compute_fold(members, kind, thin, need_symbols, unique_ts, n - 1) {
            Err(e) => Err(e),
            Ok(st) => spec_compute_step(members, kind, thin, need_symbols, unique_ts, n - 1, st),
        }
    }
}

/// A failure of the pass persists to every longer prefix.
pub proof fn lemma_fold_err_propagates(
    members: Seq<MemberView>,
    kind: ArchiveKind,
    thin: bool,
    need_symbols: bool,
    unique_ts: bool,
    j: int,
    n: int,
)
    requires
        0 <= j <= n,
        spec_compute_fold(members, kind, thin, need_symbols, unique_ts, j) is Err,
    ensures
        spec_compute_fold(members, kind, thin, need_symbols, unique_ts, n) == spec_compute_fold(
            members,
            kind,
            thin,
            need_symbols,
            unique_ts,
            j,
        ),
    decreases n - j,
{
    if n > j {
        lemma_fold_err_propagates(members, kind, thin, need_symbols, unique_ts, j, n - 1);
    }
}

/// Darwin archives built deterministically disambiguate duplicated names
/// by synthetic timestamps.
pub open spec fn spec_unique_timestamps(kind: ArchiveKind, deterministic: bool) -> bool {
    deterministic && spec_is_darwin(kind)
}

/// An archive that held at least one object but yielded no symbol still
/// gets a tiny non-empty name buffer, so an (empty) symbol table is
/// emitted for tools that expect one.
pub open spec fn spec_solaris_fix(st: ComputeState) -> ComputeState {
    if st.has_object && st.sym_names.len() == 0 {
        ComputeState { sym_names: seq![0u8, 0u8, 0u8], ..st }
    } else {
        st
    }
}

/// The whole per-member pass: the fold over every member, then the
/// empty-symbol-table adjustment.
pub open spec fn spec_compute_member_data(
    members: Seq<MemberView>,
    kind: ArchiveKind,
    thin: bool,
    deterministic: bool,
    need_symbols: bool,
) -> Result<ComputeState, int> {
    match spec_compute_fold(
        members,
        kind,
        thin,
        need_symbols,
        spec_unique_timestamps(kind, deterministic),
        members.len() as int,
    ) {
        Ok(st) => Ok(spec_solaris_fix(st)),
        Err(i) => Err(i),
    }
}


/// Lay out one member: frame its payload, refuse it when oversized,
/// serialize its header (possibly growing the string table) and collect
/// its symbols. `prev` carries the records already computed, so the
/// contract can speak of the exact pass state.
#[verifier::rlimit(100)]
fn process_one_member(
    string_table: &mut Vec<u8>,
    sym_names: &mut Vec<u8>,
    member_names: &mut NameMap,
    has_object: &mut bool,
    kind: ArchiveKind,
    thin: bool,
    need_symbols: bool,
    unique_timestamps: bool,
    new_members: &Vec<NewArchiveMember>,
    i: usize,
    pos: u64,
    Ghost(prev): Ghost<Seq<MemberDataView>>,
) -> (r: Result<MemberData, ArchiveError>)
    requires
        spec_writable(kind),
        i < new_members@.len(),
        spec_footprint(member_views(new_members@)) <= 0x1000000000000000,
        pos <= 0x2000000000000000,
        old(string_table)@.len() <= 0x2000000000000000,
    ensures
        ({
            let st0 = ComputeState {
                strtab: old(string_table)@,
                names: old(member_names)@,
                sym_names: old(sym_names)@,
                has_object: *old(has_object),
                pos: pos as int,
                members: prev,
            };
            let mv = member_views(new_members@)[i as int];
            match spec_compute_step(
                member_views(new_members@),
                kind,
                thin,
                need_symbols,
                unique_timestamps,
                i as int,
                st0,
            ) {
                Ok(stn) => r matches Ok(md) && md@.record_len() <= 128 + mv.member_name.len()
                    + mv.buf.len() && final(string_table)@.len() <= old(string_table)@.len()
                    + mv.member_name.len() + 2 && old(sym_names)@.len() <= final(sym_names)@.len()
                    && md@.symbols.len() <= final(sym_names)@.len() - old(sym_names)@.len() && (
                forall|b: int|
                    0 <= b < md@.symbols.len() ==> #[trigger] md@.symbols[b]
                        <= final(sym_names)@.len()) && stn == ComputeState {
                    strtab: final(string_table)@,
                    names: final(member_names)@,
                    sym_names: final(sym_names)@,
                    has_object: *final(has_object),
                    pos: pos + md@.record_len(),
                    members: prev.push(md@),
                },
                Err(idx) => idx == i as int && (r matches Err(e) && spec_is_member_too_big(
                    e,
                    mv.member_name,
                )),
            }
        }),
{
    let ghost mviews = member_views(new_members@);
    let ghost names_seq = member_name_seq(mviews);
    let ghost m = mviews[i as int];
    let ghost st0 = ComputeState {
        strtab: string_table@,
        names: member_names@,
        sym_names: sym_names@,
        has_object: *has_object,
        pos: pos as int,
        members: prev,
    };
    proof {
        assert(mviews[i as int] == new_members@[i as int]@);
        lemma_footprint_nonneg(mviews);
        lemma_footprint_split(mviews, i as int);
        lemma_footprint_nonneg(mviews.take(i as int));
        lemma_footprint_nonneg(mviews.skip(i as int));
        assert(mviews.skip(i as int)[0] == mviews[i as int]);
        assert(mviews.skip(i as int).drop_first() =~= mviews.skip(i as int + 1));
        lemma_footprint_nonneg(mviews.skip(i as int + 1));
        assert(m.member_name.len() + m.buf.len() + 128 <= spec_footprint(mviews.skip(i as int)));
    }
    // Timestamp: synthetic under deterministic Darwin when the name is
    // duplicated, the member's own otherwise.
    let mtime: u64;
    if unique_timestamps {
        let total = count_name_upto(new_members, &new_members[i].member_name, new_members.len());
        proof {
            assert(names_seq.take(new_members@.len() as int) =~= names_seq);
            assert(names_seq[i as int] == m.member_name);
        }
        if total > 1 {
            mtime = count_name_upto(new_members, &new_members[i].member_name, i);
        } else {
            mtime = new_members[i].mtime;
        }
    } else {
        mtime = new_members[i].mtime;
    }
    assert(mtime == spec_member_mtime(unique_timestamps, names_seq, i as int, m.mtime));
    let data: Vec<u8> = if thin {
        Vec::new()
    } else {
        copy_bytes(&new_members[i].buf)
    };
    proof {
        assert(data@ =~= spec_member_emitted_data(thin, m.buf));
    }
    let data_len: u64 = data.len() as u64;
    let member_padding: u64 = if is_darwin(kind) {
        offset_to_alignment(data_len, 8)
    } else {
        0
    };
    let tail_padding: u64 = offset_to_alignment(data_len + member_padding, 2);
    let mut padding: Vec<u8> = Vec::new();
    push_fill(&mut padding, 10u8, (member_padding + tail_padding) as usize);
    proof {
        assert(padding@ =~= spec_fill(
            10u8,
            spec_member_pad(kind, data@.len() as int) + spec_tail_pad(kind, data@.len() as int),
        ));
    }
    let size: u64 = data_len + member_padding;
    if size > MAX_MEMBER_SIZE {
        return Err(
            ArchiveError::MemberTooBig { name: copy_bytes(&new_members[i].member_name) },
        );
    }
    let mut header: Vec<u8> = Vec::new();
    print_member_header(
        &mut header,
        pos,
        string_table,
        member_names,
        kind,
        thin,
        &new_members[i],
        mtime,
        size,
    );
    let ghost hs = spec_member_header_step(
        kind,
        thin,
        st0.pos,
        st0.strtab,
        st0.names,
        m.member_name,
        mtime as int,
        m.uid as int,
        m.gid as int,
        m.perms as int,
        size as int,
    );
    proof {
        assert(header@ =~= hs.header);
        crate::header::lemma_member_header_step_len(
            kind,
            thin,
            st0.pos,
            st0.strtab,
            st0.names,
            m.member_name,
            mtime as int,
            m.uid as int,
            m.gid as int,
            m.perms as int,
            size as int,
        );
    }
    let ghost sym_base = sym_names@.len() as int;
    let symbols: Vec<u64> = if need_symbols {
        get_symbols(data.as_slice(), sym_names, has_object)
    } else {
        Vec::new()
    };
    let ghost so = spec_symbols_outcome(need_symbols, data@, st0.sym_names, st0.has_object);
    let sym_len_now = sym_names.len();
    proof {
        if need_symbols {
            match parsed_object_symbols(data@) {
                Some(s) => {
                    let q = spec_qualifying_names(s);
                    lemma_sym_offsets_len(q, sym_base);
                    lemma_sym_blob_len(q);
                    assert(sym_base + spec_sym_blob(q).len() == sym_len_now as int);
                    lemma_sym_offsets_bounds(q, sym_base);
                },
                None => {},
            }
        }
        assert(symbols@ == so.0 && sym_names@ == so.1 && *has_object == so.2);
    }
    let ghost md = MemberDataView {
        symbols: symbols@,
        header: header@,
        data: data@,
        padding: padding@,
    };
    let r = MemberData { symbols, header, data, padding };
    proof {
        assert(r@ =~= md);
        let stepped = spec_compute_step(mviews, kind, thin, need_symbols, unique_timestamps, i as int, st0);
        assert(stepped is Ok);
        assert(stepped->Ok_0 =~= ComputeState {
            strtab: string_table@,
            names: member_names@,
            sym_names: sym_names@,
            has_object: *has_object,
            pos: pos + md.record_len(),
            members: prev.push(md),
        });
    }
    Ok(r)
}

/// Run the per-member pass over the whole member list. The string table
/// and symbol-name buffers start empty and leave holding what the emitted
/// archive needs; the returned records are in caller order.
#[verifier::rlimit(100)]
pub fn compute_member_data(
    string_table: &mut Vec<u8>,
    sym_names: &mut Vec<u8>,
    kind: ArchiveKind,
    thin: bool,
    deterministic: bool,
    need_symbols: bool,
    new_members: &Vec<NewArchiveMember>,
) -> (r: Result<Vec<MemberData>, ArchiveError>)
    requires
        spec_writable(kind),
        old(string_table)@.len() == 0,
        old(sym_names)@.len() == 0,
        spec_footprint(member_views(new_members@)) <= 0x1000000000000000,
    ensures
        match spec_compute_member_data(
            member_views(new_members@),
            kind,
            thin,
            deterministic,
            need_symbols,
        ) {
            Ok(st) => r matches Ok(data) && views_of(data@) == st.members && final(string_table)@
                == st.strtab && final(sym_names)@ == st.sym_names && spec_sum_record_lens(
                st.members,
            ) <= spec_footprint(member_views(new_members@)) && st.strtab.len() <= spec_footprint(
                member_views(new_members@),
            ) && spec_total_syms(st.members) <= st.sym_names.len() && (forall|a: int, b: int|
                0 <= a < st.members.len() && 0 <= b < st.members[a].symbols.len()
                    ==> #[trigger] st.members[a].symbols[b] <= st.sym_names.len()),
            Err(i) => (r matches Err(e) && spec_is_member_too_big(
                e,
                member_views(new_members@)[i].member_name,
            )),
        },
{
    let ghost mviews = member_views(new_members@);
    let ghost unique = spec_unique_timestamps(kind, deterministic);
    let unique_timestamps = deterministic && is_darwin(kind);
    let n = new_members.len();
    let mut member_names = NameMap::new();
    let mut ret: Vec<MemberData> = Vec::new();
    let mut has_object = false;
    let mut pos: u64 = 0;
    proof {
        lemma_footprint_nonneg(mviews);
        assert(string_table@ =~= Seq::<u8>::empty());
        assert(sym_names@ =~= Seq::<u8>::empty());
        assert(views_of(ret@) =~= Seq::<MemberDataView>::empty());
        assert(mviews.take(0) =~= Seq::<MemberView>::empty());
        assert(ComputeState {
            strtab: string_table@,
            names: member_names@,
            sym_names: sym_names@,
            has_object: has_object,
            pos: pos as int,
            members: views_of(ret@),
        } =~= spec_initial_state());
    }
    let mut i: usize = 0;
    while i < n
        invariant
            n == new_members@.len(),
            mviews == member_views(new_members@),
            unique == spec_unique_timestamps(kind, deterministic),
            unique_timestamps == unique,
            spec_writable(kind),
            spec_footprint(mviews) <= 0x1000000000000000,
            i <= n,
            spec_compute_fold(mviews, kind, thin, need_symbols, unique, i as int) == Ok::<
                ComputeState,
                int,
            >(
                ComputeState {
                    strtab: string_table@,
                    names: member_names@,
                    sym_names: sym_names@,
                    has_object: has_object,
                    pos: pos as int,
                    members: views_of(ret@),
                },
            ),
            pos == spec_sum_record_lens(views_of(ret@)),
            pos <= spec_footprint(mviews.take(i as int)),
            string_table@.len() <= spec_footprint(mviews.take(i as int)),
            spec_footprint(mviews.take(i as int)) <= spec_footprint(mviews),
            spec_total_syms(views_of(ret@)) <= sym_names@.len(),
            forall|a: int, b: int|
                0 <= a < views_of(ret@).len() && 0 <= b < views_of(ret@)[a].symbols.len()
                    ==> #[trigger] views_of(ret@)[a].symbols[b] <= sym_names@.len(),
        decreases n - i,
    {
        let ghost st_i = ComputeState {
            strtab: string_table@,
            names: member_names@,
            sym_names: sym_names@,
            has_object: has_object,
            pos: pos as int,
            members: views_of(ret@),
        };
        proof {
            lemma_footprint_split(mviews, i as int);
            lemma_footprint_split(mviews, i as int + 1);
            lemma_footprint_nonneg(mviews.skip(i as int + 1));
            assert(mviews.skip(i as int).drop_first() =~= mviews.skip(i as int + 1));
            assert(mviews.skip(i as int)[0] == mviews[i as int]);
            assert(spec_footprint(mviews.take(i as int + 1)) == spec_footprint(
                mviews.take(i as int),
            ) + 128 + mviews[i as int].member_name.len() + mviews[i as int].buf.len());
        }
        let step = process_one_member(
            string_table,
            sym_names,
            &mut member_names,
            &mut has_object,
            kind,
            thin,
            need_symbols,
            unique_timestamps,
            new_members,
            i,
            pos,
            Ghost(views_of(ret@)),
        );
        match step {
            Ok(md) => {
                proof {
                    crate::symtab::lemma_sum_record_lens_push(st_i.members, md@);
                    crate::symtab::lemma_total_syms_push(st_i.members, md@);
                }
                let len = md.byte_len();
                pos = pos + len;
                ret.push(md);
                proof {
                    assert(views_of(ret@) =~= st_i.members.push(ret@.last()@));
                }
            },
            Err(e) => {
                proof {
                    lemma_fold_err_propagates(
                        mviews,
                        kind,
                        thin,
                        need_symbols,
                        unique,
                        i as int + 1,
                        n as int,
                    );
                }
                return Err(e);
            },
        }
        i += 1;
    }
    let ghost st_end = ComputeState {
        strtab: string_table@,
        names: member_names@,
        sym_names: sym_names@,
        has_object: has_object,
        pos: pos as int,
        members: views_of(ret@),
    };
    proof {
        assert(mviews.take(n as int) =~= mviews);
        assert(spec_compute_fold(mviews, kind, thin, need_symbols, unique, mviews.len() as int)
            == Ok::<ComputeState, int>(st_end));
    }
    if has_object && sym_names.len() == 0 {
        sym_names.push(0u8);
        sym_names.push(0u8);
        sym_names.push(0u8);
        assert(sym_names@ =~= seq![0u8, 0u8, 0u8]);
    }
    proof {
        let st = spec_solaris_fix(st_end);
        assert(st.members == st_end.members && st.strtab == st_end.strtab);
        assert(sym_names@ == st.sym_names);
        assert(st_end.sym_names.len() <= st.sym_names.len());
    }
    Ok(ret)
}

} // verus!
