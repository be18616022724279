//! Member header serialization for the GNU and BSD families.
use vstd::prelude::*;

use crate::align::{offset_to_alignment, spec_align_pad};
use crate::bytefmt::{
    push_bytes, push_dec_field, push_fill, push_oct_field, spec_dec_field, spec_oct_field,
    spec_pad_right,
};
use crate::kind::{
    ArchiveKind, is_bsd_like, spec_is_bsd_like, spec_use_string_table, spec_writable,
    use_string_table,
};
use crate::member::NewArchiveMember;
use crate::strtab::{NameMap, assoc_find};

verus! {

/// The trailing field block every header ends with: modification time, the
/// owner ids truncated to the six-character fields, octal permissions, the
/// size field, and the backtick-newline sentinel.
pub open spec fn spec_rest_of_header(mtime: int, uid: int, gid: int, perms: int, size: int) -> Seq<
    u8,
> {
    spec_dec_field(mtime, 12) + spec_dec_field(uid % 1000000, 6) + spec_dec_field(gid % 1000000, 6)
        + spec_oct_field(perms, 8) + spec_dec_field(size, 10) + seq![96u8, 10u8]
}

/// Append the trailing field block shared by all header families.
pub fn print_rest_of_member_header(
    out: &mut Vec<u8>,
    mtime: u64,
    uid: u32,
    gid: u32,
    perms: u32,
    size: u64,
)
    ensures
        final(out)@ == old(out)@ + spec_rest_of_header(
            mtime as int,
            uid as int,
            gid as int,
            perms as int,
            size as int,
        ),
{
    push_dec_field(out, mtime, 12);
    push_dec_field(out, (uid % 1000000) as u64, 6);
    push_dec_field(out, (gid % 1000000) as u64, 6);
    push_oct_field(out, perms as u64, 8);
    push_dec_field(out, size, 10);
    out.push(96u8);
    out.push(10u8);
    assert(final(out)@ =~= old(out)@ + spec_rest_of_header(
        mtime as int,
        uid as int,
        gid as int,
        perms as int,
        size as int,
    ));
}

/// The trailing block is at least 44 bytes (all fields at minimum width)
/// and at most 65 (every decimal field stretched by a twenty-digit value).
pub proof fn lemma_rest_of_header_len(mtime: int, uid: int, gid: int, perms: int, size: int)
    requires
        0 <= mtime <= u64::MAX,
        0 <= uid <= u32::MAX,
        0 <= gid <= u32::MAX,
        0 <= perms <= u32::MAX,
        0 <= size <= u64::MAX,
    ensures
        44 <= spec_rest_of_header(mtime, uid, gid, perms, size).len() <= 65,
        mtime < 1000000000000 && perms < 16777216 && size < 10000000000 ==> spec_rest_of_header(
            mtime,
            uid,
            gid,
            perms,
            size,
        ).len() == 44,
{
    crate::bytefmt::lemma_dec_len_u64(mtime as u64);
    crate::bytefmt::lemma_dec_len_u64(size as u64);
    crate::bytefmt::lemma_oct_len_u32(perms as u32);
    assert(crate::bytefmt::pow10(6) == 1000000) by {
        reveal_with_fuel(crate::bytefmt::pow10, 7);
    }
    crate::bytefmt::lemma_dec_len(uid % 1000000, 6);
    crate::bytefmt::lemma_dec_len(gid % 1000000, 6);
    if mtime < 1000000000000 {
        assert(crate::bytefmt::pow10(12) == 1000000000000) by {
            reveal_with_fuel(crate::bytefmt::pow10, 13);
        }
        crate::bytefmt::lemma_dec_len(mtime, 12);
    }
    if perms < 16777216 {
        assert(crate::bytefmt::pow8(8) == 16777216) by {
            reveal_with_fuel(crate::bytefmt::pow8, 9);
        }
        crate::bytefmt::lemma_oct_len(perms, 8);
    }
    if size < 10000000000 {
        assert(crate::bytefmt::pow10(10) == 10000000000) by {
            reveal_with_fuel(crate::bytefmt::pow10, 11);
        }
        crate::bytefmt::lemma_dec_len(size, 10);
    }
}

/// A GNU-family header: the name (or string-table reference) in a sixteen
/// character field, then the trailing block.
pub open spec fn spec_gnu_small_header(
    name: Seq<u8>,
    mtime: int,
    uid: int,
    gid: int,
    perms: int,
    size: int,
) -> Seq<u8> {
    spec_pad_right(name.push(47u8), 32u8, 16) + spec_rest_of_header(mtime, uid, gid, perms, size)
}

/// Append a GNU header whose name sits inline, left-justified and closed
/// with a slash.
pub fn print_gnu_small_member_header(
    out: &mut Vec<u8>,
    name: &Vec<u8>,
    mtime: u64,
    uid: u32,
    gid: u32,
    perms: u32,
    size: u64,
)
    requires
        name@.len() < 16,
    ensures
        final(out)@ == old(out)@ + spec_gnu_small_header(
            name@,
            mtime as int,
            uid as int,
            gid as int,
            perms as int,
            size as int,
        ),
{
    push_bytes(out, name.as_slice());
    out.push(47u8);
    push_fill(out, 32u8, 16 - (name.len() + 1));
    assert(out@ =~= old(out)@ + spec_pad_right(name@.push(47u8), 32u8, 16));
    print_rest_of_member_header(out, mtime, uid, gid, perms, size);
    assert(final(out)@ =~= old(out)@ + spec_gnu_small_header(
        name@,
        mtime as int,
        uid as int,
        gid as int,
        perms as int,
        size as int,
    ));
}

/// A GNU-family header that refers into the string table: a slash, the
/// decimal table offset, then the trailing block.
pub open spec fn spec_gnu_long_header(
    name_pos: int,
    mtime: int,
    uid: int,
    gid: int,
    perms: int,
    size: int,
) -> Seq<u8> {
    seq![47u8] + spec_dec_field(name_pos, 15) + spec_rest_of_header(mtime, uid, gid, perms, size)
}

/// A BSD-family header: `#1/` with the stored name length, the trailing
/// block whose size also covers the name, then the name itself padded with
/// NUL bytes so the payload starts eight-byte aligned in the file.
pub open spec fn spec_bsd_header(
    pos: int,
    name: Seq<u8>,
    mtime: int,
    uid: int,
    gid: int,
    perms: int,
    size: int,
) -> Seq<u8> {
    let pad = spec_align_pad(pos + 60 + name.len(), 8);
    let nwp = name.len() + pad;
    seq![35u8, 49u8, 47u8] + spec_dec_field(nwp, 13) + spec_rest_of_header(
        mtime,
        uid,
        gid,
        perms,
        nwp + size,
    ) + name + crate::bytefmt::spec_fill(0u8, pad)
}

/// Append a BSD header for a member whose header begins at archive offset
/// `pos`.
pub fn print_bsd_member_header(
    out: &mut Vec<u8>,
    pos: u64,
    name: &Vec<u8>,
    mtime: u64,
    uid: u32,
    gid: u32,
    perms: u32,
    size: u64,
)
    requires
        pos + 60 + name@.len() + 8 <= u64::MAX,
        name@.len() + 8 + size <= u64::MAX,
    ensures
        final(out)@ == old(out)@ + spec_bsd_header(
            pos as int,
            name@,
            mtime as int,
            uid as int,
            gid as int,
            perms as int,
            size as int,
        ),
{
    let pos_after_header: u64 = pos + 60 + name.len() as u64;
    let pad: u64 = offset_to_alignment(pos_after_header, 8);
    let name_with_padding: u64 = name.len() as u64 + pad;
    out.push(35u8);
    out.push(49u8);
    out.push(47u8);
    push_dec_field(out, name_with_padding, 13);
    print_rest_of_member_header(out, mtime, uid, gid, perms, name_with_padding + size);
    push_bytes(out, name.as_slice());
    push_fill(out, 0u8, pad as usize);
    assert(final(out)@ =~= old(out)@ + spec_bsd_header(
        pos as int,
        name@,
        mtime as int,
        uid as int,
        gid as int,
        perms as int,
        size as int,
    ));
}

/// What one header-printing step produces: the header bytes and the string
/// table buffer and name map as the step leaves them.
#[verifier::ext_equal]
pub struct HeaderStep {
    pub header: Seq<u8>,
    pub strtab: Seq<u8>,
    pub names: Seq<(Seq<u8>, u64)>,
}

/// One `name/\n` record.
pub open spec fn spec_strtab_record(name: Seq<u8>) -> Seq<u8> {
    name + seq![47u8, 10u8]
}

/// Dispatch one member header: BSD family writes the name in line; the GNU
/// family either stores a short name inline or routes it through the string
/// table, deduplicating in non-thin mode.
pub open spec fn spec_member_header_step(
    kind: ArchiveKind,
    thin: bool,
    pos: int,
    strtab: Seq<u8>,
    names: Seq<(Seq<u8>, u64)>,
    name: Seq<u8>,
    mtime: int,
    uid: int,
    gid: int,
    perms: int,
    size: int,
) -> HeaderStep
    recommends
        spec_writable(kind),
{
    if spec_is_bsd_like(kind) {
        HeaderStep {
            header: spec_bsd_header(pos, name, mtime, uid, gid, perms, size),
            strtab,
            names,
        }
    } else if !spec_use_string_table(thin, name) {
        HeaderStep {
            header: spec_gnu_small_header(name, mtime, uid, gid, perms, size),
            strtab,
            names,
        }
    } else if thin {
        HeaderStep {
            header: spec_gnu_long_header(strtab.len() as int, mtime, uid, gid, perms, size),
            strtab: strtab + spec_strtab_record(name),
            names,
        }
    } else {
        match assoc_find(names, name) {
            Some(off) => HeaderStep {
                header: spec_gnu_long_header(off as int, mtime, uid, gid, perms, size),
                strtab,
                names,
            },
            None => HeaderStep {
                header: spec_gnu_long_header(strtab.len() as int, mtime, uid, gid, perms, size),
                strtab: strtab + spec_strtab_record(name),
                names: names.push((name, strtab.len() as u64)),
            },
        }
    }
}

/// Whatever the family, a member header is at least 60 bytes and exceeds
/// 60 only by stretched numeric fields and, on the BSD side, the stored
/// name: never by more than 35 bytes beyond the name.
pub proof fn lemma_member_header_step_len(
    kind: ArchiveKind,
    thin: bool,
    pos: int,
    strtab: Seq<u8>,
    names: Seq<(Seq<u8>, u64)>,
    name: Seq<u8>,
    mtime: int,
    uid: int,
    gid: int,
    perms: int,
    size: int,
)
    requires
        spec_writable(kind),
        0 <= pos,
        0 <= mtime <= u64::MAX,
        0 <= uid <= u32::MAX,
        0 <= gid <= u32::MAX,
        0 <= perms <= u32::MAX,
        0 <= size,
        size + name.len() + 32 <= u64::MAX,
        strtab.len() <= u64::MAX,
    ensures
        ({
            let h = spec_member_header_step(
                kind,
                thin,
                pos,
                strtab,
                names,
                name,
                mtime,
                uid,
                gid,
                perms,
                size,
            ).header;
            60 <= h.len() <= 95 + name.len()
        }),
{
    lemma_rest_of_header_len(mtime, uid, gid, perms, size);
    if spec_is_bsd_like(kind) {
        let pad = spec_align_pad(pos + 60 + name.len(), 8);
        crate::align::lemma_align_pad(pos + 60 + name.len(), 8);
        let nwp = name.len() + pad;
        crate::bytefmt::lemma_dec_len_u64(nwp as u64);
        lemma_rest_of_header_len(mtime, uid, gid, perms, nwp + size);
    } else if !spec_use_string_table(thin, name) {
    } else {
        match assoc_find(names, name) {
            Some(off) => {
                crate::bytefmt::lemma_dec_len_u64(off);
            },
            None => {
                crate::bytefmt::lemma_dec_len_u64(strtab.len() as u64);
            },
        }
        if thin {
            crate::bytefmt::lemma_dec_len_u64(strtab.len() as u64);
        }
    }
}

/// With every numeric field inside its fixed width, a GNU-family header is
/// exactly sixty bytes, and a BSD-family header is sixty bytes plus the
/// stored name and its alignment padding.
pub proof fn lemma_member_header_step_len_exact(
    kind: ArchiveKind,
    thin: bool,
    pos: int,
    strtab: Seq<u8>,
    names: Seq<(Seq<u8>, u64)>,
    name: Seq<u8>,
    mtime: int,
    uid: int,
    gid: int,
    perms: int,
    size: int,
)
    requires
        spec_writable(kind),
        0 <= pos,
        0 <= mtime < 1000000000000,
        0 <= uid <= u32::MAX,
        0 <= gid <= u32::MAX,
        0 <= perms < 16777216,
        0 <= size,
        name.len() + size + 16 < 10000000000,
        strtab.len() < 1000000000000000,
        forall|k: int| 0 <= k < names.len() ==> (#[trigger] names[k]).1 < 1000000000000000,
    ensures
        ({
            let h = spec_member_header_step(
                kind,
                thin,
                pos,
                strtab,
                names,
                name,
                mtime,
                uid,
                gid,
                perms,
                size,
            ).header;
            if spec_is_bsd_like(kind) {
                h.len() == 60 + name.len() + spec_align_pad(pos + 60 + name.len(), 8)
            } else {
                h.len() == 60
            }
        }),
{
    assert(crate::bytefmt::pow10(10) == 10000000000) by {
        reveal_with_fuel(crate::bytefmt::pow10, 11);
    }
    assert(crate::bytefmt::pow10(13) == 10000000000000) by {
        reveal_with_fuel(crate::bytefmt::pow10, 14);
    }
    assert(crate::bytefmt::pow10(15) == 1000000000000000) by {
        reveal_with_fuel(crate::bytefmt::pow10, 16);
    }
    if spec_is_bsd_like(kind) {
        let pad = spec_align_pad(pos + 60 + name.len(), 8);
        crate::align::lemma_align_pad(pos + 60 + name.len(), 8);
        let nwp = name.len() + pad;
        crate::bytefmt::lemma_dec_len(nwp, 13);
        lemma_rest_of_header_len(mtime, uid, gid, perms, nwp + size);
    } else if !spec_use_string_table(thin, name) {
        lemma_rest_of_header_len(mtime, uid, gid, perms, size);
    } else {
        lemma_rest_of_header_len(mtime, uid, gid, perms, size);
        if thin {
            crate::bytefmt::lemma_dec_len(strtab.len() as int, 15);
        } else {
            match assoc_find(names, name) {
                Some(off) => {
                    crate::strtab::lemma_assoc_find_some_in(names, name);
                    crate::bytefmt::lemma_dec_len(off as int, 15);
                },
                None => {
                    crate::bytefmt::lemma_dec_len(strtab.len() as int, 15);
                },
            }
        }
    }
}

/// Append the member's `name/\n` record to the string table and return the
/// offset it starts at.
fn append_strtab_record(string_table: &mut Vec<u8>, name: &Vec<u8>) -> (r: u64)
    requires
        old(string_table)@.len() + name@.len() + 2 <= u64::MAX,
    ensures
        final(string_table)@ == old(string_table)@ + spec_strtab_record(name@),
        r == old(string_table)@.len(),
{
    let r = string_table.len() as u64;
    push_bytes(string_table, name.as_slice());
    string_table.push(47u8);
    string_table.push(10u8);
    assert(final(string_table)@ =~= old(string_table)@ + spec_strtab_record(name@));
    r
}

/// Serialize one member's header, threading the string table state.
pub fn print_member_header(
    out: &mut Vec<u8>,
    pos: u64,
    string_table: &mut Vec<u8>,
    member_names: &mut NameMap,
    kind: ArchiveKind,
    thin: bool,
    m: &NewArchiveMember,
    mtime: u64,
    size: u64,
)
    requires
        spec_writable(kind),
        pos + 60 + m@.member_name.len() + 8 <= u64::MAX,
        m@.member_name.len() + 8 + size <= u64::MAX,
        old(string_table)@.len() + m@.member_name.len() + 2 <= u64::MAX,
    ensures
        ({
            let step = spec_member_header_step(
                kind,
                thin,
                pos as int,
                old(string_table)@,
                old(member_names)@,
                m@.member_name,
                mtime as int,
                m@.uid as int,
                m@.gid as int,
                m@.perms as int,
                size as int,
            );
            final(out)@ == old(out)@ + step.header && final(string_table)@ == step.strtab
                && final(member_names)@ == step.names
        }),
{
    if is_bsd_like(kind) {
        print_bsd_member_header(out, pos, &m.member_name, mtime, m.uid, m.gid, m.perms, size);
        return ;
    }
    if !use_string_table(thin, &m.member_name) {
        print_gnu_small_member_header(out, &m.member_name, mtime, m.uid, m.gid, m.perms, size);
        return ;
    }
    let name_pos: u64;
    if thin {
        name_pos = append_strtab_record(string_table, &m.member_name);
    } else {
        match member_names.find(&m.member_name) {
            Some(p) => {
                name_pos = p;
            },
            None => {
                name_pos = append_strtab_record(string_table, &m.member_name);
                member_names.add(m.member_name.clone(), name_pos);
            },
        }
    }
    out.push(47u8);
    push_dec_field(out, name_pos, 15);
    print_rest_of_member_header(out, mtime, m.uid, m.gid, m.perms, size);
    proof {
        let step = spec_member_header_step(
            kind,
            thin,
            pos as int,
            old(string_table)@,
            old(member_names)@,
            m@.member_name,
            mtime as int,
            m@.uid as int,
            m@.gid as int,
            m@.perms as int,
            size as int,
        );
        assert(final(out)@ =~= old(out)@ + step.header);
    }
}

} // verus!
