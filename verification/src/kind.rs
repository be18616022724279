//! The closed set of archive flavours and the three predicates that drive
//! every layout decision.
use vstd::prelude::*;

verus! {

/// Archive flavour chosen by the caller. `Coff` and `AixBig` are recognised
/// but not supported for writing.
#[derive(Clone, Copy, PartialEq, Eq, Structural, Debug)]
pub enum ArchiveKind {
    Gnu,
    Gnu64,
    Bsd,
    Darwin,
    Darwin64,
    Coff,
    AixBig,
}

/// Largest member size that the fixed ten-character decimal size field of a
/// header can represent.
pub const MAX_MEMBER_SIZE: u64 = 9999999999;

/// The kinds this writer can produce.
pub open spec fn spec_writable(kind: ArchiveKind) -> bool {
    !(kind is Coff || kind is AixBig)
}

pub open spec fn spec_is_darwin(kind: ArchiveKind) -> bool {
    kind is Darwin || kind is Darwin64
}

pub fn is_darwin(kind: ArchiveKind) -> (r: bool)
    ensures
        r == spec_is_darwin(kind),
{
    matches!(kind, ArchiveKind::Darwin | ArchiveKind::Darwin64)
}

pub open spec fn spec_is_bsd_like(kind: ArchiveKind) -> bool {
    kind is Bsd || kind is Darwin || kind is Darwin64
}

pub fn is_bsd_like(kind: ArchiveKind) -> (r: bool)
    requires
        spec_writable(kind),
    ensures
        r == spec_is_bsd_like(kind),
{
    match kind {
        ArchiveKind::Gnu | ArchiveKind::Gnu64 => false,
        ArchiveKind::Bsd | ArchiveKind::Darwin | ArchiveKind::Darwin64 => true,
        ArchiveKind::Coff | ArchiveKind::AixBig => vstd::pervasive::unreached(),
    }
}

pub open spec fn spec_is_64bit_kind(kind: ArchiveKind) -> bool {
    kind is Darwin64 || kind is Gnu64
}

pub fn is_64bit_kind(kind: ArchiveKind) -> (r: bool)
    ensures
        r == spec_is_64bit_kind(kind),
{
    match kind {
        ArchiveKind::Gnu
        | ArchiveKind::Bsd
        | ArchiveKind::Darwin
        | ArchiveKind::Coff
        | ArchiveKind::AixBig => false,
        ArchiveKind::Darwin64 | ArchiveKind::Gnu64 => true,
    }
}

/// A member name is stored through the string table when it cannot sit in
/// the fixed sixteen-character field: too long, holding a path separator, or
/// whenever thin mode is active.
pub open spec fn spec_use_string_table(thin: bool, name: Seq<u8>) -> bool {
    thin || name.len() >= 16 || name.contains(47u8)
}

pub fn use_string_table(thin: bool, name: &Vec<u8>) -> (r: bool)
    ensures
        r == spec_use_string_table(thin, name@),
{
    if thin || name.len() >= 16 {
        return true;
    }
    let mut i: usize = 0;
    while i < name.len()
        invariant
            i <= name@.len(),
            forall|j: int| 0 <= j < i ==> name@[j] != 47u8,
        decreases name@.len() - i,
    {
        if name[i] == 47u8 {
            assert(name@.contains(47u8));
            return true;
        }
        i += 1;
    }
    false
}

} // verus!
