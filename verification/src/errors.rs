//! Failure surface of the writer.
use vstd::prelude::*;

verus! {

/// Why writing was refused. No partial archive accompanies any of these.
#[derive(Debug)]
pub enum ArchiveError {
    /// The chosen kind is recognised but cannot be written.
    UnsupportedKind,
    /// Thin mode was combined with a BSD-like kind; only the GNU family
    /// has a thin form.
    ThinNotSupported,
    /// A member's padded payload exceeds the representable member size.
    MemberTooBig { name: Vec<u8> },
    /// A derived size or offset would not fit the machine word.
    TooLarge,
}

/// Does `e` report the member called `name` as oversized?
pub open spec fn spec_is_member_too_big(e: ArchiveError, name: Seq<u8>) -> bool {
    match e {
        ArchiveError::MemberTooBig { name: n } => n@ == name,
        _ => false,
    }
}

} // verus!
