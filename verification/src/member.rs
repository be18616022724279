//! Caller-supplied archive members and the derived per-member layout data.
use vstd::prelude::*;

verus! {

/// One member to be placed in the archive: its payload bytes, its name, and
/// the owner metadata recorded in its header.
pub struct NewArchiveMember {
    pub buf: Vec<u8>,
    pub member_name: Vec<u8>,
    pub mtime: u64,
    pub uid: u32,
    pub gid: u32,
    pub perms: u32,
}

/// Mathematical image of a member: the same fields over sequences.
#[verifier::ext_equal]
pub struct MemberView {
    pub buf: Seq<u8>,
    pub member_name: Seq<u8>,
    pub mtime: u64,
    pub uid: u32,
    pub gid: u32,
    pub perms: u32,
}

impl View for NewArchiveMember {
    type V = MemberView;

    open spec fn view(&self) -> MemberView {
        MemberView {
            buf: self.buf@,
            member_name: self.member_name@,
            mtime: self.mtime,
            uid: self.uid,
            gid: self.gid,
            perms: self.perms,
        }
    }
}

impl NewArchiveMember {
    /// A member with the given name and payload, all metadata zeroed, as a
    /// deterministic build wants it.
    pub fn new(member_name: Vec<u8>, buf: Vec<u8>) -> (r: NewArchiveMember)
        ensures
            r@.member_name == member_name@,
            r@.buf == buf@,
            r@.mtime == 0u64 && r@.uid == 0u32 && r@.gid == 0u32 && r@.perms == 0u32,
    {
        NewArchiveMember { buf, member_name, mtime: 0, uid: 0, gid: 0, perms: 0 }
    }

    /// A member carrying explicit timestamp, owner and permission fields.
    pub fn with_metadata(
        member_name: Vec<u8>,
        buf: Vec<u8>,
        mtime: u64,
        uid: u32,
        gid: u32,
        perms: u32,
    ) -> (r: NewArchiveMember)
        ensures
            r@.member_name == member_name@,
            r@.buf == buf@,
            r@.mtime == mtime && r@.uid == uid && r@.gid == gid && r@.perms == perms,
    {
        NewArchiveMember { buf, member_name, mtime, uid, gid, perms }
    }
}

/// Per-member layout computed once per run: the offsets of the member's
/// symbol names in the shared name buffer, its serialized header, its
/// payload as emitted (empty in thin mode), and its trailing padding.
pub struct MemberData {
    pub symbols: Vec<u64>,
    pub header: Vec<u8>,
    pub data: Vec<u8>,
    pub padding: Vec<u8>,
}

/// Mathematical image of a `MemberData`.
#[verifier::ext_equal]
pub struct MemberDataView {
    pub symbols: Seq<u64>,
    pub header: Seq<u8>,
    pub data: Seq<u8>,
    pub padding: Seq<u8>,
}

impl View for MemberData {
    type V = MemberDataView;

    open spec fn view(&self) -> MemberDataView {
        MemberDataView { symbols: self.symbols@, header: self.header@, data: self.data@, padding: self.padding@ }
    }
}

impl MemberDataView {
    /// Bytes this record occupies in the archive.
    pub open spec fn record_len(self) -> int {
        self.header.len() + self.data.len() + self.padding.len() as int
    }

    /// The record as emitted.
    pub open spec fn record_bytes(self) -> Seq<u8> {
        self.header + self.data + self.padding
    }
}

/// The member list as mathematics: each element replaced by its view.
pub open spec fn member_views(ms: Seq<NewArchiveMember>) -> Seq<MemberView> {
    ms.map_values(|m: NewArchiveMember| m@)
}

/// The names of a member list, in order.
pub open spec fn member_name_seq(ms: Seq<MemberView>) -> Seq<Seq<u8>> {
    ms.map_values(|m: MemberView| m.member_name)
}

/// A coarse per-member byte budget: headers never exceed 128 bytes beyond
/// the name, and padding is below the slack too, so every derived size is
/// bounded by this sum.
pub open spec fn spec_footprint(ms: Seq<MemberView>) -> int
    decreases ms.len(),
{
    if ms.len() == 0 {
        0
    } else {
        128 + ms[0].member_name.len() + ms[0].buf.len() + spec_footprint(ms.drop_first())
    }
}

pub proof fn lemma_footprint_nonneg(ms: Seq<MemberView>)
    ensures
        spec_footprint(ms) >= 128 * ms.len(),
    decreases ms.len(),
{
    if ms.len() > 0 {
        lemma_footprint_nonneg(ms.drop_first());
    }
}

/// A footprint splits at any point into prefix and suffix footprints.
pub proof fn lemma_footprint_split(ms: Seq<MemberView>, i: int)
    requires
        0 <= i <= ms.len(),
    ensures
        spec_footprint(ms) == spec_footprint(ms.take(i)) + spec_footprint(ms.skip(i)),
    decreases i,
{
    if i == 0 {
        assert(ms.take(0) =~= Seq::<MemberView>::empty());
        assert(ms.skip(0) =~= ms);
    } else {
        lemma_footprint_split(ms.drop_first(), i - 1);
        assert(ms.take(i)[0] == ms[0]);
        assert(ms.take(i).drop_first() =~= ms.drop_first().take(i - 1));
        assert(ms.skip(i) =~= ms.drop_first().skip(i - 1));
    }
}

/// An owned copy of a byte buffer.
pub fn copy_bytes(v: &Vec<u8>) -> (r: Vec<u8>)
    ensures
        r@ == v@,
{
    let mut r: Vec<u8> = Vec::new();
    crate::bytefmt::push_bytes(&mut r, v.as_slice());
    assert(r@ =~= v@);
    r
}

/// The member-data list as mathematics: each element replaced by its view.
pub open spec fn views_of(ms: Seq<MemberData>) -> Seq<MemberDataView> {
    ms.map_values(|m: MemberData| m@)
}

impl MemberData {
    /// Bytes this record occupies in the archive, as a machine word.
    pub fn byte_len(&self) -> (r: u64)
        requires
            self@.record_len() <= u64::MAX,
        ensures
            r == self@.record_len(),
    {
        self.header.len() as u64 + self.data.len() as u64 + self.padding.len() as u64
    }
}

} // verus!
