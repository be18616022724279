//! The long-name string table: an append-only buffer of `name/\n` records
//! and the insertion-ordered lookup list that deduplicates names.
use vstd::prelude::*;

use crate::align::spec_align_pad;
use crate::bytefmt::{push_dec_field, push_fill, spec_dec_field, spec_pad_right};
use crate::member::{MemberData, MemberDataView};

verus! {

/// Byte-wise comparison of two owned buffers.
pub fn bytes_eq(a: &Vec<u8>, b: &Vec<u8>) -> (r: bool)
    ensures
        r == (a@ == b@),
{
    if a.len() != b.len() {
        return false;
    }
    let mut i: usize = 0;
    while i < a.len()
        invariant
            a@.len() == b@.len(),
            i <= a@.len(),
            forall|j: int| 0 <= j < i ==> a@[j] == b@[j],
        decreases a@.len() - i,
    {
        if a[i] != b[i] {
            return false;
        }
        i += 1;
    }
    proof {
        assert(a@ =~= b@);
    }
    true
}

/// First value recorded under `name`, scanning entries in insertion order.
pub open spec fn assoc_find(s: Seq<(Seq<u8>, u64)>, name: Seq<u8>) -> Option<u64>
    decreases s.len(),
{
    if s.len() == 0 {
        None
    } else if s[0].0 == name {
        Some(s[0].1)
    } else {
        assoc_find(s.drop_first(), name)
    }
}

/// A scan that passed `i` entries without a match may as well start at `i`.
proof fn lemma_assoc_find_skip(s: Seq<(Seq<u8>, u64)>, name: Seq<u8>, i: int)
    requires
        0 <= i <= s.len(),
        forall|j: int| 0 <= j < i ==> (#[trigger] s[j]).0 != name,
    ensures
        assoc_find(s, name) == assoc_find(s.skip(i), name),
    decreases i,
{
    if i > 0 {
        lemma_assoc_find_skip(s.drop_first(), name, i - 1);
        assert(s.drop_first().skip(i - 1) =~= s.skip(i));
    } else {
        assert(s.skip(0) =~= s);
    }
}

/// Appending entries does not change what an earlier scan found.
pub proof fn lemma_assoc_find_push_found(s: Seq<(Seq<u8>, u64)>, name: Seq<u8>, e: (Seq<u8>, u64))
    requires
        assoc_find(s, name) is Some,
    ensures
        assoc_find(s.push(e), name) == assoc_find(s, name),
    decreases s.len(),
{
    assert(s.push(e)[0] == s[0]);
    if s[0].0 == name {
    } else {
        assert(s.push(e).drop_first() =~= s.drop_first().push(e));
        lemma_assoc_find_push_found(s.drop_first(), name, e);
    }
}

/// A scan finds a freshly appended name when it was absent before.
pub proof fn lemma_assoc_find_push_new(s: Seq<(Seq<u8>, u64)>, name: Seq<u8>, v: u64)
    requires
        assoc_find(s, name) is None,
    ensures
        assoc_find(s.push((name, v)), name) == Some(v),
    decreases s.len(),
{
    if s.len() == 0 {
        assert(s.push((name, v))[0] == (name, v));
    } else {
        assert(s.push((name, v))[0] == s[0]);
        assert(s.push((name, v)).drop_first() =~= s.drop_first().push((name, v)));
        lemma_assoc_find_push_new(s.drop_first(), name, v);
    }
}

/// What a scan returns is the value of some entry carrying the name.
pub proof fn lemma_assoc_find_some_in(s: Seq<(Seq<u8>, u64)>, name: Seq<u8>)
    requires
        assoc_find(s, name) is Some,
    ensures
        exists|k: int|
            0 <= k < s.len() && (#[trigger] s[k]).0 == name && s[k].1 == assoc_find(
                s,
                name,
            )->Some_0,
    decreases s.len(),
{
    if s[0].0 == name {
        assert(s[0].0 == name && s[0].1 == assoc_find(s, name)->Some_0);
    } else {
        lemma_assoc_find_some_in(s.drop_first(), name);
        let k = choose|k: int|
            0 <= k < s.drop_first().len() && (#[trigger] s.drop_first()[k]).0 == name
                && s.drop_first()[k].1 == assoc_find(s.drop_first(), name)->Some_0;
        assert(s[k + 1] == s.drop_first()[k]);
    }
}

/// A failed scan means no entry carries the name at all.
pub proof fn lemma_assoc_find_none(s: Seq<(Seq<u8>, u64)>, name: Seq<u8>)
    ensures
        (assoc_find(s, name) is None) <==> (forall|k: int|
            0 <= k < s.len() ==> (#[trigger] s[k]).0 != name),
    decreases s.len(),
{
    if s.len() > 0 {
        lemma_assoc_find_none(s.drop_first(), name);
        assert(forall|k: int|
            0 <= k < s.drop_first().len() ==> #[trigger] s.drop_first()[k] == s[k + 1]);
        if s[0].0 != name && (assoc_find(s.drop_first(), name) is None) {
            assert forall|k: int| 0 <= k < s.len() implies (#[trigger] s[k]).0 != name by {
                if k > 0 {
                    assert(s[k] == s.drop_first()[k - 1]);
                }
            }
        }
    }
}

/// The name-to-offset map of the string table, kept in insertion order.
pub struct NameMap {
    entries: Vec<(Vec<u8>, u64)>,
}

impl View for NameMap {
    type V = Seq<(Seq<u8>, u64)>;

    closed spec fn view(&self) -> Seq<(Seq<u8>, u64)> {
        self.entries@.map_values(|e: (Vec<u8>, u64)| (e.0@, e.1))
    }
}

impl NameMap {
    pub fn new() -> (r: NameMap)
        ensures
            r@ == Seq::<(Seq<u8>, u64)>::empty(),
    {
        let r = NameMap { entries: Vec::new() };
        proof {
            assert(r@ =~= Seq::<(Seq<u8>, u64)>::empty());
        }
        r
    }

    /// Offset recorded for `name`, if any.
    pub fn find(&self, name: &Vec<u8>) -> (r: Option<u64>)
        ensures
            r == assoc_find(self@, name@),
    {
        let n = self.entries.len();
        let mut i: usize = 0;
        while i < n
            invariant
                n == self.entries@.len(),
                i <= n,
                forall|j: int| 0 <= j < i ==> (#[trigger] self@[j]).0 != name@,
            decreases n - i,
        {
            if bytes_eq(&self.entries[i].0, name) {
                proof {
                    lemma_assoc_find_skip(self@, name@, i as int);
                    assert(self@.skip(i as int)[0] == self@[i as int]);
                }
                return Some(self.entries[i].1);
            }
            assert(self@[i as int].0 == self.entries@[i as int].0@);
            i += 1;
        }
        proof {
            lemma_assoc_find_skip(self@, name@, n as int);
            assert(self@.skip(n as int) =~= Seq::<(Seq<u8>, u64)>::empty());
        }
        None
    }

    /// Record `offset` under `name`.
    pub fn add(&mut self, name: Vec<u8>, offset: u64)
        ensures
            final(self)@ == old(self)@.push((name@, offset)),
    {
        self.entries.push((name, offset));
        proof {
            assert(final(self)@ =~= old(self)@.push((name@, offset)));
        }
    }
}

/// The string-table pseudo-member: a `//` header over the accumulated name
/// bytes, padded to an even length with one newline when needed.
pub open spec fn spec_string_table_member(names: Seq<u8>) -> MemberDataView {
    let size = names.len() as int;
    let pad = spec_align_pad(size, 2);
    MemberDataView {
        symbols: Seq::empty(),
        header: spec_pad_right(seq![47u8, 47u8], 32u8, 48) + spec_dec_field(size + pad, 10) + seq![
            96u8,
            10u8,
        ],
        data: names,
        padding: if pad != 0 {
            seq![10u8]
        } else {
            Seq::empty()
        },
    }
}

/// Serialize the string-table pseudo-member around the name buffer.
pub fn compute_string_table(names: &Vec<u8>) -> (r: MemberData)
    requires
        names@.len() + 1 <= u64::MAX,
    ensures
        r@ == spec_string_table_member(names@),
{
    let size: u64 = names.len() as u64;
    let pad: u64 = crate::align::offset_to_alignment(size, 2);
    let mut header: Vec<u8> = Vec::new();
    header.push(47u8);
    header.push(47u8);
    push_fill(&mut header, 32u8, 46);
    push_dec_field(&mut header, size + pad, 10);
    header.push(96u8);
    header.push(10u8);
    let mut data: Vec<u8> = Vec::new();
    crate::bytefmt::push_bytes(&mut data, names.as_slice());
    let mut padding: Vec<u8> = Vec::new();
    if pad != 0 {
        padding.push(10u8);
    }
    let r = MemberData { symbols: Vec::new(), header, data, padding };
    proof {
        let m = spec_string_table_member(names@);
        assert(r@.header =~= m.header);
        assert(r@.symbols =~= m.symbols);
        assert(r@.data =~= m.data);
        assert(r@.padding =~= m.padding);
        assert(r@ =~= m);
    }
    r
}

} // verus!
