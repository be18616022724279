//! Symbol extraction from member payloads.
//!
//! Parsing the payload as an object file is delegated to the `object`
//! crate behind one trusted boundary that hands back plain values; which
//! symbols qualify for the archive symbol table, and how their names are
//! laid out in the shared name buffer, is decided here and verified.
use vstd::prelude::*;

use object::{Object, ObjectSymbol};

verus! {

/// One symbol as reported by the object parser: its name bytes, whether it
/// is externally visible, and whether it is a definition.
pub struct RawSymbol {
    pub name: Vec<u8>,
    pub global: bool,
    pub definition: bool,
}

impl View for RawSymbol {
    type V = (Seq<u8>, bool, bool);

    open spec fn view(&self) -> (Seq<u8>, bool, bool) {
        (self.name@, self.global, self.definition)
    }
}

/// What parsing a given payload yields: `None` when the bytes are not a
/// recognisable object file, otherwise the symbol list in file order. A
/// pure function of the bytes alone.
pub uninterp spec fn parsed_object_symbols(data: Seq<u8>) -> Option<Seq<(Seq<u8>, bool, bool)>>;

pub open spec fn raw_symbols_view(r: Option<Vec<RawSymbol>>) -> Option<Seq<(Seq<u8>, bool, bool)>> {
    match r {
        Some(v) => Some(v@.map_values(|s: RawSymbol| s@)),
        None => None,
    }
}

/// Relies on `object::File::parse` and `object::read::Symbol`'s
/// `name_bytes`, `is_global` and `is_definition`: the parse outcome and the
/// symbol list, in file order, are functions of the payload bytes alone.
#[verifier::external_body]
fn read_object_symbols(data: &[u8]) -> (r: Option<Vec<RawSymbol>>)
    ensures
        raw_symbols_view(r) == parsed_object_symbols(data@),
{
    match object::File::parse(data) {
        Ok(file) => Some(
            file.symbols().map(
                |sym| RawSymbol {
                    name: sym.name_bytes().unwrap_or(&[]).to_vec(),
                    global: sym.is_global(),
                    definition: sym.is_definition(),
                },
            ).collect(),
        ),
        Err(_) => None,
    }
}

/// A symbol belongs in the archive symbol table iff it is externally
/// visible and a definition; external references stay out. Format-specific
/// symbol kinds are deliberately not excluded beyond this.
pub open spec fn spec_is_archive_symbol(s: (Seq<u8>, bool, bool)) -> bool {
    s.1 && s.2
}

pub fn is_archive_symbol(sym: &RawSymbol) -> (r: bool)
    ensures
        r == spec_is_archive_symbol(sym@),
{
    sym.global && sym.definition
}

/// Names of the qualifying symbols, in discovery order.
pub open spec fn spec_qualifying_names(syms: Seq<(Seq<u8>, bool, bool)>) -> Seq<Seq<u8>>
    decreases syms.len(),
{
    if syms.len() == 0 {
        Seq::empty()
    } else {
        let rest = spec_qualifying_names(syms.drop_last());
        if spec_is_archive_symbol(syms.last()) {
            rest.push(syms.last().0)
        } else {
            rest
        }
    }
}

/// The shared name buffer's image of a name list: each name followed by a
/// NUL terminator.
pub open spec fn spec_sym_blob(names: Seq<Seq<u8>>) -> Seq<u8>
    decreases names.len(),
{
    if names.len() == 0 {
        Seq::empty()
    } else {
        spec_sym_blob(names.drop_last()) + names.last() + seq![0u8]
    }
}

/// The buffer offset each name starts at, when the buffer already holds
/// `base` bytes.
pub open spec fn spec_sym_offsets(names: Seq<Seq<u8>>, base: int) -> Seq<u64>
    decreases names.len(),
{
    if names.len() == 0 {
        Seq::empty()
    } else {
        spec_sym_offsets(names.drop_last(), base).push(
            (base + spec_sym_blob(names.drop_last()).len()) as u64,
        )
    }
}

/// Every name costs at least its terminator, so the blob is no shorter
/// than the name count.
pub proof fn lemma_sym_blob_len(names: Seq<Seq<u8>>)
    ensures
        spec_sym_blob(names).len() >= names.len(),
    decreases names.len(),
{
    if names.len() > 0 {
        lemma_sym_blob_len(names.drop_last());
    }
}

/// Each offset points into the stretch the blob adds after `base`.
pub proof fn lemma_sym_offsets_bounds(names: Seq<Seq<u8>>, base: int)
    requires
        base >= 0,
        base + spec_sym_blob(names).len() <= u64::MAX,
    ensures
        forall|k: int|
            0 <= k < spec_sym_offsets(names, base).len() ==> base <= #[trigger] spec_sym_offsets(
                names,
                base,
            )[k] < base + spec_sym_blob(names).len(),
    decreases names.len(),
{
    if names.len() > 0 {
        let prev = names.drop_last();
        assert(spec_sym_blob(names) == spec_sym_blob(prev) + names.last() + seq![0u8]);
        lemma_sym_offsets_bounds(prev, base);
        lemma_sym_offsets_len(prev, base);
        let offs = spec_sym_offsets(names, base);
        assert(forall|k: int|
            0 <= k < offs.len() - 1 ==> offs[k] == #[trigger] spec_sym_offsets(prev, base)[k]);
        assert(offs.last() == (base + spec_sym_blob(prev).len()) as u64);
        assert(base + spec_sym_blob(prev).len() < base + spec_sym_blob(names).len());
    }
}

/// There is one offset per name.
pub proof fn lemma_sym_offsets_len(names: Seq<Seq<u8>>, base: int)
    ensures
        spec_sym_offsets(names, base).len() == names.len(),
    decreases names.len(),
{
    if names.len() > 0 {
        lemma_sym_offsets_len(names.drop_last(), base);
    }
}

/// Collect the qualifying symbols of one payload: append each name,
/// NUL-terminated, to the shared buffer and return the offsets the names
/// start at. An unparseable payload contributes nothing; a parseable one
/// marks `has_object`.
pub fn get_symbols(buf: &[u8], sym_names: &mut Vec<u8>, has_object: &mut bool) -> (r: Vec<u64>)
    ensures
        ({
            match parsed_object_symbols(buf@) {
                Some(syms) => {
                    let names = spec_qualifying_names(syms);
                    final(sym_names)@ == old(sym_names)@ + spec_sym_blob(names) && r@
                        == spec_sym_offsets(names, old(sym_names)@.len() as int)
                        && *final(has_object)
                },
                None => final(sym_names)@ == old(sym_names)@ && r@ == Seq::<u64>::empty()
                    && *final(has_object) == *old(has_object),
            }
        }),
{
    match read_object_symbols(buf) {
        Some(syms) => {
            *has_object = true;
            let ghost all = syms@.map_values(|s: RawSymbol| s@);
            let mut ret: Vec<u64> = Vec::new();
            let mut i: usize = 0;
            while i < syms.len()
                invariant
                    i <= syms@.len(),
                    all == syms@.map_values(|s: RawSymbol| s@),
                    sym_names@ == old(sym_names)@ + spec_sym_blob(
                        spec_qualifying_names(all.take(i as int)),
                    ),
                    ret@ == spec_sym_offsets(
                        spec_qualifying_names(all.take(i as int)),
                        old(sym_names)@.len() as int,
                    ),
                decreases syms@.len() - i,
            {
                let ghost prefix = spec_qualifying_names(all.take(i as int));
                proof {
                    assert(all.take(i + 1).drop_last() =~= all.take(i as int));
                    assert(all.take(i + 1).last() == all[i as int]);
                    assert(all[i as int] == syms@[i as int]@);
                }
                if is_archive_symbol(&syms[i]) {
                    ret.push(sym_names.len() as u64);
                    crate::bytefmt::push_bytes(sym_names, syms[i].name.as_slice());
                    sym_names.push(0u8);
                    proof {
                        let now_names = spec_qualifying_names(all.take(i + 1));
                        assert(now_names =~= prefix.push(all[i as int].0));
                        assert(now_names.drop_last() =~= prefix);
                        assert(spec_sym_blob(now_names) =~= spec_sym_blob(prefix) + all[i as int].0
                            + seq![0u8]);
                        assert(sym_names@ =~= old(sym_names)@ + spec_sym_blob(now_names));
                        assert(ret@ =~= spec_sym_offsets(now_names, old(sym_names)@.len() as int));
                    }
                } else {
                    proof {
                        assert(spec_qualifying_names(all.take(i + 1)) =~= prefix);
                    }
                }
                i += 1;
            }
            proof {
                assert(all.take(syms@.len() as int) =~= all);
            }
            ret
        },
        None => {
            proof {
                assert(parsed_object_symbols(buf@) is None);
            }
            Vec::new()
        },
    }
}

} // verus!
