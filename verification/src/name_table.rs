//! Hash tables from names to positions in a list.
use rustc_hash::FxHashMap;
use vstd::prelude::*;

verus! {

/// The hasher of `FxHashMap`.
#[verifier::external_type_specification]
#[verifier::external_body]
pub struct ExFxBuildHasher(rustc_hash::FxBuildHasher);

/// What a hash table holds: for each name, a position.
pub uninterp spec fn positions(table: FxHashMap<Vec<u8>, usize>) -> Map<Seq<u8>, usize>;

/// The contents of a table that holds nothing.
pub open spec fn no_positions() -> Map<Seq<u8>, usize> {
    Map::empty()
}

/// An empty table, by the `Default` of `FxHashMap`.
#[verifier::external_body]
pub(crate) fn new_table() -> (table: FxHashMap<Vec<u8>, usize>)
    ensures
        positions(table) == no_positions(),
{
    FxHashMap::default()
}

/// Looks a name up with `HashMap::get` of an `FxHashMap`.
///
/// What is relied on: names that are equal byte for byte are the same key.
#[verifier::external_body]
pub(crate) fn find(table: &FxHashMap<Vec<u8>, usize>, name: &[u8]) -> (position: Option<usize>)
    ensures
        position == (if positions(*table).dom().contains(name@) {
            Some(positions(*table)[name@])
        } else {
            None
        }),
{
    table.get(name).copied()
}

/// Puts a name into a table with `HashMap::insert` of an `FxHashMap`. An earlier position of the
/// name is replaced.
#[verifier::external_body]
pub(crate) fn put(table: &mut FxHashMap<Vec<u8>, usize>, name: Vec<u8>, position: usize)
    ensures
        positions(*final(table)) == positions(*old(table)).insert(name@, position),
{
    table.insert(name, position);
}

/// A copy of some bytes.
pub(crate) fn copy_bytes(bytes: &[u8]) -> (copy: Vec<u8>)
    ensures
        copy@ == bytes@,
{
    let mut copy: Vec<u8> = Vec::new();
    let mut i: usize = 0;
    while i < bytes.len()
        invariant
            i <= bytes@.len(),
            copy@ == bytes@.take(i as int),
        decreases bytes@.len() - i,
    {
        copy.push(bytes[i]);
        i += 1;
    }
    assert(bytes@.take(i as int) =~= bytes@);
    copy
}

} // verus!
