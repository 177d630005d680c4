//! Hash tables keyed by names.
//!
//! The tables are those of the `fnv` crate: std's `HashMap` with its hasher. What
//! a table holds is spoken of as a map from the characters of a key to the value.
use fnv::FnvHashMap;
use vstd::prelude::*;

use crate::level::Level;

verus! {

/// The hasher of the `fnv` crate.
#[verifier::external_type_specification]
#[verifier::external_body]
pub struct ExFnvHasher(fnv::FnvHasher);

/// std's builder of hashers that start from their default.
#[verifier::external_type_specification]
#[verifier::external_body]
#[verifier::reject_recursive_types(H)]
pub struct ExBuildHasherDefault<H>(core::hash::BuildHasherDefault<H>);

/// What is remembered of a monitor from one run of the daemon to the next.
#[derive(Clone, Copy, Debug, PartialEq, Eq, Structural)]
pub struct BrightnessStateInternal {
    pub brightness: Level,
    pub nightlight: bool,
}

/// What a table of positions holds.
pub uninterp spec fn positions(table: FnvHashMap<String, usize>) -> Map<Seq<char>, usize>;

/// What a table of remembered states holds.
pub uninterp spec fn remembered(table: FnvHashMap<String, BrightnessStateInternal>) -> Map<
    Seq<char>,
    BrightnessStateInternal,
>;

/// `FnvHashMap::default` makes a table that holds nothing.
#[verifier::external_body]
pub(crate) fn empty_positions() -> (table: FnvHashMap<String, usize>)
    ensures
        positions(table) =~= Map::empty(),
{
    FnvHashMap::default()
}

/// `FnvHashMap::insert` puts the value under the key, in place of a value that was
/// there.
#[verifier::external_body]
pub(crate) fn insert_position(table: &mut FnvHashMap<String, usize>, name: String, position: usize)
    ensures
        positions(*final(table)) == positions(*old(table)).insert(name@, position),
{
    table.insert(name, position);
}

/// `FnvHashMap::get` gives the value under the key, if there is one.
#[verifier::external_body]
pub(crate) fn position_of<'a>(table: &'a FnvHashMap<String, usize>, name: &str) -> (found: Option<
    &'a usize,
>)
    ensures
        match found {
            Some(position) => positions(*table).contains_key(name@) && positions(*table)[name@]
                == *position,
            None => found is None && !positions(*table).contains_key(name@),
        },
{
    table.get(name)
}

/// `FnvHashMap::default` makes a table that holds nothing.
#[verifier::external_body]
pub(crate) fn empty_states() -> (table: FnvHashMap<String, BrightnessStateInternal>)
    ensures
        remembered(table) =~= Map::empty(),
{
    FnvHashMap::default()
}

/// `FnvHashMap::insert` puts the value under the key, in place of a value that was
/// there.
#[verifier::external_body]
pub(crate) fn insert_state(
    table: &mut FnvHashMap<String, BrightnessStateInternal>,
    name: String,
    state: BrightnessStateInternal,
)
    ensures
        remembered(*final(table)) == remembered(*old(table)).insert(name@, state),
{
    table.insert(name, state);
}

/// Whether a list holds each entry of a map once, in whatever order.
pub open spec fn lists_entries(
    list: Seq<(String, BrightnessStateInternal)>,
    map: Map<Seq<char>, BrightnessStateInternal>,
) -> bool {
    &&& forall|i: int|
        0 <= i < list.len() ==> map.contains_key((#[trigger] list[i]).0@) && map[list[i].0@]
            == list[i].1
    &&& forall|key: Seq<char>| #[trigger]
        map.contains_key(key) ==> exists|i: int| 0 <= i < list.len() && (#[trigger] list[i]).0@ == key
    &&& forall|i: int, j: int|
        0 <= i < j < list.len() ==> (#[trigger] list[i]).0@ != (#[trigger] list[j]).0@
}

/// `FnvHashMap::iter` goes over each key and its value once. The order in which
/// they come is not stated.
#[verifier::external_body]
pub(crate) fn state_entries(table: &FnvHashMap<String, BrightnessStateInternal>) -> (list: Vec<
    (String, BrightnessStateInternal),
>)
    ensures
        lists_entries(list@, remembered(*table)),
{
    table.iter().map(|(name, state)| (name.to_owned(), *state)).collect()
}

} // verus!
