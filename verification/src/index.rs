//! The duplicate index: for each grouping key, the files found unique so far.

use vstd::prelude::*;
use vstd::slice::slice_to_vec;
use nohash_hasher::{BuildNoHashHasher, IntMap};

verus! {

/// The hasher of `nohash_hasher`, which hands an integer key on as its own hash.
#[verifier::external_type_specification]
#[verifier::external_body]
#[verifier::reject_recursive_types(T)]
pub struct ExNoHashHasher<T>(nohash_hasher::NoHashHasher<T>);

/// The standard builder that makes each hasher by `Default`.
#[verifier::external_type_specification]
#[verifier::external_body]
#[verifier::reject_recursive_types(H)]
pub struct ExBuildHasherDefault<H>(core::hash::BuildHasherDefault<H>);

/// From grouping key to the files with that key that are known to differ from
/// one another, each named by its position in the listing, oldest first.
pub type Index = IntMap<usize, Vec<usize>>;

/// The largest capacity that an index is made with: a table for more would not
/// fit the address space.
pub const CAPACITY_LIMIT: usize = usize::MAX / 256;

/// The capacity to give the index for a listing that expects at least `lower`
/// and, where it knows, at most `upper` entries: the upper bound where there is
/// one, else the lower.
pub open spec fn spec_capacity_hint(lower: usize, upper: Option<usize>) -> usize {
    match upper {
        Some(size) => size,
        None => lower,
    }
}

/// The capacity to give the index for a listing with the given size hint.
#[verifier::when_used_as_spec(spec_capacity_hint)]
pub fn capacity_hint(lower: usize, upper: Option<usize>) -> (capacity: usize)
    ensures
        capacity == spec_capacity_hint(lower, upper),
{
    match upper {
        Some(size) => size,
        None => lower,
    }
}

/// What the index holds: for each key its bucket, oldest member first.
pub open spec fn buckets(m: &Index) -> Map<usize, Seq<usize>> {
    Map::new(|k: usize| m@.contains_key(k), |k: usize| m@[k]@)
}

/// The buckets after `file` has been registered under `key`.
pub open spec fn spec_register(b: Map<usize, Seq<usize>>, key: usize, file: usize) -> Map<
    usize,
    Seq<usize>,
> {
    if b.contains_key(key) {
        b.insert(key, b[key].push(file))
    } else {
        b.insert(key, seq![file])
    }
}

/// Trusted: `HashMap::with_capacity_and_hasher`, given the default
/// `BuildNoHashHasher`. The standard library documents the new map as empty;
/// the capacity only reserves room. A capacity whose table would not fit the
/// address space is left out.
#[verifier::external_body]
fn with_capacity_and_hasher(capacity: usize) -> (index: Index)
    requires
        capacity <= CAPACITY_LIMIT,
    ensures
        index@.dom() == Set::<usize>::empty(),
{
    IntMap::with_capacity_and_hasher(capacity, BuildNoHashHasher::default())
}

/// Trusted: `HashMap::get` on an index. The hasher of `nohash_hasher` keeps the
/// one `usize` written to it and returns it as the hash, so equal keys hash
/// alike, in every process; the lookup then finds the bucket stored under
/// `key` exactly where one is stored.
#[verifier::external_body]
pub(crate) fn bucket_of<'a>(m: &'a Index, key: usize) -> (found: Option<&'a Vec<usize>>)
    ensures
        match found {
            Some(bucket) => m@.contains_key(key) && *bucket == m@[key],
            None => !m@.contains_key(key),
        },
{
    m.get(&key)
}

/// Trusted: `HashMap::insert` on an index. The map afterwards holds `bucket`
/// under `key` and is otherwise unchanged; the bucket that `key` had before,
/// if any, is returned.
#[verifier::external_body]
pub(crate) fn insert_bucket(m: &mut Index, key: usize, bucket: Vec<usize>) -> (before: Option<Vec<usize>>)
    ensures
        final(m)@ == old(m)@.insert(key, bucket),
        match before {
            Some(b) => old(m)@.contains_key(key) && b == old(m)@[key],
            None => !old(m)@.contains_key(key),
        },
{
    m.insert(key, bucket)
}

/// Trusted: `HashMap::get_mut` on an index. Where a bucket is stored under
/// `key`, the borrow is of that bucket, and whatever the caller leaves in it is
/// what the map then holds under `key`, all else unchanged. Where none is
/// stored, the map stays as it was.
#[verifier::external_body]
pub(crate) fn bucket_of_mut<'a>(m: &'a mut Index, key: usize) -> (found: Option<&'a mut Vec<usize>>)
    ensures
        match found {
            Some(bucket) => old(m)@.contains_key(key) && *bucket == old(m)@[key]
                && final(m)@ == old(m)@.insert(key, *final(bucket)),
            None => !old(m)@.contains_key(key) && final(m)@ == old(m)@,
        },
{
    m.get_mut(&key)
}

/// An empty index, sized for a listing with the given size hint. The hint is
/// to stay within `CAPACITY_LIMIT`.
pub fn map_from_iter(lower: usize, upper: Option<usize>) -> (m: Index)
    requires
        spec_capacity_hint(lower, upper) <= CAPACITY_LIMIT,
    ensures
        buckets(&m) == Map::<usize, Seq<usize>>::empty(),
        m@.dom() == Set::<usize>::empty(),
{
    let m = with_capacity_and_hasher(capacity_hint(lower, upper));
    assert(buckets(&m) =~= Map::<usize, Seq<usize>>::empty());
    m
}

/// Files the newly found unique `file` under `key`: at the end of the bucket
/// where the key has one, else as the only member of a new bucket.
pub(crate) fn register(m: &mut Index, key: usize, file: usize)
    ensures
        buckets(final(m)) == spec_register(buckets(old(m)), key, file),
{
    match bucket_of_mut(m, key) {
        Some(bucket) => {
            bucket.push(file);
        },
        None => {
            let mut bucket: Vec<usize> = Vec::new();
            bucket.push(file);
            insert_bucket(m, key, bucket);
        },
    }
    assert(buckets(m) =~= spec_register(buckets(old(m)), key, file));
}

/// The members of the bucket of `key`, oldest first; `None` where no file with
/// that key has been registered.
pub fn members(m: &Index, key: usize) -> (found: Option<Vec<usize>>)
    ensures
        match found {
            Some(bucket) => buckets(m).contains_key(key) && bucket@ == buckets(m)[key],
            None => !buckets(m).contains_key(key),
        },
{
    match bucket_of(m, key) {
        Some(bucket) => Some(slice_to_vec(bucket.as_slice())),
        None => None,
    }
}

} // verus!
