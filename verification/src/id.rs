//! Stable opaque handles, scoped by entity kind.
//!
//! Materials and groups are referred to by 32-bit handles rather than by
//! position, so that rules stay referentially stable when the entity lists
//! are reordered. Handles of different kinds live in distinct tag spaces:
//! the kind is encoded in the type parameter.

use core::marker::PhantomData;
use vstd::prelude::*;

verus! {

/// An entity that carries a kind-tagged 32-bit handle.
pub trait Identifiable: Sized {
    /// The numeric value of this entity's handle.
    spec fn spec_id(&self) -> u32;

    fn id(&self) -> (r: UniqueId<Self>)
        ensures
            r@ == self.spec_id(),
    ;
}

/// Opaque 32-bit identifier, nominally tagged by the kind of entity it names.
/// Two handles of the same kind compare equal iff numerically equal.
#[derive(Debug)]
pub struct UniqueId<T>(u32, PhantomData<T>);

impl<T> View for UniqueId<T> {
    type V = u32;

    closed spec fn view(&self) -> u32 {
        self.0
    }
}

impl<T> Clone for UniqueId<T> {
    fn clone(&self) -> (r: Self)
        ensures
            r == *self,
    {
        UniqueId(self.0, PhantomData)
    }
}

impl<T> Copy for UniqueId<T> {

}

impl<T> PartialEq for UniqueId<T> {
    fn eq(&self, other: &Self) -> (r: bool) {
        self.0 == other.0
    }
}

impl<T> Eq for UniqueId<T> {

}

impl<T> vstd::std_specs::cmp::PartialEqSpecImpl for UniqueId<T> {
    open spec fn obeys_eq_spec() -> bool {
        true
    }

    open spec fn eq_spec(&self, other: &Self) -> bool {
        self@ == other@
    }
}

/// Relies on rand::random: draws a fresh 32-bit value. Nothing is promised
/// of the result; callers state what holds of every outcome.
#[verifier::external_body]
fn random_u32() -> u32 {
    rand::random()
}

/// True iff some entity in `current` already carries the handle value `id`.
fn contains_id<T: Identifiable>(current: &[T], id: u32) -> (r: bool)
    ensures
        r == exists|i: int| 0 <= i < current@.len() && current@[i].spec_id() == id,
{
    let n: usize = current.len();
    let mut k: usize = 0;
    while k < n
        invariant
            n == current@.len(),
            0 <= k <= n,
            forall|i: int| 0 <= i < k ==> current@[i].spec_id() != id,
        decreases n - k,
    {
        let item: &T = vstd::slice::slice_index_get(current, k);
        if item.id().get() == id {
            assert(current@[k as int].spec_id() == id);
            return true;
        }
        k = k + 1;
    }
    false
}

/// Among the values `0 ..= ids.len()` at least one is free: `ids` is too
/// short to cover them all.
proof fn lemma_small_value_free(ids: Seq<u32>) -> (v: u32)
    requires
        ids.len() < u32::MAX as nat,
    ensures
        v <= ids.len(),
        forall|i: int| 0 <= i < ids.len() ==> ids[i] != v,
{
    broadcast use vstd::seq_lib::seq_to_set_is_finite;

    let as_ints = ids.map_values(|u: u32| u as int);
    let taken = as_ints.to_set();
    let range = vstd::set_lib::set_int_range(0, ids.len() as int + 1);
    vstd::set_lib::lemma_int_range(0, ids.len() as int + 1);
    as_ints.lemma_cardinality_of_set();
    if forall|w: int| range.contains(w) ==> #[trigger] taken.contains(w) {
        assert(range.subset_of(taken));
        vstd::set_lib::lemma_len_subset(range, taken);
        assert(false);
        0
    } else {
        let w = choose|w: int| range.contains(w) && !(#[trigger] taken.contains(w));
        assert forall|i: int| 0 <= i < ids.len() implies ids[i] != w as u32 by {
            if ids[i] == w as u32 {
                assert(as_ints[i] == w);
                assert(taken.contains(w));
            }
        }
        w as u32
    }
}

impl<T: Identifiable> UniqueId<T> {
    /// Sample random 32-bit values, retrying until one is free among
    /// `current`; random handles keep rules referentially stable when the
    /// entity lists are reordered. After a bounded number of draws, fall
    /// back to the smallest free value, which exists because `current` is
    /// too short to cover all candidates.
    pub fn new(current: &[T]) -> (r: Self)
        requires
            current@.len() < u32::MAX as nat,
        ensures
            forall|i: int| 0 <= i < current@.len() ==> current@[i].spec_id() != r@,
    {
        let mut tries: usize = 0;
        while tries < 64
            decreases 64 - tries,
        {
            let candidate: u32 = random_u32();
            if !contains_id(current, candidate) {
                return UniqueId(candidate, PhantomData);
            }
            tries = tries + 1;
        }
        let n: usize = current.len();
        let ghost ids = current@.map_values(|m: T| m.spec_id());
        let ghost taken = ids.map_values(|u: u32| u as int).to_set();
        let mut c: usize = 0;
        while c <= n
            invariant
                n == current@.len(),
                n < u32::MAX as nat,
                c <= n + 1,
                ids == current@.map_values(|m: T| m.spec_id()),
                taken == ids.map_values(|u: u32| u as int).to_set(),
                forall|v: int| 0 <= v < c ==> #[trigger] taken.contains(v),
            decreases n + 1 - c,
        {
            if !contains_id(current, c as u32) {
                return UniqueId(c as u32, PhantomData);
            }
            proof {
                let i = choose|i: int|
                    0 <= i < current@.len() && current@[i].spec_id() == c as u32;
                assert(ids.map_values(|u: u32| u as int)[i] == c as int);
                assert(taken.contains(c as int));
            }
            c = c + 1;
        }
        proof {
            let v = lemma_small_value_free(ids);
            assert(taken.contains(v as int));
            let as_ints = ids.map_values(|u: u32| u as int);
            assert(as_ints.contains(v as int));
            let j = choose|j: int| 0 <= j < as_ints.len() && #[trigger] as_ints[j] == v as int;
            assert(ids[j] == v);
            assert(false);
        }
        vstd::pervasive::unreached()
    }

}

impl<T> UniqueId<T> {
    /// Wrap a raw handle value without any uniqueness check, as when reading
    /// a persisted rule set that is expected to be consistent.
    pub fn new_unchecked(id: u32) -> (r: Self)
        ensures
            r@ == id,
    {
        UniqueId(id, PhantomData)
    }

    /// The numeric value of the handle.
    pub fn get(self) -> (r: u32)
        ensures
            r == self@,
    {
        self.0
    }
}

} // verus!
