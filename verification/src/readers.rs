//! A registry of per-block-content readers, keyed by content id.
//!
//! Small non-negative ids are the common case and live in a fixed table;
//! any other id goes to a hash map.

use vstd::prelude::*;

use std::collections::HashMap;

verus! {

broadcast use vstd::std_specs::hash::group_hash_axioms;

/// Relies on HashMap::get_mut: a mutable borrow of the value at `id`,
/// present exactly when the key is present.
#[verifier::external_body]
fn map_get_mut<R>(m: &mut HashMap<i32, R>, id: i32) -> (r: Option<&mut R>)
    ensures
        match r {
            Some(x) => old(m)@.contains_key(id) && *x == old(m)@[id] && final(m)@ == old(
                m,
            )@.insert(id, *final(x)),
            None => !old(m)@.contains_key(id) && final(m)@ == old(m)@,
        },
{
    m.get_mut(&id)
}

/// A fixed table of 64 empty slots.
fn init_low_readers<R>() -> (r: Vec<Option<R>>)
    ensures
        r@.len() == 64,
        forall|i: int| 0 <= i < 64 ==> (#[trigger] r@[i]) is None,
{
    let mut v: Vec<Option<R>> = Vec::new();
    let mut i: usize = 0;
    while i < 64
        invariant
            0 <= i <= 64,
            v@.len() == i,
            forall|j: int| 0 <= j < i ==> (#[trigger] v@[j]) is None,
        decreases 64 - i,
    {
        v.push(None);
        i += 1;
    }
    v
}

/// Readers for external data blocks, looked up by content id.
pub struct ExternalDataReaders<R> {
    low_readers: Vec<Option<R>>,
    high_readers: HashMap<i32, R>,
}

impl<R> ExternalDataReaders<R> {
    /// The fixed table for ids 0 through 63.
    pub closed spec fn spec_low(self) -> Seq<Option<R>> {
        self.low_readers@
    }

    /// The map for every other id.
    pub closed spec fn spec_high(self) -> Map<i32, R> {
        self.high_readers@
    }

    /// The fixed table always has exactly 64 slots.
    pub open spec fn wf(self) -> bool {
        self.spec_low().len() == 64
    }

    /// An empty registry.
    pub fn new() -> (r: Self)
        ensures
            r.wf(),
            forall|i: int| 0 <= i < 64 ==> (#[trigger] r.spec_low()[i]) is None,
            r.spec_high() == Map::<i32, R>::empty(),
    {
        ExternalDataReaders { low_readers: init_low_readers(), high_readers: HashMap::new() }
    }

    /// Registers a reader under `id`, replacing any reader already
    /// there.
    pub fn insert(&mut self, id: i32, reader: R)
        requires
            old(self).wf(),
        ensures
            final(self).wf(),
            0 <= id <= 63 ==> final(self).spec_low() == old(self).spec_low().update(
                id as int,
                Some(reader),
            ) && final(self).spec_high() == old(self).spec_high(),
            !(0 <= id <= 63) ==> final(self).spec_high() == old(self).spec_high().insert(
                id,
                reader,
            ) && final(self).spec_low() == old(self).spec_low(),
    {
        if 0 <= id && id <= 63 {
            self.low_readers.set(id as usize, Some(reader));
        } else {
            self.high_readers.insert(id, reader);
        }
    }

    /// A mutable borrow of the reader registered under `id`, if any.
    pub fn get_mut(&mut self, id: &i32) -> (r: Option<&mut R>)
        requires
            old(self).wf(),
        ensures
            final(self).wf(),
            0 <= *id <= 63 ==> final(self).spec_high() == old(self).spec_high() && (match r {
                Some(x) => old(self).spec_low()[*id as int] == Some(*x)
                    && final(self).spec_low() == old(self).spec_low().update(
                    *id as int,
                    Some(*final(x)),
                ),
                None => old(self).spec_low()[*id as int] is None && final(self).spec_low()
                    =~= old(self).spec_low(),
            }),
            !(0 <= *id <= 63) ==> final(self).spec_low() == old(self).spec_low() && (match r {
                Some(x) => old(self).spec_high().contains_key(*id) && *x == old(
                    self,
                ).spec_high()[*id] && final(self).spec_high() == old(self).spec_high().insert(
                    *id,
                    *final(x),
                ),
                None => !old(self).spec_high().contains_key(*id) && final(self).spec_high()
                    == old(self).spec_high(),
            }),
    {
        let i = *id;
        if 0 <= i && i <= 63 {
            let slot = &mut self.low_readers[i as usize];
            slot.as_mut()
        } else {
            map_get_mut(&mut self.high_readers, i)
        }
    }
}

} // verus!
