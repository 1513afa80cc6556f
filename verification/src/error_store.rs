//! The table of stored errors behind opaque negative identifiers.
//!
//! A failure that crosses the foreign boundary is returned as a
//! negative identifier; the caller trades it back for the error's
//! details exactly once. Identifiers are drawn at random from
//! `[i32::MIN, -4096]`: the range `[-4095, -1]` stays reserved so a
//! caller who wrongly reads the value as a negated errno can never
//! collide with a real one — a stable contract.
//!
//! Freshness cannot rest on luck, so the table keeps a high-water
//! mark below which no identifier has ever been handed out: a drawn
//! identifier that collides (or falls at or below the mark) is
//! discarded for the mark itself, which is free by construction.

use std::collections::HashMap;

use rand::Rng;
use vstd::prelude::*;

use crate::error::Error;

verus! {

broadcast use vstd::std_specs::hash::group_hash_axioms;

/// The greatest identifier a caller may ever see; the least is
/// `i32::MIN`.
pub const MAX_ERROR_ID: i32 = -4096;

/// Draw a candidate error identifier.
///
/// Relies on `rand::Rng::gen_range` over `i32::MIN..=-4096`: the
/// result lies within the (non-empty) given range. Nothing else is
/// assumed of it — the caller must cope with any value drawn.
#[verifier::external_body]
fn random_error_id() -> (r: i32)
    ensures
        r <= MAX_ERROR_ID,
{
    rand::thread_rng().gen_range(i32::MIN..=MAX_ERROR_ID)
}

/// The stored-error table: errors keyed by the opaque negative
/// identifier handed across the foreign boundary.
pub struct ErrorStore {
    errors: HashMap<i32, Error>,
    /// No identifier at or below this mark is stored.
    floor_id: i32,
}

impl ErrorStore {
    /// The stored identifiers and their errors.
    pub closed spec fn view(&self) -> Map<i32, Error> {
        self.errors@
    }

    /// Every stored identifier is in `(floor, -4096]`.
    pub closed spec fn wf(&self) -> bool {
        &&& self.floor_id <= MAX_ERROR_ID
        &&& forall|id: i32|
            self.errors@.dom().contains(id) ==> self.floor_id < id <= MAX_ERROR_ID
    }

    /// Whether a fresh identifier can still be handed out. Exhausting
    /// this takes on the order of `2^31` stored errors.
    pub closed spec fn has_capacity_spec(&self) -> bool {
        self.floor_id > i32::MIN
    }

    /// Whether a fresh identifier can still be handed out.
    pub fn has_capacity(&self) -> (r: bool)
        ensures
            r == self.has_capacity_spec(),
    {
        self.floor_id > i32::MIN
    }

    /// An empty table.
    pub fn new() -> (r: ErrorStore)
        ensures
            r.wf(),
            r.has_capacity_spec(),
            r@ == Map::<i32, Error>::empty(),
    {
        ErrorStore { errors: HashMap::new(), floor_id: MAX_ERROR_ID }
    }

    /// How many errors are stored.
    pub fn len(&self) -> (r: usize)
        ensures
            r == self@.dom().len(),
    {
        self.errors.len()
    }

    /// Store an error and hand out an identifier for it: at most
    /// `-4096`, distinct from every identifier currently stored, and
    /// now mapped to the error.
    pub fn store(&mut self, err: Error) -> (id: i32)
        requires
            old(self).wf(),
            old(self).has_capacity_spec(),
        ensures
            final(self).wf(),
            id <= MAX_ERROR_ID,
            !old(self)@.dom().contains(id),
            final(self)@ == old(self)@.insert(id, err),
    {
        let drawn = random_error_id();
        if drawn > self.floor_id && !self.errors.contains_key(&drawn) {
            self.errors.insert(drawn, err);
            return drawn;
        }
        let id = self.floor_id;
        self.floor_id = self.floor_id - 1;
        self.errors.insert(id, err);
        id
    }

    /// Trade an identifier back for its error, removing it: the
    /// identifier becomes free for re-use.
    pub fn take(&mut self, id: i32) -> (r: Option<Error>)
        requires
            old(self).wf(),
        ensures
            final(self).wf(),
            match r {
                Some(e) => old(self)@.dom().contains(id) && e == old(self)@[id] && final(self)@
                    == old(self)@.remove(id),
                None => !old(self)@.dom().contains(id) && final(self)@ == old(self)@,
            },
    {
        self.errors.remove(&id)
    }
}

} // verus!
