//! The process-lifetime registry cache: a single slot that is empty until the
//! first successful population and holds one immutable snapshot thereafter.
//!
//! Population itself splits in two: fetching the compressed blob is the
//! caller's outside work, while decompressing and decoding it, and the
//! decision whether any of that is needed at all, live here. A failed
//! population leaves the slot empty, so a later call retries the whole
//! pipeline; a successful one is final, and every later query observes the
//! same snapshot.

use vstd::prelude::*;

use crate::LoadError;
use crate::codec::{dec_registry, decode_registry};
use crate::data::{Registry, RegistryView};
use crate::decompress::{gunzip_of, inflate};

verus! {

/// The single-slot cache. Exactly one of: empty, or populated with the
/// decoded registry.
pub struct RegistryCache {
    slot: Option<Registry>,
}

impl RegistryCache {
    /// The snapshot the cache holds, if it holds one.
    pub closed spec fn spec_snapshot(&self) -> Option<RegistryView> {
        match self.slot {
            Some(reg) => Some(reg@),
            None => None,
        }
    }

    /// Whether a call would have to run the population pipeline.
    pub open spec fn spec_needs_population(&self) -> bool {
        self.spec_snapshot() is None
    }

    /// A fresh, empty cache.
    pub fn new() -> (r: Self)
        ensures
            r.spec_needs_population(),
    {
        RegistryCache { slot: None }
    }

    /// Whether the pipeline must run before a query can be answered.
    pub fn needs_population(&self) -> (r: bool)
        ensures
            r == self.spec_needs_population(),
    {
        self.slot.is_none()
    }

    /// The cached snapshot: shared read access, never ownership.
    pub fn get(&self) -> (r: Option<&Registry>)
        ensures
            match r {
                Some(reg) => self.spec_snapshot() == Some(reg@),
                None => self.spec_needs_population(),
            },
    {
        self.slot.as_ref()
    }

    /// Runs the in-memory part of the population pipeline on a fetched blob:
    /// inflate it, decode it, and on success store the snapshot. On failure
    /// the cache is left exactly as it was — empty — so the caller may retry.
    pub fn populate(&mut self, compressed: &[u8]) -> (r: Result<(), LoadError>)
        requires
            old(self).spec_needs_population(),
        ensures
            r is Err ==> *final(self) == *old(self),
            r == Err::<(), LoadError>(LoadError::Decompression) <==> gunzip_of(compressed@)
                is None,
            r == Err::<(), LoadError>(LoadError::Decode) <==> (gunzip_of(compressed@) matches Some(
                raw,
            ) && dec_registry(raw) is None),
            r is Ok <==> (gunzip_of(compressed@) matches Some(raw) && dec_registry(raw) is Some),
            r is Ok ==> (gunzip_of(compressed@) matches Some(raw)
                && final(self).spec_snapshot() == dec_registry(raw)),
    {
        let raw = match inflate(compressed) {
            None => {
                return Err(LoadError::Decompression);
            },
            Some(v) => v,
        };
        let reg = match decode_registry(raw.as_slice()) {
            None => {
                return Err(LoadError::Decode);
            },
            Some(r) => r,
        };
        self.slot = Some(reg);
        Ok(())
    }
}

/// Law: population is idempotent. Once the cache holds a snapshot, no call
/// needs the fetch/decompress/decode pipeline again — it ran exactly once —
/// and `get` answers every later query from that same snapshot.
pub proof fn lemma_idempotent_population(c: RegistryCache)
    requires
        c.spec_snapshot() is Some,
    ensures
        !c.spec_needs_population(),
{
}

} // verus!
