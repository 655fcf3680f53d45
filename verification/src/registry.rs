//! The store registry: an immutable façade instance, holding the ordered
//! identifiers of its main and write-mostly stores and the write quorum
//! fixed at construction. The store handles themselves live with the
//! caller; the registry is the part of the façade the reconcilers need.

use vstd::prelude::*;

verus! {

/// One multiplexing façade: its identifier, its store topology, and the
/// minimum number of confirmed writes that makes a put durable.
///
/// Main stores are read from under normal operation; write-mostly stores
/// take part in every write but are only read as a fallback or for
/// diagnostics. Both lists are fixed for the façade's lifetime.
pub struct MultiplexedBlobstoreBase {
    multiplex_id: i32,
    blobstores: Vec<u64>,
    write_mostly_blobstores: Vec<u64>,
    minimum_successful_writes: usize,
}

impl MultiplexedBlobstoreBase {
    /// The façade's identifier.
    pub closed spec fn spec_multiplex_id(&self) -> i32 {
        self.multiplex_id
    }

    /// The identifiers of the main stores, in registration order.
    pub closed spec fn spec_main_ids(&self) -> Seq<u64> {
        self.blobstores@
    }

    /// The identifiers of the write-mostly stores, in registration order.
    pub closed spec fn spec_write_mostly_ids(&self) -> Seq<u64> {
        self.write_mostly_blobstores@
    }

    /// The configured write quorum.
    pub closed spec fn spec_quorum(&self) -> int {
        self.minimum_successful_writes as int
    }

    /// How many stores the façade fans out to in total.
    pub open spec fn spec_total_stores(&self) -> int {
        self.spec_main_ids().len() + self.spec_write_mostly_ids().len() as int
    }

    /// A façade is well formed when its quorum is at least one (a put must
    /// be confirmed somewhere to count) and its store count fits the
    /// machine.
    pub open spec fn wf(&self) -> bool {
        &&& self.spec_quorum() >= 1
        &&& self.spec_main_ids().len() + self.spec_write_mostly_ids().len() <= usize::MAX
    }

    /// Builds a façade over the given stores.
    ///
    /// The quorum must be at least one; a quorum larger than the store
    /// count is allowed and makes every write fail, which is intentional.
    pub fn new(
        multiplex_id: i32,
        blobstores: Vec<u64>,
        write_mostly_blobstores: Vec<u64>,
        minimum_successful_writes: usize,
    ) -> (r: Self)
        requires
            minimum_successful_writes >= 1,
            blobstores@.len() + write_mostly_blobstores@.len() <= usize::MAX,
        ensures
            r.wf(),
            r.spec_multiplex_id() == multiplex_id,
            r.spec_main_ids() == blobstores@,
            r.spec_write_mostly_ids() == write_mostly_blobstores@,
            r.spec_quorum() == minimum_successful_writes,
    {
        MultiplexedBlobstoreBase {
            multiplex_id,
            blobstores,
            write_mostly_blobstores,
            minimum_successful_writes,
        }
    }

    /// The façade's identifier.
    pub fn multiplex_id(&self) -> (r: i32)
        ensures
            r == self.spec_multiplex_id(),
    {
        self.multiplex_id
    }

    /// The identifiers of the main stores, in registration order.
    pub fn main_ids(&self) -> (r: &Vec<u64>)
        ensures
            r@ == self.spec_main_ids(),
    {
        &self.blobstores
    }

    /// The identifiers of the write-mostly stores, in registration order.
    pub fn write_mostly_ids(&self) -> (r: &Vec<u64>)
        ensures
            r@ == self.spec_write_mostly_ids(),
    {
        &self.write_mostly_blobstores
    }

    /// The configured write quorum.
    pub fn minimum_successful_writes(&self) -> (r: usize)
        ensures
            r == self.spec_quorum(),
    {
        self.minimum_successful_writes
    }

    /// How many stores the façade fans out to in total.
    pub fn total_stores(&self) -> (r: usize)
        requires
            self.wf(),
        ensures
            r == self.spec_total_stores(),
    {
        self.blobstores.len() + self.write_mostly_blobstores.len()
    }

    /// A private copy of the main store identifiers, for reconciler state.
    pub fn main_ids_copy(&self) -> (r: Vec<u64>)
        ensures
            r@ == self.spec_main_ids(),
    {
        crate::outcome::copy_list(&self.blobstores)
    }
}

} // verus!
