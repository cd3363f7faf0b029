//! The pool service: an inventory of found keypairs kept for instant
//! consumption. The pool is consumed from the top (most recently added
//! first); refills are planned here and the search itself runs through the
//! search primitives. The embedding is expected to drive the maintenance
//! loop (plan a refill, run it, add the findings) on an execution context of
//! its own and to guard a shared service with a lock; each operation here is
//! a single atomic step of that protocol.

use crate::ends_with;
use crate::ends_with_spec;
use crate::format::parse_batch;
use crate::format::parse_batch_spec;
use crate::format::VanityError;
use crate::keypair::address_of;
use crate::keypair::base58_of;
use crate::keypair::decode_base58;
use crate::keypair::keypair_bytes_valid;
use crate::keypair::keypair_from_bytes;
use crate::keypair::VanityKey;
use vstd::prelude::*;

verus! {

/// The vanity-address service: a pool of found keypairs for one fixed
/// suffix, with the target size the maintenance loop tops it up to.
#[derive(Debug)]
pub struct VanityService {
    pub pool: Vec<VanityKey>,
    pub suffix: String,
    pub pool_size: usize,
}

/// Whether a persisted record can be loaded back for the given suffix: its
/// stored private key is the base58 rendering of some valid keypair whose
/// derived address ends with that suffix.
pub open spec fn record_loadable(rec: crate::format::RecordView, suffix: Seq<char>) -> bool {
    exists|b: Seq<u8>|
        rec.private_key == #[trigger] base58_of(b) && keypair_bytes_valid(b) && ends_with_spec(
            address_of(b), suffix)
}

impl VanityService {
    /// Every pooled keypair is well formed and its address ends with the
    /// service's suffix.
    pub open spec fn wf(&self) -> bool {
        forall|i: int| 0 <= i < self.pool@.len() ==> (#[trigger] self.pool@[i]).wf()
            && ends_with_spec(self.pool@[i].address@, self.suffix@)
    }

    /// Create a service with an empty pool. The embedding schedules the
    /// background maintenance loop that fills it.
    pub fn new(suffix: String, pool_size: usize) -> (r: VanityService)
        ensures
            r.wf(),
            r.pool@.len() == 0,
            r.suffix@ == suffix@,
            r.pool_size == pool_size,
    {
        VanityService { pool: Vec::new(), suffix, pool_size }
    }

    /// Create a service whose pool is pre-loaded from the text of a
    /// persisted batch document instead of searched for. The document must
    /// parse, its stored suffix must equal the requested one, and every
    /// stored private key must decode to a valid keypair whose address
    /// carries that suffix; otherwise nothing is loaded and the error says
    /// which condition failed first. The maintenance loop is not meant to
    /// run for a loaded service: the pre-generated pool is only consumed.
    pub fn from_file(content: &str, suffix: String, pool_size: usize) -> (r: Result<
        VanityService, VanityError>)
        ensures
            r matches Ok(svc) ==> {
                &&& svc.wf()
                &&& svc.suffix@ == suffix@
                &&& svc.pool_size == pool_size
                &&& parse_batch_spec(content@) matches Some(bv) && bv.suffix == suffix@
                    && svc.pool@.len() == bv.keypairs.len()
                    && (forall|i: int, b: Seq<u8>|
                        #![trigger svc.pool@[i], base58_of(b)]
                        0 <= i < bv.keypairs.len() && bv.keypairs[i].private_key == base58_of(b)
                            ==> svc.pool@[i].secret@ == b && svc.pool@[i].address@
                            == address_of(b))
            },
            r matches Err(e) ==> e == VanityError::MalformedDocument || e
                == VanityError::SuffixMismatch || e == VanityError::InvalidPrivateKey,
            r == Err::<VanityService, VanityError>(VanityError::MalformedDocument) <==> (
            parse_batch_spec(content@) is None || parse_batch_spec(content@).unwrap().count
                > usize::MAX),
            r == Err::<VanityService, VanityError>(VanityError::SuffixMismatch) <==> (
            parse_batch_spec(content@) matches Some(bv) && bv.count <= usize::MAX && bv.suffix
                != suffix@),
            r == Err::<VanityService, VanityError>(VanityError::InvalidPrivateKey) ==> (
            parse_batch_spec(content@) matches Some(bv) && bv.suffix == suffix@ && !(forall|i: int|
                0 <= i < bv.keypairs.len() ==> record_loadable(#[trigger] bv.keypairs[i],
                    suffix@))),
            (parse_batch_spec(content@) matches Some(bv) && bv.count <= usize::MAX && bv.suffix
                == suffix@ && (forall|i: int|
                0 <= i < bv.keypairs.len() ==> record_loadable(#[trigger] bv.keypairs[i],
                    suffix@))) ==> r is Ok,
    {
        let batch = match parse_batch(content) {
            Ok(b) => b,
            Err(e) => { return Err(e); },
        };
        if !(batch.suffix == suffix) {
            return Err(VanityError::SuffixMismatch);
        }
        let ghost bv = parse_batch_spec(content@).unwrap();
        let mut pool: Vec<VanityKey> = Vec::new();
        let mut idx: usize = 0;
        while idx < batch.keypairs.len()
            invariant
                idx <= batch.keypairs@.len(),
                pool@.len() == idx,
                bv == parse_batch_spec(content@).unwrap(),
                parse_batch_spec(content@) == Some(batch@),
                bv == batch@,
                suffix@ == batch.suffix@,
                forall|i: int| 0 <= i < idx ==> (#[trigger] pool@[i]).wf() && ends_with_spec(
                    pool@[i].address@, suffix@),
                forall|i: int, b: Seq<u8>|
                    #![trigger pool@[i], base58_of(b)]
                    0 <= i < idx && bv.keypairs[i].private_key == base58_of(b)
                        ==> pool@[i].secret@ == b,
            decreases batch.keypairs@.len() - idx,
        {
            let rec = &batch.keypairs[idx];
            proof {
                assert(bv.keypairs[idx as int] == batch@.keypairs[idx as int]);
            }
            let bytes = match decode_base58(rec.private_key.as_str()) {
                Some(v) => v,
                None => {
                    proof {
                        if record_loadable(bv.keypairs[idx as int], suffix@) {
                            let b = choose|b: Seq<u8>|
                                bv.keypairs[idx as int].private_key == base58_of(b)
                                    && keypair_bytes_valid(b) && ends_with_spec(address_of(b),
                                suffix@);
                            assert(rec.private_key@ == base58_of(b));
                            assert(false);
                        }
                    }
                    return Err(VanityError::InvalidPrivateKey);
                },
            };
            let key = match keypair_from_bytes(bytes.as_slice()) {
                Some(k) => k,
                None => {
                    proof {
                        if record_loadable(bv.keypairs[idx as int], suffix@) {
                            let b = choose|b: Seq<u8>|
                                bv.keypairs[idx as int].private_key == base58_of(b)
                                    && keypair_bytes_valid(b) && ends_with_spec(address_of(b),
                                suffix@);
                            assert(rec.private_key@ == base58_of(b));
                            assert(bytes@ == b);
                            assert(false);
                        }
                    }
                    return Err(VanityError::InvalidPrivateKey);
                },
            };
            if !ends_with(key.address.as_str(), suffix.as_str()) {
                proof {
                    if record_loadable(bv.keypairs[idx as int], suffix@) {
                        let b = choose|b: Seq<u8>|
                            bv.keypairs[idx as int].private_key == base58_of(b)
                                && keypair_bytes_valid(b) && ends_with_spec(address_of(b),
                            suffix@);
                        assert(rec.private_key@ == base58_of(b));
                        assert(bytes@ == b);
                        assert(key.address@ == address_of(b));
                        assert(false);
                    }
                }
                return Err(VanityError::InvalidPrivateKey);
            }
            pool.push(key);
            idx += 1;
        }
        Ok(VanityService { pool, suffix, pool_size })
    }

    /// Hand out the most recently added keypair, or report that none is
    /// available. Removes what it returns, so no keypair is ever handed out
    /// twice.
    pub fn get_next_vanity(&mut self) -> (r: Option<VanityKey>)
        requires
            old(self).wf(),
        ensures
            final(self).wf(),
            final(self).suffix == old(self).suffix,
            final(self).pool_size == old(self).pool_size,
            old(self).pool@.len() == 0 ==> r is None && final(self).pool@ == old(self).pool@,
            old(self).pool@.len() > 0 ==> (r matches Some(k) && k == old(self).pool@.last()
                && final(self).pool@ == old(self).pool@.drop_last() && k.wf() && ends_with_spec(
                k.address@, old(self).suffix@)),
    {
        self.pool.pop()
    }

    /// The number of keypairs currently pooled.
    pub fn pool_size(&self) -> (n: usize)
        ensures
            n == self.pool@.len(),
    {
        self.pool.len()
    }

    /// How many keypairs a refill must produce to bring the pool back to
    /// its target size: zero whenever the pool is already at or above it.
    pub fn refill_needed(&self) -> (n: usize)
        ensures
            self.pool@.len() >= self.pool_size ==> n == 0,
            self.pool@.len() < self.pool_size ==> n == self.pool_size - self.pool@.len(),
    {
        if self.pool.len() >= self.pool_size {
            0
        } else {
            self.pool_size - self.pool.len()
        }
    }

    /// Append the findings of a refill to the pool. A failed search task is
    /// reported as an empty batch, which leaves the pool unchanged.
    pub fn add_found(&mut self, found: Vec<VanityKey>)
        requires
            old(self).wf(),
            forall|i: int| 0 <= i < found@.len() ==> (#[trigger] found@[i]).wf()
                && ends_with_spec(found@[i].address@, old(self).suffix@),
        ensures
            final(self).wf(),
            final(self).suffix == old(self).suffix,
            final(self).pool_size == old(self).pool_size,
            final(self).pool@ == old(self).pool@ + found@,
    {
        let mut found = found;
        self.pool.append(&mut found);
    }
}

/// Successive pool draws never repeat: when the pool holds no duplicate
/// keypair, the keypair a draw hands out (the pool's last) differs from the
/// one the next draw hands out (the last of what remains).
pub proof fn lemma_draws_distinct(pool: Seq<VanityKey>)
    requires
        pool.no_duplicates(),
        pool.len() >= 2,
    ensures
        pool.last() != pool.drop_last().last(),
{
    assert(pool.last() == pool[pool.len() - 1]);
    assert(pool.drop_last().last() == pool[pool.len() - 2]);
}

/// Draining a duplicate-free pool hands out each keypair at most once: the
/// sequence of draws is the pool reversed, which holds no duplicates
/// either.
pub proof fn lemma_drain_no_duplicates(pool: Seq<VanityKey>)
    requires
        pool.no_duplicates(),
    ensures
        pool.reverse().no_duplicates(),
{
    let r = pool.reverse();
    assert forall|i: int, j: int| 0 <= i < r.len() && 0 <= j < r.len() && i != j implies r[i]
        != r[j] by {
        assert(r[i] == pool[pool.len() - 1 - i]);
        assert(r[j] == pool[pool.len() - 1 - j]);
    }
}

} // verus!
