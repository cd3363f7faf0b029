//! The brute-force search primitives: a bounded sequential burst that every
//! worker runs, a racing search that returns the first hit across all
//! workers, and a batch search that collects an exact number of matches.

use rayon::iter::{IntoParallelIterator, ParallelIterator};

use crate::ends_with;
use crate::ends_with_spec;
use crate::keypair::gen_keypair_fast;
use crate::keypair::VanityKey;
use crate::pool::VanityService;
use vstd::prelude::*;

verus! {

/// How many generation attempts a batch-search worker makes between looks at
/// the shared state.
pub const BATCH_BURST: usize = 5000;

/// How many generation attempts a racing worker makes per round.
pub const RACE_BURST: usize = 10000;

/// One bounded burst of the race: generate up to `attempts` keypairs and
/// return the first whose address carries the suffix, if any.
fn search_burst_one(suffix: &str, attempts: usize) -> (r: Option<VanityKey>)
    ensures
        r matches Some(k) ==> k.wf() && ends_with_spec(k.address@, suffix@),
{
    let mut t: usize = 0;
    while t < attempts
        invariant
            t <= attempts,
        decreases attempts - t,
    {
        let k = gen_keypair_fast();
        if ends_with(k.address.as_str(), suffix) {
            return Some(k);
        }
        t += 1;
    }
    None
}

/// One bounded burst of the batch search: generate `attempts` keypairs and
/// keep every one whose address carries the suffix.
fn search_burst_list(suffix: &str, attempts: usize) -> (r: Vec<VanityKey>)
    ensures
        forall|i: int| 0 <= i < r@.len() ==> (#[trigger] r@[i]).wf() && ends_with_spec(
            r@[i].address@, suffix@),
{
    let mut out: Vec<VanityKey> = Vec::new();
    let mut t: usize = 0;
    while t < attempts
        invariant
            t <= attempts,
            forall|i: int| 0 <= i < out@.len() ==> (#[trigger] out@[i]).wf() && ends_with_spec(
                out@[i].address@, suffix@),
        decreases attempts - t,
    {
        let k = gen_keypair_fast();
        if ends_with(k.address.as_str(), suffix) {
            out.push(k);
        }
        t += 1;
    }
    out
}

/// Relies on `rayon`'s `find_map_any` run over one closure per worker of the
/// current thread pool (at least two workers): whatever it returns was
/// produced by a call of the verified burst search, and rounds repeat until
/// some worker reports a hit, so the call blocks rather than fail. Like the
/// search it implements, it has no bound on its running time.
#[verifier::external_body]
fn par_race(suffix: &str, burst: usize) -> (k: VanityKey)
    ensures
        k.wf(),
        ends_with_spec(k.address@, suffix@),
{
    let workers = rayon::current_num_threads().max(2);
    loop {
        let hit = (0..workers).into_par_iter().find_map_any(|_| search_burst_one(suffix, burst));
        if let Some(k) = hit {
            return k;
        }
    }
}

/// Relies on `rayon`'s `flat_map_iter` and `collect` run over one closure
/// per worker of the current thread pool (at least two workers): every
/// element collected was produced by a call of the verified burst search,
/// and rounds repeat until some worker finds a match, so the result is
/// nonempty. Like the search it implements, it has no bound on its running
/// time.
#[verifier::external_body]
fn par_collect_some(suffix: &str, burst: usize) -> (r: Vec<VanityKey>)
    ensures
        r@.len() >= 1,
        forall|i: int| 0 <= i < r@.len() ==> (#[trigger] r@[i]).wf() && ends_with_spec(
            r@[i].address@, suffix@),
{
    let workers = rayon::current_num_threads().max(2);
    loop {
        let found: Vec<VanityKey> = (0..workers).into_par_iter().flat_map_iter(
            |_| search_burst_list(suffix, burst)).collect();
        if !found.is_empty() {
            return found;
        }
    }
}

impl VanityService {
    /// Generate a single keypair whose address ends with `suffix`, racing
    /// all workers and returning the first hit. Never returns without a
    /// match; it keeps searching in rounds for as long as it takes.
    pub fn generate_single_vanity(suffix: &str) -> (k: VanityKey)
        ensures
            k.wf(),
            ends_with_spec(k.address@, suffix@),
    {
        par_race(suffix, RACE_BURST)
    }

    /// Generate exactly `count` keypairs whose addresses end with `suffix`,
    /// collecting matches from all workers as they are found. Any matches
    /// the workers overshoot beyond `count` are dropped. Blocks until the
    /// full batch is collected; a request for zero returns an empty batch at
    /// once.
    pub fn generate_vanity_batch(suffix: &str, count: usize) -> (r: Vec<VanityKey>)
        ensures
            r@.len() == count,
            forall|i: int| 0 <= i < r@.len() ==> (#[trigger] r@[i]).wf() && ends_with_spec(
                r@[i].address@, suffix@),
    {
        let mut out: Vec<VanityKey> = Vec::new();
        while out.len() < count
            invariant
                out@.len() <= count,
                forall|i: int| 0 <= i < out@.len() ==> (#[trigger] out@[i]).wf()
                    && ends_with_spec(out@[i].address@, suffix@),
            decreases count - out.len(),
        {
            let mut found = par_collect_some(suffix, BATCH_BURST);
            let ghost pre_len = out@.len();
            while found.len() > 0 && out.len() < count
                invariant
                    pre_len <= out@.len() <= count,
                    pre_len < count,
                    out@.len() > pre_len || found@.len() >= 1,
                    forall|i: int| 0 <= i < found@.len() ==> (#[trigger] found@[i]).wf()
                        && ends_with_spec(found@[i].address@, suffix@),
                    forall|i: int| 0 <= i < out@.len() ==> (#[trigger] out@[i]).wf()
                        && ends_with_spec(out@[i].address@, suffix@),
                decreases found@.len(),
            {
                let k = found.remove(0);
                out.push(k);
            }
            proof {
                assert(out@.len() > pre_len);
            }
        }
        out
    }
}

} // verus!
