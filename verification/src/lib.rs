//! A vanity-keypair search-and-pool engine: brute-force searches for
//! keypairs whose textual address ends with a chosen suffix, a pool that
//! keeps found keypairs ready for instant consumption, and a persistence
//! format for saving and reloading batches of found keys — one-shot or
//! appended chunk by chunk as a long run produces them.
//!
//! The suffix test lives here at the root; the components are
//! [`keypair`] (the keypair model and its trusted boundary), [`search`]
//! (the parallel search primitives), [`pool`] (the consumer-facing
//! service), [`format`] (the batch document codec and its round-trip
//! proof), and [`live`] (chunked live-mode generation).

pub mod format;
pub mod keypair;
pub mod live;
pub mod pool;
pub mod search;

use vstd::prelude::*;

verus! {

/// True iff `s` ends with `pat` as a literal, byte-exact suffix.
/// An empty `pat` matches every string.
pub open spec fn ends_with_spec(s: Seq<char>, pat: Seq<char>) -> bool {
    pat.len() <= s.len() && s.subrange(s.len() - pat.len(), s.len() as int) == pat
}

/// Literal, case-sensitive suffix test on strings.
pub fn ends_with(s: &str, pat: &str) -> (r: bool)
    ensures
        r == ends_with_spec(s@, pat@),
{
    let n: usize = s.unicode_len();
    let m: usize = pat.unicode_len();
    if m > n {
        proof {
            assert(!ends_with_spec(s@, pat@));
        }
        return false;
    }
    let start: usize = n - m;
    let mut i: usize = 0;
    while i < m
        invariant
            m <= n,
            start == n - m,
            n == s@.len(),
            m == pat@.len(),
            i <= m,
            forall|j: int| 0 <= j < i ==> s@[start + j] == pat@[j],
        decreases m - i,
    {
        if s.get_char(start + i) != pat.get_char(i) {
            proof {
                assert(s@.subrange(s@.len() - pat@.len(), s@.len() as int)[i as int] != pat@[i as int]);
            }
            return false;
        }
        i += 1;
    }
    proof {
        assert(s@.subrange(s@.len() - pat@.len(), s@.len() as int) =~= pat@);
    }
    true
}

} // verus!
