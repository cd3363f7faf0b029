//! Live-mode generation: keypairs are searched for in fixed-size chunks and
//! every chunk is rendered as a batch document of its own as soon as it is
//! complete, so the embedding can append each document (followed by its
//! delimiter line) to the output file while the search is still running. A
//! final shorter chunk flushes whatever is left when the requested total is
//! reached.

use crate::ends_with_spec;
use crate::format::parse_batch_spec;
use crate::format::render_batch;
use crate::format::RecordView;
use crate::format::VanityBatch;
use crate::format::VanityKeypair;
use crate::keypair::base58_of;
use crate::keypair::encode_base58;
use crate::keypair::VanityKey;
use crate::pool::VanityService;
use vstd::prelude::*;
use vstd::string::StringExecFns;

verus! {

/// How many documents a run of `total` keypairs saved in chunks of `chunk`
/// produces: the total divided by the chunk size, rounded up.
pub open spec fn n_chunks(total: nat, chunk: nat) -> nat
    recommends
        chunk >= 1,
{
    ((total as int + chunk as int - 1) / (chunk as int)) as nat
}

/// The `d`-th chunk of a run: keypairs `d * chunk` up to the next chunk
/// boundary or the end of the run, whichever comes first.
pub open spec fn chunk_of(keys: Seq<VanityKey>, d: int, chunk: nat) -> Seq<VanityKey>
    recommends
        chunk >= 1,
        0 <= d,
        d * chunk <= keys.len(),
{
    let lo = d * (chunk as int);
    let hi = if (d + 1) * (chunk as int) <= keys.len() {
        (d + 1) * (chunk as int)
    } else {
        keys.len() as int
    };
    keys.subrange(lo, hi)
}

/// The persisted record for one found keypair: its address and its base58
/// encoded raw bytes.
pub open spec fn encoded_rec(k: VanityKey) -> RecordView {
    RecordView { public_key: k.address@, private_key: base58_of(k.secret@) }
}

/// The persisted records for a run of found keypairs, in order.
pub open spec fn encoded_recs(ks: Seq<VanityKey>) -> Seq<RecordView> {
    ks.map_values(|k: VanityKey| encoded_rec(k))
}

/// What a saved chunk document must say: it parses back to a batch whose
/// stored suffix is the searched-for one and whose records are exactly the
/// chunk's keypairs, encoded, with a matching count.
pub open spec fn doc_matches(doc: Seq<char>, suffix: Seq<char>, ks: Seq<VanityKey>) -> bool {
    &&& parse_batch_spec(doc) is Some
    &&& parse_batch_spec(doc).unwrap().suffix == suffix
    &&& parse_batch_spec(doc).unwrap().keypairs == encoded_recs(ks)
    &&& parse_batch_spec(doc).unwrap().count == ks.len()
}

/// Relies on `chrono::Utc::now` and `to_rfc3339` for the generation
/// timestamp a saved batch carries; nothing is assumed of the current time.
#[verifier::external_body]
fn now_rfc3339() -> String {
    chrono::Utc::now().to_rfc3339()
}

/// Encode a run of found keypairs as persisted records, in order.
fn encode_records(keys: &Vec<VanityKey>) -> (r: Vec<VanityKeypair>)
    ensures
        r@.len() == keys@.len(),
        r@.map_values(|k: VanityKeypair| k@) == encoded_recs(keys@),
{
    let mut out: Vec<VanityKeypair> = Vec::new();
    let mut i: usize = 0;
    while i < keys.len()
        invariant
            i <= keys@.len(),
            out@.len() == i,
            forall|t: int| 0 <= t < i ==> (#[trigger] out@[t])@ == encoded_rec(keys@[t]),
        decreases keys@.len() - i,
    {
        let pk = keys[i].address.clone();
        let sk = encode_base58(keys[i].secret.as_slice());
        out.push(VanityKeypair { public_key: pk, private_key: sk });
        i += 1;
    }
    proof {
        assert(out@.map_values(|k: VanityKeypair| k@) =~= encoded_recs(keys@));
    }
    out
}

/// Render one chunk of found keypairs as a batch document with a fresh
/// timestamp.
fn render_chunk(suffix: &str, found: &Vec<VanityKey>) -> (doc: String)
    ensures
        doc_matches(doc@, suffix@, found@),
{
    let recs = encode_records(found);
    let batch = VanityBatch {
        suffix: String::from_str(suffix),
        count: recs.len(),
        generated_at: now_rfc3339(),
        keypairs: recs,
    };
    let doc = render_batch(&batch);
    proof {
        crate::format::lemma_render_parse_roundtrip(batch@);
    }
    doc
}

/// Every chunk of a run holds at most a chunk's worth of keypairs: exactly
/// `chunk` of them when the next boundary is within the run, and whatever
/// is left past the last boundary otherwise.
pub proof fn lemma_chunk_len(keys: Seq<VanityKey>, d: int, chunk: nat)
    requires
        chunk >= 1,
        0 <= d,
        d * (chunk as int) <= keys.len(),
    ensures
        chunk_of(keys, d, chunk).len() == if (d + 1) * (chunk as int) <= keys.len() {
            chunk as int
        } else {
            keys.len() - d * (chunk as int)
        },
        chunk_of(keys, d, chunk).len() <= chunk,
{
    let cc = chunk as int;
    assert((d + 1) * cc == d * cc + cc) by (nonlinear_arith);
}

/// The number of chunks is the total rounded up to chunk boundaries.
proof fn lemma_chunk_count(total: int, chunk: int, d: int)
    requires
        chunk >= 1,
        d >= 0,
        total == d * chunk || (d >= 1 && (d - 1) * chunk < total && total < d * chunk),
    ensures
        n_chunks(total as nat, chunk as nat) == d,
{
    if total == d * chunk {
        assert((d * chunk + chunk - 1) / chunk == d) by (nonlinear_arith)
            requires chunk >= 1 && d >= 0;
    } else {
        assert((total + chunk - 1) / chunk == d) by (nonlinear_arith)
            requires chunk >= 1 && d >= 1 && (d - 1) * chunk < total && total < d * chunk;
    }
}

impl VanityService {
    /// Search for exactly `total_count` keypairs whose addresses end with
    /// `suffix`, and render them, as they accumulate, into batch documents
    /// of `batch_size` keypairs each — the last document shorter when the
    /// total is not a multiple. Returns the keypairs and the documents: the
    /// documents partition the keypairs in order, each parses back to its
    /// chunk, and there are exactly as many as the total needs, rounded up.
    /// The embedding appends each document and a delimiter line to the
    /// output file.
    pub fn generate_vanity_live(suffix: &str, total_count: usize, batch_size: usize) -> (r: (
        Vec<VanityKey>, Vec<String>))
        requires
            batch_size >= 1,
        ensures
            r.0@.len() == total_count,
            forall|i: int| 0 <= i < r.0@.len() ==> (#[trigger] r.0@[i]).wf() && ends_with_spec(
                r.0@[i].address@, suffix@),
            r.1@.len() == n_chunks(total_count as nat, batch_size as nat),
            forall|d: int| 0 <= d < r.1@.len() ==> doc_matches((#[trigger] r.1@[d])@, suffix@,
                chunk_of(r.0@, d, batch_size as nat)),
    {
        let mut keys: Vec<VanityKey> = Vec::new();
        let mut docs: Vec<String> = Vec::new();
        let ghost cc = batch_size as int;
        proof {
            assert(0 * cc == 0) by (nonlinear_arith);
        }
        while keys.len() < total_count
            invariant
                batch_size >= 1,
                cc == batch_size as int,
                keys@.len() <= total_count,
                keys@.len() == docs@.len() * cc || (keys@.len() == total_count && docs@.len() >= 1
                    && (docs@.len() - 1) * cc < keys@.len() && keys@.len() < docs@.len() * cc),
                forall|i: int| 0 <= i < keys@.len() ==> (#[trigger] keys@[i]).wf()
                    && ends_with_spec(keys@[i].address@, suffix@),
                forall|d: int| 0 <= d < docs@.len() ==> doc_matches((#[trigger] docs@[d])@,
                    suffix@, chunk_of(keys@, d, batch_size as nat)),
            decreases total_count - keys.len(),
        {
            let remaining = total_count - keys.len();
            let take = if remaining < batch_size { remaining } else { batch_size };
            let found = VanityService::generate_vanity_batch(suffix, take);
            let doc = render_chunk(suffix, &found);
            let ghost old_keys = keys@;
            let ghost old_docs = docs@;
            let ghost foundv = found@;
            docs.push(doc);
            let mut found_m = found;
            keys.append(&mut found_m);
            proof {
                let nd = old_docs.len() as int;
                assert(old_keys.len() == nd * cc);
                assert((nd + 1) * cc == nd * cc + cc) by (nonlinear_arith);
                assert(keys@ == old_keys + foundv);
                assert(keys@.len() == nd * cc + foundv.len());
                assert forall|t: int| 0 <= t < old_keys.len() implies keys@[t] == old_keys[t] by {
                    assert(keys@[t] == (old_keys + foundv)[t]);
                }
                // earlier chunks are untouched by the append
                assert forall|d: int| 0 <= d < nd implies chunk_of(keys@, d, batch_size as nat)
                    == chunk_of(old_keys, d, batch_size as nat) by {
                    assert(0 <= d * cc && d * cc <= (d + 1) * cc && (d + 1) * cc <= nd * cc) by (
                    nonlinear_arith)
                        requires 0 <= d && d < nd && cc >= 1;
                    assert(keys@.subrange(d * cc, (d + 1) * cc) =~= old_keys.subrange(d * cc, (d
                        + 1) * cc));
                };
                // the new chunk is exactly what this round found
                assert forall|t: int| 0 <= t < foundv.len() implies keys@[nd * cc + t]
                    == foundv[t] by {
                    assert(keys@[nd * cc + t] == (old_keys + foundv)[nd * cc + t]);
                }
                assert(chunk_of(keys@, nd, batch_size as nat) =~= foundv);
            }
        }
        proof {
            lemma_chunk_count(keys@.len() as int, cc, docs@.len() as int);
        }
        (keys, docs)
    }
}

} // verus!
