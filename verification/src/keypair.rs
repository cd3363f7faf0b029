use vstd::prelude::*;

verus! {

/// The textual address that the signature scheme derives from a 64-byte
/// keypair: the base58 rendering of the public half. The derivation is a
/// fixed function of the bytes alone; its definition (ed25519 public-key
/// derivation followed by base58) is left abstract here and supplied by
/// `solana_sdk` at the trusted boundary below.
pub uninterp spec fn address_of(secret: Seq<u8>) -> Seq<char>;

/// The base58 rendering of a byte sequence, as `bs58::encode` produces it.
pub uninterp spec fn base58_of(bytes: Seq<u8>) -> Seq<char>;

/// Whether a 64-byte sequence is a well-formed keypair: correct length and a
/// public half that matches the one derived from the secret half. This is the
/// acceptance condition of `solana_sdk`'s `Keypair::try_from`.
pub uninterp spec fn keypair_bytes_valid(bytes: Seq<u8>) -> bool;

/// A found keypair: the raw 64 keypair bytes together with the textual
/// address derived from them. The two are never stored independently: every
/// constructor establishes `wf`.
#[derive(Debug)]
pub struct VanityKey {
    pub secret: Vec<u8>,
    pub address: String,
}

impl VanityKey {
    /// The address is exactly the one the scheme derives from the bytes, and
    /// the bytes themselves form a valid keypair.
    pub open spec fn wf(&self) -> bool {
        &&& self.secret@.len() == 64
        &&& keypair_bytes_valid(self.secret@)
        &&& self.address@ == address_of(self.secret@)
    }
}

/// Relies on `solana_sdk::signature::Keypair::new` for a uniformly random
/// keypair, `Keypair::to_bytes` for its 64 raw bytes (secret half then public
/// half, so `try_from` accepts them again), and `Signer::pubkey` plus the
/// address's base58 `Display` for the derived textual address.
#[verifier::external_body]
pub(crate) fn gen_keypair_fast() -> (k: VanityKey)
    ensures
        k.wf(),
{
    let kp = solana_sdk::signature::Keypair::new();
    VanityKey {
        secret: kp.to_bytes().to_vec(),
        address: solana_sdk::signer::Signer::pubkey(&kp).to_string(),
    }
}

/// Relies on `solana_sdk::signature::Keypair::try_from`, which accepts
/// exactly the valid 64-byte keypairs, and on `Signer::pubkey` with the
/// address's base58 `Display` for the derived textual address.
#[verifier::external_body]
pub(crate) fn keypair_from_bytes(bytes: &[u8]) -> (r: Option<VanityKey>)
    ensures
        r is Some <==> keypair_bytes_valid(bytes@),
        r matches Some(k) ==> k.secret@ == bytes@ && k.address@ == address_of(bytes@)
            && bytes@.len() == 64,
{
    match solana_sdk::signature::Keypair::try_from(bytes) {
        Ok(kp) => Some(VanityKey {
            secret: bytes.to_vec(),
            address: solana_sdk::signer::Signer::pubkey(&kp).to_string(),
        }),
        Err(_) => None,
    }
}

/// Relies on `bs58::encode`: the base58 rendering of the bytes.
#[verifier::external_body]
pub(crate) fn encode_base58(bytes: &[u8]) -> (r: String)
    ensures
        r@ == base58_of(bytes@),
{
    bs58::encode(bytes).into_string()
}

/// Relies on `bs58::decode` being the inverse of `bs58::encode`: a string
/// that is the base58 rendering of some byte sequence decodes back to exactly
/// that sequence.
#[verifier::external_body]
pub(crate) fn decode_base58(s: &str) -> (r: Option<Vec<u8>>)
    ensures
        r is Some <== exists|b: Seq<u8>| s@ == base58_of(b),
        r matches Some(v) ==> forall|b: Seq<u8>| s@ == base58_of(b) ==> v@ == b,
{
    bs58::decode(s).into_vec().ok()
}

} // verus!
