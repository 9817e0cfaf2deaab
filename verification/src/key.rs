//! The public key carried in an address: the base64 key payload is
//! decoded and packed into a fixed 32-byte ed25519 public-key value.
use vstd::prelude::*;

verus! {

/// `b` packed into 32 bytes: bytes beyond index 31 are dropped, and where
/// fewer than 32 bytes are given the remaining positions stay zero.
pub open spec fn pad32(b: Seq<u8>) -> Seq<u8> {
    Seq::new(32, |i: int| if i < b.len() { b[i] } else { 0u8 })
}

/// What the standard-alphabet base64 decoder yields for a payload:
/// the decoded bytes, or `None` where the payload is not valid base64.
pub uninterp spec fn b64_decoded(payload: Seq<char>) -> Option<Seq<u8>>;

/// Relies on the base64 crate's standard-alphabet, padded decoder
/// (`Engine::decode` with the `STANDARD` engine): whether decoding
/// succeeds, and the bytes it yields, depend on the payload text alone.
#[verifier::external_body]
pub(crate) fn decode_base64(payload: &str) -> (r: Option<Vec<u8>>)
    ensures
        r is Some <==> b64_decoded(payload@) is Some,
        r is Some ==> r.unwrap()@ == b64_decoded(payload@).unwrap(),
{
    match base64::Engine::decode(&base64::engine::general_purpose::STANDARD, payload) {
        Ok(v) => Some(v),
        Err(_) => None,
    }
}

/// The legacy text form of an ed25519 public key, a function of the 32
/// key bytes alone.
pub uninterp spec fn legacy_string_of(key: Seq<u8>) -> Seq<char>;

/// Relies on ssb_multiformats' `Multikey::from_ed25519`, which wraps the
/// given 32 bytes (for a 32-byte array it cannot fail), and
/// `Multikey::to_legacy_string`, whose result is a function of those
/// bytes alone.
#[verifier::external_body]
fn ed25519_legacy_string(bytes: &[u8; 32]) -> (r: String)
    ensures
        r@ == legacy_string_of(bytes@),
{
    ssb_multiformats::multikey::Multikey::from_ed25519(bytes).to_legacy_string()
}

/// An ed25519 public key: exactly 32 bytes.
#[derive(Debug, Clone, Copy, PartialEq, Eq)]
pub struct PublicKey {
    pub bytes: [u8; 32],
}

impl PublicKey {
    /// The legacy text form of the key.
    pub fn to_legacy_string(&self) -> (r: String)
        ensures
            r@ == legacy_string_of(self.bytes@),
    {
        ed25519_legacy_string(&self.bytes)
    }
}

/// The bytes packed into a fixed 32-byte buffer: bytes beyond index 31
/// are dropped, and where fewer than 32 bytes are given the remaining
/// positions stay zero.
#[verifier::loop_isolation(false)]
pub fn array_32_from_vec(vec: Vec<u8>) -> (r: [u8; 32])
    ensures
        r@ == pad32(vec@),
{
    let mut pub_key_bytes: [u8; 32] = [0; 32];
    let mut i: usize = 0;
    while i < 32 && i < vec.len()
        invariant
            i <= 32,
            forall|j: int| 0 <= j < i ==> pub_key_bytes@[j] == pad32(vec@)[j],
            forall|j: int| i <= j < 32 ==> pub_key_bytes@[j] == 0,
        decreases 32 - i,
    {
        pub_key_bytes[i] = vec[i];
        i = i + 1;
    }
    proof {
        assert(pub_key_bytes@ =~= pad32(vec@));
    }
    pub_key_bytes
}

} // verus!
