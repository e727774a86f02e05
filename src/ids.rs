use vstd::prelude::*;

verus! {

/// The URL-safe base64 text (with padding) of a byte string.
pub uninterp spec fn base64_url(bytes: Seq<u8>) -> Seq<char>;

/// Relies on `rand::rng()` and `Rng::random`: eight bytes from the thread-local
/// generator. Nothing is known of their values. (The generator panics only
/// when the operating system cannot seed it.)
#[verifier::external_body]
fn random_bytes() -> (r: Vec<u8>)
    ensures
        r@.len() == 8,
{
    let bytes: [u8; 8] = rand::Rng::random(&mut rand::rng());
    bytes.to_vec()
}

/// Relies on base64's `Engine::encode` with the `URL_SAFE` engine: the
/// URL-safe alphabet, padded.
#[verifier::external_body]
fn encode_url_safe(b: &Vec<u8>) -> (r: String)
    requires
        b@.len() == 8,
    ensures
        r@ == base64_url(b@),
{
    base64::Engine::encode(&base64::prelude::BASE64_URL_SAFE, b)
}

/// A new opaque identifier: eight random bytes in URL-safe base64.
pub fn generate_id() -> (r: String)
    ensures
        exists|b: Seq<u8>| b.len() == 8 && r@ == base64_url(b),
{
    let bytes = random_bytes();
    encode_url_safe(&bytes)
}

} // verus!
