//! Secrets that are wiped from memory when they are dropped.
use vstd::prelude::*;
use zeroize::Zeroizing;

verus! {

/// Bytes that are wiped when they are dropped: `zeroize::Zeroizing` round a
/// vector.
#[verifier::external_body]
pub struct Secret {
    inner: Zeroizing<Vec<u8>>,
}

/// The bytes of a secret.
pub uninterp spec fn secret_bytes(s: Secret) -> Seq<u8>;

impl View for Secret {
    type V = Seq<u8>;

    open spec fn view(&self) -> Seq<u8> {
        secret_bytes(*self)
    }
}

/// `zeroize::Zeroizing::new`: the secret holds the bytes.
#[verifier::external_body]
fn wrap(bytes: Vec<u8>) -> (r: Secret)
    ensures
        secret_bytes(r) == bytes@,
{
    Secret { inner: Zeroizing::new(bytes) }
}

/// `zeroize::Zeroizing::deref`: the bytes that the secret holds.
#[verifier::external_body]
fn unwrap(s: &Secret) -> (r: &Vec<u8>)
    ensures
        r@ == secret_bytes(*s),
{
    &s.inner
}

impl Secret {
    /// A secret made of these bytes.
    pub fn new(bytes: Vec<u8>) -> (r: Secret)
        ensures
            r@ == bytes@,
    {
        wrap(bytes)
    }

    /// The bytes.
    pub fn expose(&self) -> (r: &Vec<u8>)
        ensures
            r@ == self@,
    {
        unwrap(self)
    }
}

} // verus!
