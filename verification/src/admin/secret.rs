//! Secrets that are wiped from memory when they are dropped.

use vstd::prelude::*;

verus! {

/// Bytes in a `zeroize::Zeroizing`, which overwrites them when it is dropped.
#[verifier::external_body]
pub struct SecretBytes {
    bytes: zeroize::Zeroizing<Vec<u8>>,
}

/// The bytes that are held.
pub uninterp spec fn secret_view(s: SecretBytes) -> Seq<u8>;

/// `zeroize::Zeroizing::new` holds the bytes it is given.
#[verifier::external_body]
pub(crate) fn seal(bytes: Vec<u8>) -> (r: SecretBytes)
    ensures
        secret_view(r) == bytes@,
{
    SecretBytes { bytes: zeroize::Zeroizing::new(bytes) }
}

/// `<zeroize::Zeroizing as Deref>::deref` shows the bytes that are held.
#[verifier::external_body]
pub(crate) fn unseal(s: &SecretBytes) -> (r: &[u8])
    ensures
        r@ == secret_view(*s),
{
    s.bytes.as_slice()
}

/// `<[u8] as subtle::ConstantTimeEq>::ct_eq`: whether two byte strings are the
/// same.
#[verifier::external_body]
pub(crate) fn same_bytes(a: &[u8], b: &[u8]) -> (r: bool)
    ensures
        r == (a@ == b@),
{
    bool::from(subtle::ConstantTimeEq::ct_eq(a, b))
}

} // verus!
