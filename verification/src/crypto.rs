//! The authenticated-encryption capability behind snapshot persistence.
//!
//! The cipher itself is the outside crate's work; this module only declares
//! what the library relies on: decryption is a pure function of the key and
//! the container, and wrapping produces a container that unwraps, under the
//! same key, to the wrapped data.

use vstd::prelude::*;
use crate::codec;

verus! {

/// Whether a container's claimed payload length is consistent with its
/// actual size.
///
/// An encryption container is a 60-byte format prefix followed by the
/// payload, and bytes 36..44 of the prefix hold the payload length as a
/// big-endian 64-bit value. A container long enough to carry the prefix must
/// not claim more payload bytes than actually follow it; on a container
/// violating this, the outside opener does not return (an absurd claimed
/// length overflows its capacity computation), so such input is kept away
/// from the call and rejected by the library itself.
pub open spec fn sane_container(data: Seq<u8>) -> bool {
    data.len() >= 60 ==> (match codec::sp_u64(data, 36) {
        Option::Some((n, _)) => n <= data.len() - 60,
        Option::None => true,
    })
}

/// The plain bytes that the encryption container `data` opens to under
/// `key`, or nothing when authentication fails. Decryption is a function of
/// the key and the container alone: every parameter of the scheme is stored
/// in the container's own header.
pub uninterp spec fn unwrap_of(key: Seq<u8>, data: Seq<u8>) -> Option<Seq<u8>>;

/// Relies on `cocoon::Cocoon::{new, wrap}`: wraps the data into an
/// encrypted, authenticated container that `unwrap` with the same key
/// returns unchanged. The container is the 60-byte format prefix followed by
/// exactly as many payload bytes as the prefix's length field claims, so it
/// is a sane container.
#[verifier::external_body]
pub(crate) fn cocoon_wrap(key: &[u8], data: &[u8]) -> (r: Result<Vec<u8>, ()>)
    ensures
        r matches Ok(c) ==> unwrap_of(key@, c@) == Some(data@),
        r matches Ok(c) ==> sane_container(c@),
{
    let mut sealer = cocoon::Cocoon::new(key);
    sealer.wrap(data).map_err(|_| ())
}

/// Relies on `cocoon::Cocoon::{new, unwrap}`: opens an encrypted container,
/// failing on anything malformed, corrupted, or sealed under another key.
/// The scheme's parameters are read from the container's header, so the
/// result depends on the key and the container alone. Only sane containers
/// are admitted: on those, every path of the opener returns a value.
#[verifier::external_body]
pub(crate) fn cocoon_unwrap(key: &[u8], data: &[u8]) -> (r: Result<Vec<u8>, ()>)
    requires
        sane_container(data@),
    ensures
        (match unwrap_of(key@, data@) {
            Some(p) => r matches Ok(q) && q@ == p,
            None => r is Err,
        }),
{
    let opener = cocoon::Cocoon::new(key);
    opener.unwrap(data).map_err(|_| ())
}

} // verus!
