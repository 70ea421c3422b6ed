//! What the library has from other crates: byte buffers and UUIDs.

use vstd::prelude::*;

verus! {

/// The byte buffer of `serde_bytes`.
#[verifier::external_type_specification]
#[verifier::external_body]
pub struct ExByteBuf(serde_bytes::ByteBuf);

/// The bytes that a buffer holds.
pub uninterp spec fn buffered(buffer: serde_bytes::ByteBuf) -> Seq<u8>;

/// Calls `serde_bytes::ByteBuf::from`, which wraps a vector: the buffer holds its bytes.
#[verifier::external_body]
pub(crate) fn buffer_from(bytes: Vec<u8>) -> (buffer: serde_bytes::ByteBuf)
    ensures
        buffered(buffer) == bytes@,
{
    serde_bytes::ByteBuf::from(bytes)
}

/// Calls `AsRef::as_ref` of `serde_bytes::ByteBuf`, which lends the bytes that the buffer holds.
#[verifier::external_body]
pub(crate) fn buffer_bytes(buffer: &serde_bytes::ByteBuf) -> (bytes: &[u8])
    ensures
        bytes@ == buffered(*buffer),
{
    buffer.as_ref()
}

/// The error of `uuid` for text that is no UUID.
#[verifier::external_type_specification]
#[verifier::external_body]
pub struct ExUuidError(uuid::Error);

/// The sixteen octets of the UUID that a text writes, if it writes one.
pub uninterp spec fn uuid_octets(text: Seq<char>) -> Option<Seq<u8>>;

/// Calls `uuid::Uuid::parse_str`, whose outcome depends on the text alone: it succeeds where the
/// text writes a UUID in one of the formats of that crate, and then gives its octets.
#[verifier::external_body]
pub(crate) fn parse_uuid(text: &str) -> (parsed: Result<[u8; 16], uuid::Error>)
    ensures
        match parsed {
            Ok(octets) => uuid_octets(text@) == Some(octets@),
            Err(_) => uuid_octets(text@) is None,
        },
{
    match uuid::Uuid::parse_str(text) {
        Ok(id) => Ok(id.into_bytes()),
        Err(error) => Err(error),
    }
}

/// Calls `uuid::Uuid::get_version_num`, which is the high half of the seventh octet.
#[verifier::external_body]
pub(crate) fn uuid_version_number(octets: [u8; 16]) -> (version: usize)
    ensures
        version == octets@[6] / 16,
{
    uuid::Uuid::from_bytes(octets).get_version_num()
}

} // verus!
