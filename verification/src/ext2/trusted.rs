//! The calls this library makes into other crates. Verus takes the contracts
//! in this module on trust: each states what the called function's own source
//! or documentation says of it.

use vstd::prelude::*;

verus! {

/// `uuid::Uuid`, of which nothing but its sixteen bytes is spoken of.
#[verifier::external_type_specification]
#[verifier::external_body]
pub struct ExUuid(uuid::Uuid);

/// The sixteen bytes that a `uuid::Uuid` holds, first byte first.
pub uninterp spec fn uuid_bytes(id: uuid::Uuid) -> Seq<u8>;

/// `uuid::Uuid::from_bytes`: wraps the sixteen bytes as they are, so the
/// identifier holds exactly `bytes`.
#[verifier::external_body]
pub(crate) fn uuid_from_bytes(bytes: [u8; 16]) -> (id: uuid::Uuid)
    ensures
        uuid_bytes(id) == bytes@,
{
    uuid::Uuid::from_bytes(bytes)
}

/// `zerocopy::ByteSlice::split_at` on a shared byte slice: the bytes before
/// `mid` and the bytes from `mid` on. It panics where `mid` exceeds the
/// length, which `requires` rules out.
#[verifier::external_body]
pub(crate) fn split_bytes<'a>(bytes: &'a [u8], mid: usize) -> (parts: (&'a [u8], &'a [u8]))
    requires
        mid <= bytes@.len(),
    ensures
        parts.0@ == bytes@.subrange(0, mid as int),
        parts.1@ == bytes@.subrange(mid as int, bytes@.len() as int),
{
    zerocopy::ByteSlice::split_at(bytes, mid)
}

/// `<[u8]>::as_ptr`, as a number: the address of the slice's first byte.
/// Where the bytes lie is the allocator's choice, so nothing is stated of it.
#[verifier::external_body]
pub(crate) fn address_of(bytes: &[u8]) -> (addr: usize) {
    bytes.as_ptr() as usize
}

/// `core::str::from_utf8`, asked only whether it succeeds: it does exactly
/// where the bytes are well-formed UTF-8.
#[verifier::external_body]
pub(crate) fn is_utf8(bytes: &[u8]) -> (ok: bool)
    ensures
        ok == vstd::utf8::valid_utf8(bytes@),
{
    core::str::from_utf8(bytes).is_ok()
}

} // verus!
