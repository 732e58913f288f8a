//! A fixed-layout message protocol and a separately chained hash table,
//! the verified core of a key-value server that answers requests passed
//! through POSIX shared memory.

pub mod client;
pub mod hash_table;
pub mod message;
pub mod sem;
pub mod server;
pub mod shared_mem;

use crate::message::{fill_field, fixed_field, lemma_padded_field, nuls, string_from_utf8};
use vstd::prelude::*;
use vstd::string::StringSliceAdditionalSpecFns;
use vstd::utf8::{decode_utf8, encode_utf8, valid_utf8};

verus! {

/// A 16-byte field holding the UTF-8 bytes of `s`, cut to 16 bytes and
/// padded with zero bytes.
pub fn serliaize(s: &str) -> (r: [u8; 16])
    ensures
        r@ == fixed_field(s.spec_bytes(), 16),
{
    fill_field::<16>(s.as_bytes())
}

/// The text of a 16-byte field that holds valid UTF-8, zero bytes included
/// as NUL characters. The bytes must be valid UTF-8.
pub fn deserialize(bytes: [u8; 16]) -> (r: String)
    requires
        valid_utf8(bytes@),
    ensures
        r@ == decode_utf8(bytes@),
{
    let v = vstd::slice::slice_to_vec(&bytes);
    match string_from_utf8(v) {
        Some(s) => s,
        None => vstd::pervasive::unreached(),
    }
}

/// A text whose UTF-8 bytes fit in 16 bytes is read back by `deserialize`
/// from what `serliaize` wrote, followed by one NUL character per padding
/// byte; in particular the field is always valid UTF-8 then.
pub proof fn lemma_serliaize_deserialize(cs: Seq<char>)
    requires
        encode_utf8(cs).len() <= 16,
    ensures
        valid_utf8(fixed_field(encode_utf8(cs), 16)),
        decode_utf8(fixed_field(encode_utf8(cs), 16)) == cs + nuls((16 - encode_utf8(cs).len()) as nat),
{
    lemma_padded_field(cs, 16);
}

} // verus!
