//! The messages exchanged between client and server: a type tag, a key field
//! of `KEY_SIZE` bytes and a value field of `VALUE_SIZE` bytes. Text is stored
//! as its UTF-8 bytes, truncated to the field and padded with zero bytes.

use vstd::prelude::*;
use vstd::utf8::{
    decode_utf8, encode_utf8, decode_utf8_encode_utf8, encode_utf8_decode_utf8, encode_utf8_valid_utf8, is_ascii_chars,
    is_ascii_chars_encode_utf8, valid_utf8,
};
use vstd::string::StringSliceAdditionalSpecFns;
use vstd::string::StrSliceExecFns;

verus! {

/// Size in bytes of the key field of a message.
pub const KEY_SIZE: usize = 16;

/// Size in bytes of the value field of a message.
pub const VALUE_SIZE: usize = 64;

/// The kind of a message: requests from the client, answers from the server.
#[derive(Debug, Clone, Copy, PartialEq, Eq, Structural)]
pub enum MessageType {
    Empty,
    Get,
    Insert,
    Remove,
    GetSuccess,
    GetNotFound,
    InsertSuccess,
    RemoveSuccess,
    RemoveNotFound,
}

/// The number that stands for each message type in the shared-memory layout.
pub open spec fn type_code(t: MessageType) -> u16 {
    match t {
        MessageType::Empty => 0,
        MessageType::Get => 500,
        MessageType::Insert => 501,
        MessageType::Remove => 502,
        MessageType::GetSuccess => 600,
        MessageType::GetNotFound => 601,
        MessageType::InsertSuccess => 602,
        MessageType::RemoveSuccess => 603,
        MessageType::RemoveNotFound => 604,
    }
}

impl MessageType {
    /// The wire number of this message type.
    pub fn code(&self) -> (r: u16)
        ensures
            r == type_code(*self),
    {
        match self {
            MessageType::Empty => 0,
            MessageType::Get => 500,
            MessageType::Insert => 501,
            MessageType::Remove => 502,
            MessageType::GetSuccess => 600,
            MessageType::GetNotFound => 601,
            MessageType::InsertSuccess => 602,
            MessageType::RemoveSuccess => 603,
            MessageType::RemoveNotFound => 604,
        }
    }
}

/// One message: its type, its key field and its value field.
#[derive(Debug, Clone, Copy)]
pub struct Message {
    pub typ: MessageType,
    pub key: [u8; KEY_SIZE],
    pub value: [u8; VALUE_SIZE],
}

/// `n` zero bytes.
pub open spec fn zeros(n: nat) -> Seq<u8> {
    Seq::new(n, |i: int| 0u8)
}

/// A field of `n` bytes holding `bytes`: the first `n` of them, followed by
/// zero bytes up to the field's size.
pub open spec fn fixed_field(bytes: Seq<u8>, n: nat) -> Seq<u8> {
    Seq::new(n, |i: int| if i < bytes.len() { bytes[i] } else { 0u8 })
}

/// The characters with every trailing NUL character removed.
pub open spec fn trim_trailing_nuls(cs: Seq<char>) -> Seq<char>
    decreases cs.len(),
{
    if cs.len() > 0 && cs.last() == '\0' {
        trim_trailing_nuls(cs.drop_last())
    } else {
        cs
    }
}

/// The text a field holds: its bytes decoded as UTF-8 with the trailing NUL
/// characters removed, or the empty text when the bytes are not valid UTF-8.
pub open spec fn field_text(bytes: Seq<u8>) -> Seq<char> {
    if valid_utf8(bytes) {
        trim_trailing_nuls(decode_utf8(bytes))
    } else {
        Seq::empty()
    }
}

/// Calls `String::from_utf8`. Its documentation: the result is `Ok` exactly
/// when the bytes are valid UTF-8, and the string then holds those bytes,
/// so its characters are their decoding.
#[verifier::external_body]
pub(crate) fn string_from_utf8(bytes: Vec<u8>) -> (r: Option<String>)
    ensures
        r is Some <==> valid_utf8(bytes@),
        r matches Some(s) ==> s@ == decode_utf8(bytes@),
{
    match String::from_utf8(bytes) {
        Ok(s) => Some(s),
        Err(_) => None,
    }
}

/// A copy of `s` without its trailing NUL characters.
fn trim_nul_padding(s: &str) -> (r: String)
    ensures
        r@ == trim_trailing_nuls(s@),
{
    let mut end: usize = s.unicode_len();
    assert(s@.subrange(0, end as int) =~= s@);
    while end > 0 && s.get_char(end - 1) == '\0'
        invariant
            end <= s@.len(),
            trim_trailing_nuls(s@.subrange(0, end as int)) == trim_trailing_nuls(s@),
        decreases end,
    {
        proof {
            let cur = s@.subrange(0, end as int);
            assert(cur.drop_last() =~= s@.subrange(0, end - 1));
        }
        end = end - 1;
    }
    proof {
        let cur = s@.subrange(0, end as int);
        if end == 0 {
            assert(cur =~= Seq::<char>::empty());
        }
    }
    s.substring_char(0, end).to_owned()
}

/// The text of a field, as `field_text` defines it.
fn field_to_string(bytes: &[u8]) -> (r: String)
    ensures
        r@ == field_text(bytes@),
{
    let v = vstd::slice::slice_to_vec(bytes);
    match string_from_utf8(v) {
        Some(s) => trim_nul_padding(s.as_str()),
        None => String::new(),
    }
}

/// The field of `N` bytes that holds `bytes`, as `fixed_field` defines it.
pub(crate) fn fill_field<const N: usize>(bytes: &[u8]) -> (r: [u8; N])
    ensures
        r@ == fixed_field(bytes@, N as nat),
{
    let mut array = [0u8; N];
    let len: usize = if bytes.len() < N { bytes.len() } else { N };
    let mut i: usize = 0;
    while i < len
        invariant
            i <= len,
            len <= N,
            len <= bytes@.len(),
            len == bytes@.len() || len == N,
            array@.len() == N,
            forall|j: int| 0 <= j < i ==> array@[j] == bytes@[j],
            forall|j: int| i <= j < N ==> array@[j] == 0u8,
        decreases len - i,
    {
        array[i] = bytes[i];
        i = i + 1;
    }
    assert(array@ =~= fixed_field(bytes@, N as nat));
    array
}

impl Message {
    /// A message of type `Empty` with both fields zeroed.
    pub fn empty() -> (r: Message)
        ensures
            r.typ == MessageType::Empty,
            r.key@ == zeros(KEY_SIZE as nat),
            r.value@ == zeros(VALUE_SIZE as nat),
    {
        let r = Message { typ: MessageType::Empty, key: [0u8; KEY_SIZE], value: [0u8; VALUE_SIZE] };
        assert(r.key@ =~= zeros(KEY_SIZE as nat));
        assert(r.value@ =~= zeros(VALUE_SIZE as nat));
        r
    }

    /// The key field for `s`: its UTF-8 bytes, cut to `KEY_SIZE` bytes and
    /// padded with zero bytes.
    pub fn serliaize_key(s: &str) -> (r: [u8; KEY_SIZE])
        ensures
            r@ == fixed_field(s.spec_bytes(), KEY_SIZE as nat),
    {
        fill_field::<KEY_SIZE>(s.as_bytes())
    }

    /// The value field for `s`: its UTF-8 bytes, cut to `VALUE_SIZE` bytes and
    /// padded with zero bytes.
    pub fn serliaize_value(s: &str) -> (r: [u8; VALUE_SIZE])
        ensures
            r@ == fixed_field(s.spec_bytes(), VALUE_SIZE as nat),
    {
        fill_field::<VALUE_SIZE>(s.as_bytes())
    }

    /// The text of a key field: the bytes decoded as UTF-8 without the
    /// trailing NUL characters, or the empty string if they are not UTF-8.
    pub fn deserialize_key(bytes: [u8; KEY_SIZE]) -> (r: String)
        ensures
            r@ == field_text(bytes@),
    {
        field_to_string(&bytes)
    }

    /// The text of a value field: the bytes decoded as UTF-8 without the
    /// trailing NUL characters, or the empty string if they are not UTF-8.
    pub fn deserialize_value(bytes: [u8; VALUE_SIZE]) -> (r: String)
        ensures
            r@ == field_text(bytes@),
    {
        field_to_string(&bytes)
    }
}

/// `n` NUL characters.
pub open spec fn nuls(n: nat) -> Seq<char> {
    Seq::new(n, |i: int| '\0')
}

pub(crate) proof fn lemma_encode_concat(a: Seq<char>, b: Seq<char>)
    ensures
        encode_utf8(a + b) == encode_utf8(a) + encode_utf8(b),
    decreases a.len(),
{
    if a.len() == 0 {
        assert(a + b =~= b);
    } else {
        lemma_encode_concat(a.drop_first(), b);
        assert((a + b).drop_first() =~= a.drop_first() + b);
        assert(encode_utf8(a + b) =~= encode_utf8(a) + encode_utf8(b));
    }
}

pub(crate) proof fn lemma_encode_nuls(n: nat)
    ensures
        encode_utf8(nuls(n)) == zeros(n),
{
    assert(is_ascii_chars(nuls(n)));
    is_ascii_chars_encode_utf8(nuls(n));
    assert forall|i: int| 0 <= i < n implies encode_utf8(nuls(n))[i] == zeros(n)[i] by {
        assert(nuls(n)[i] as u8 == encode_utf8(nuls(n))[i]);
    }
    assert(encode_utf8(nuls(n)) =~= zeros(n));
}

proof fn lemma_trim_nuls_suffix(cs: Seq<char>, n: nat)
    ensures
        trim_trailing_nuls(cs + nuls(n)) == trim_trailing_nuls(cs),
    decreases n,
{
    if n > 0 {
        assert((cs + nuls(n)).drop_last() =~= cs + nuls((n - 1) as nat));
        lemma_trim_nuls_suffix(cs, (n - 1) as nat);
    } else {
        assert(cs + nuls(n) =~= cs);
    }
}

/// A text whose UTF-8 bytes fit in `n` bytes, written to a field of `n`
/// bytes, is the encoding of the text followed by one NUL per padding byte.
pub proof fn lemma_padded_field(cs: Seq<char>, n: nat)
    requires
        encode_utf8(cs).len() <= n,
    ensures
        fixed_field(encode_utf8(cs), n) == encode_utf8(cs + nuls((n - encode_utf8(cs).len()) as nat)),
        valid_utf8(fixed_field(encode_utf8(cs), n)),
        decode_utf8(fixed_field(encode_utf8(cs), n)) == cs + nuls((n - encode_utf8(cs).len()) as nat),
{
    let k = (n - encode_utf8(cs).len()) as nat;
    let padded = cs + nuls(k);
    lemma_encode_concat(cs, nuls(k));
    lemma_encode_nuls(k);
    assert(fixed_field(encode_utf8(cs), n) =~= encode_utf8(padded));
    encode_utf8_valid_utf8(padded);
    encode_utf8_decode_utf8(padded);
}

/// Reading back a field written from a text gives the text without its
/// trailing NUL characters, as long as the text's UTF-8 bytes fit in the
/// field: `deserialize_key(serliaize_key(s))` and
/// `deserialize_value(serliaize_value(s))` give back `s` minus trailing NULs.
pub proof fn lemma_field_roundtrip(cs: Seq<char>, n: nat)
    requires
        encode_utf8(cs).len() <= n,
    ensures
        field_text(fixed_field(encode_utf8(cs), n)) == trim_trailing_nuls(cs),
{
    lemma_padded_field(cs, n);
    lemma_trim_nuls_suffix(cs, (n - encode_utf8(cs).len()) as nat);
}

proof fn lemma_trim_split(cs: Seq<char>)
    ensures
        trim_trailing_nuls(cs).len() <= cs.len(),
        cs == trim_trailing_nuls(cs) + nuls((cs.len() - trim_trailing_nuls(cs).len()) as nat),
    decreases cs.len(),
{
    if cs.len() > 0 && cs.last() == '\0' {
        let d = cs.drop_last();
        lemma_trim_split(d);
        let t = trim_trailing_nuls(d);
        assert(trim_trailing_nuls(cs) == t);
        let k = (d.len() - t.len()) as nat;
        assert(d == t + nuls(k));
        assert(cs =~= d.push('\0'));
        assert forall|i: int| 0 <= i < cs.len() implies #[trigger] cs[i] == (t + nuls(k + 1))[i] by {
            if i < d.len() {
                assert(cs[i] == d[i]);
                assert(d[i] == (t + nuls(k))[i]);
            }
        }
        assert(cs =~= t + nuls(k + 1));
    } else {
        assert(cs =~= cs + nuls(0));
    }
}

/// Writing back the text read from a field of valid UTF-8 gives the same
/// bytes: `serliaize_key(deserialize_key(b))` is `b`, and likewise for
/// value fields.
pub proof fn lemma_field_reverse_roundtrip(b: Seq<u8>)
    requires
        valid_utf8(b),
    ensures
        fixed_field(encode_utf8(field_text(b)), b.len()) == b,
{
    let cs = decode_utf8(b);
    let t = trim_trailing_nuls(cs);
    let k = (cs.len() - t.len()) as nat;
    decode_utf8_encode_utf8(b);
    lemma_trim_split(cs);
    lemma_encode_concat(t, nuls(k));
    lemma_encode_nuls(k);
    assert(encode_utf8(cs) == encode_utf8(t) + zeros(k));
    assert(fixed_field(encode_utf8(t), b.len()) =~= b);
}

} // verus!
