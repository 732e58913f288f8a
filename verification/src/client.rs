//! The client's side of the protocol: turning a typed command line into a
//! request message, and making up random requests for load generation.

use crate::message::{fixed_field, zeros, Message, MessageType, KEY_SIZE, VALUE_SIZE};
use vstd::prelude::*;
use rand::rngs::ThreadRng;
use rand::Rng;
use crate::message::fill_field;
use vstd::utf8::{encode_utf8, is_ascii_chars, is_ascii_chars_encode_utf8};

verus! {

/// Whether `c` has the Unicode property White_Space.
pub open spec fn is_whitespace(c: char) -> bool {
    ||| '\u{9}' <= c && c <= '\u{d}'
    ||| c == ' '
    ||| c == '\u{85}'
    ||| c == '\u{a0}'
    ||| c == '\u{1680}'
    ||| '\u{2000}' <= c && c <= '\u{200a}'
    ||| c == '\u{2028}'
    ||| c == '\u{2029}'
    ||| c == '\u{202f}'
    ||| c == '\u{205f}'
    ||| c == '\u{3000}'
}

/// The length of the run of non-whitespace characters that starts `s`.
pub open spec fn word_len(s: Seq<char>) -> nat
    decreases s.len(),
{
    if s.len() == 0 || is_whitespace(s[0]) {
        0
    } else {
        1 + word_len(s.drop_first())
    }
}

/// A word is never longer than what is left of the line, and is at least one
/// character long when the line starts with a non-whitespace character.
pub proof fn lemma_word_len_bound(s: Seq<char>)
    ensures
        word_len(s) <= s.len(),
        s.len() > 0 && !is_whitespace(s[0]) ==> word_len(s) >= 1,
    decreases s.len(),
{
    if s.len() > 0 && !is_whitespace(s[0]) {
        lemma_word_len_bound(s.drop_first());
    }
}

/// The words of `s`: its maximal runs of non-whitespace characters, in order.
pub open spec fn words(s: Seq<char>) -> Seq<Seq<char>>
    decreases s.len(),
{
    if s.len() == 0 {
        seq![]
    } else if is_whitespace(s[0]) {
        words(s.drop_first())
    } else {
        proof {
            lemma_word_len_bound(s);
        }
        seq![s.take(word_len(s) as int)] + words(s.skip(word_len(s) as int))
    }
}

/// Calls `str::split_whitespace` and collects what it yields. Its
/// documentation: the slices are the parts of the string separated by any
/// amount of Unicode White_Space, in order, with no empty slice; that is,
/// the maximal runs of non-whitespace characters.
#[verifier::external_body]
fn split_words<'a>(line: &'a str) -> (r: Vec<&'a str>)
    ensures
        r@.len() == words(line@).len(),
        forall|i: int| 0 <= i < r@.len() ==> (#[trigger] r@[i])@ == words(line@)[i],
{
    line.split_whitespace().collect()
}

/// Why a command line does not make a request.
#[derive(Debug, Clone, Copy, PartialEq, Eq, Structural)]
pub enum CommandError {
    /// The line has fewer than two words.
    TooFewWords,
    /// The first word is not `get`, `insert` or `remove`.
    UnknownCommand,
    /// The command has the wrong number of arguments.
    WrongArity,
}

/// The request a command line of the given words makes, as its type, key
/// field and value field: `get KEY`, `insert KEY VALUE` or `remove KEY`.
pub open spec fn command_outcome(w: Seq<Seq<char>>) -> Result<
    (MessageType, Seq<u8>, Seq<u8>),
    CommandError,
> {
    if w.len() < 2 {
        Err(CommandError::TooFewWords)
    } else if w[0] == "get"@ {
        if w.len() != 2 {
            Err(CommandError::WrongArity)
        } else {
            Ok((MessageType::Get, fixed_field(encode_utf8(w[1]), KEY_SIZE as nat), zeros(VALUE_SIZE as nat)))
        }
    } else if w[0] == "insert"@ {
        if w.len() != 3 {
            Err(CommandError::WrongArity)
        } else {
            Ok((
                MessageType::Insert,
                fixed_field(encode_utf8(w[1]), KEY_SIZE as nat),
                fixed_field(encode_utf8(w[2]), VALUE_SIZE as nat),
            ))
        }
    } else if w[0] == "remove"@ {
        if w.len() != 2 {
            Err(CommandError::WrongArity)
        } else {
            Ok((MessageType::Remove, fixed_field(encode_utf8(w[1]), KEY_SIZE as nat), zeros(VALUE_SIZE as nat)))
        }
    } else {
        Err(CommandError::UnknownCommand)
    }
}

/// What a command line's words make, said of any result: a request is made
/// only when the first word names a command and the line has exactly the
/// words that command takes (two for `get` and `remove`, three for
/// `insert`); its key field holds the second word and, for `insert`, its
/// value field the third. Fewer than two words is `TooFewWords`; a first word
/// that names no command is `UnknownCommand`; a known command with more or
/// fewer words is `WrongArity`.
pub proof fn lemma_command_words(w: Seq<Seq<char>>)
    ensures
        command_outcome(w) is Ok ==> w.len() >= 2 && (w[0] == "get"@ || w[0] == "insert"@ || w[0]
            == "remove"@),
        command_outcome(w) matches Ok((typ, key, value)) ==> {
            &&& typ == MessageType::Get ==> w[0] == "get"@ && w.len() == 2 && value == zeros(
                VALUE_SIZE as nat,
            )
            &&& typ == MessageType::Remove ==> w[0] == "remove"@ && w.len() == 2 && value == zeros(
                VALUE_SIZE as nat,
            )
            &&& typ == MessageType::Insert ==> w[0] == "insert"@ && w.len() == 3 && value
                == fixed_field(encode_utf8(w[2]), VALUE_SIZE as nat)
            &&& typ == MessageType::Get || typ == MessageType::Insert || typ == MessageType::Remove
            &&& key == fixed_field(encode_utf8(w[1]), KEY_SIZE as nat)
        },
        w.len() < 2 ==> command_outcome(w) == Err::<(MessageType, Seq<u8>, Seq<u8>), _>(
            CommandError::TooFewWords,
        ),
        w.len() >= 2 && w[0] != "get"@ && w[0] != "insert"@ && w[0] != "remove"@ ==> command_outcome(w)
            == Err::<(MessageType, Seq<u8>, Seq<u8>), _>(CommandError::UnknownCommand),
        w.len() >= 2 && w[0] == "insert"@ && w.len() != 3 ==> command_outcome(w) == Err::<
            (MessageType, Seq<u8>, Seq<u8>),
            _,
        >(CommandError::WrongArity),
        w.len() >= 2 && (w[0] == "get"@ || w[0] == "remove"@) && w.len() != 2 ==> command_outcome(w)
            == Err::<(MessageType, Seq<u8>, Seq<u8>), _>(CommandError::WrongArity),
        w.len() == 3 && w[0] == "insert"@ ==> command_outcome(w) == Ok::<_, CommandError>(
            (
                MessageType::Insert,
                fixed_field(encode_utf8(w[1]), KEY_SIZE as nat),
                fixed_field(encode_utf8(w[2]), VALUE_SIZE as nat),
            ),
        ),
        w.len() == 2 && w[0] == "get"@ ==> command_outcome(w) == Ok::<_, CommandError>(
            (MessageType::Get, fixed_field(encode_utf8(w[1]), KEY_SIZE as nat), zeros(VALUE_SIZE as nat)),
        ),
        w.len() == 2 && w[0] == "remove"@ ==> command_outcome(w) == Ok::<_, CommandError>(
            (MessageType::Remove, fixed_field(encode_utf8(w[1]), KEY_SIZE as nat), zeros(VALUE_SIZE as nat)),
        ),
{
    reveal_strlit("get");
    reveal_strlit("insert");
    reveal_strlit("remove");
    assert("get"@.len() == 3);
    assert("insert"@.len() == 6);
    assert("insert"@[0] != "remove"@[0]);
    assert("get"@ != "insert"@);
    assert("get"@ != "remove"@);
    assert("insert"@ != "remove"@);
}

fn same_text(a: &str, b: &str) -> (r: bool)
    ensures
        r == (a@ == b@),
{
    a.to_owned() == b.to_owned()
}

fn zero_value() -> (r: [u8; VALUE_SIZE])
    ensures
        r@ == zeros(VALUE_SIZE as nat),
{
    let r = [0u8; VALUE_SIZE];
    assert(r@ =~= zeros(VALUE_SIZE as nat));
    r
}

/// The request a typed command line makes: `get KEY`, `insert KEY VALUE` or
/// `remove KEY`, the words separated by whitespace.
pub fn parse_command(line: &str) -> (r: Result<Message, CommandError>)
    ensures
        match r {
            Ok(m) => command_outcome(words(line@)) == Ok::<_, CommandError>((m.typ, m.key@, m.value@)),
            Err(e) => command_outcome(words(line@)) == Err::<(MessageType, Seq<u8>, Seq<u8>), _>(e),
        },
{
    let w = split_words(line);
    if w.len() < 2 {
        return Err(CommandError::TooFewWords);
    }
    let command = w[0];
    if same_text(command, "get") {
        if w.len() != 2 {
            return Err(CommandError::WrongArity);
        }
        Ok(Message { typ: MessageType::Get, key: Message::serliaize_key(w[1]), value: zero_value() })
    } else if same_text(command, "insert") {
        if w.len() != 3 {
            return Err(CommandError::WrongArity);
        }
        Ok(
            Message {
                typ: MessageType::Insert,
                key: Message::serliaize_key(w[1]),
                value: Message::serliaize_value(w[2]),
            },
        )
    } else if same_text(command, "remove") {
        if w.len() != 2 {
            return Err(CommandError::WrongArity);
        }
        Ok(Message { typ: MessageType::Remove, key: Message::serliaize_key(w[1]), value: zero_value() })
    } else {
        Err(CommandError::UnknownCommand)
    }
}

/// The character of the decimal digit `d`.
pub open spec fn digit_char(d: nat) -> char {
    (d + 48) as char
}

/// The decimal numeral of `n`, without leading zeros.
pub open spec fn decimal(n: nat) -> Seq<char>
    decreases n,
{
    if n < 10 {
        seq![digit_char(n)]
    } else {
        decimal(n / 10).push(digit_char(n % 10))
    }
}

/// The key text of generated requests: `key` followed by the number.
pub open spec fn key_text(n: nat) -> Seq<char> {
    seq!['k', 'e', 'y'] + decimal(n)
}

/// The value text of generated requests: `value` followed by the number.
pub open spec fn value_text(n: nat) -> Seq<char> {
    seq!['v', 'a', 'l', 'u', 'e'] + decimal(n)
}

/// The request type that a generated request of the given kind has:
/// `Get`, `Insert` and `Remove` for kinds 0, 1 and 2.
pub open spec fn kind_type(kind: nat) -> MessageType {
    if kind == 0 {
        MessageType::Get
    } else if kind == 1 {
        MessageType::Insert
    } else {
        MessageType::Remove
    }
}

/// `m` is the generated request of the given kind for key number
/// `key_index` and value number `value_index`; only an `Insert` carries a
/// value.
pub open spec fn is_generated(m: Message, kind: nat, key_index: nat, value_index: nat) -> bool {
    &&& m.typ == kind_type(kind)
    &&& m.key@ == fixed_field(encode_utf8(key_text(key_index)), KEY_SIZE as nat)
    &&& m.value@ == if kind == 1 {
        fixed_field(encode_utf8(value_text(value_index)), VALUE_SIZE as nat)
    } else {
        zeros(VALUE_SIZE as nat)
    }
}

/// The bytes of characters below 128, one each.
pub open spec fn ascii_bytes(cs: Seq<char>) -> Seq<u8> {
    Seq::new(cs.len(), |i: int| cs[i] as u8)
}

proof fn lemma_decimal_ascii(n: nat)
    ensures
        is_ascii_chars(decimal(n)),
    decreases n,
{
    if n >= 10 {
        lemma_decimal_ascii(n / 10);
    }
}

proof fn lemma_ascii_encoding(cs: Seq<char>)
    requires
        is_ascii_chars(cs),
    ensures
        encode_utf8(cs) == ascii_bytes(cs),
{
    is_ascii_chars_encode_utf8(cs);
    assert(encode_utf8(cs) =~= ascii_bytes(cs));
}

/// Appends the ASCII digits of `n`.
fn push_decimal(out: &mut Vec<u8>, n: u32)
    ensures
        final(out)@ == old(out)@ + ascii_bytes(decimal(n as nat)),
    decreases n,
{
    if n >= 10 {
        push_decimal(out, n / 10);
    }
    let d: u8 = (n % 10) as u8;
    out.push(48u8 + d);
    proof {
        let dn = decimal(n as nat);
        assert((48 + d) as char as u8 == 48 + d);
        if n >= 10 {
            assert(dn == decimal((n / 10) as nat).push(digit_char((n % 10) as nat)));
        }
        assert(out@ =~= old(out)@ + ascii_bytes(dn));
    }
}

/// The UTF-8 bytes of `prefix` followed by the decimal numeral of `n`.
fn numbered_text(prefix: &Vec<u8>, n: u32) -> (r: Vec<u8>)
    ensures
        r@ == prefix@ + ascii_bytes(decimal(n as nat)),
{
    let mut out: Vec<u8> = Vec::new();
    let mut i: usize = 0;
    while i < prefix.len()
        invariant
            i <= prefix@.len(),
            out@ == prefix@.subrange(0, i as int),
        decreases prefix@.len() - i,
    {
        out.push(prefix[i]);
        i = i + 1;
        assert(out@ =~= prefix@.subrange(0, i as int));
    }
    assert(out@ =~= prefix@);
    push_decimal(&mut out, n);
    out
}

/// The request of the given kind for key `key<key_index>` and, for an
/// `Insert`, value `value<value_index>`.
pub fn generated_request(kind: u32, key_index: u32, value_index: u32) -> (r: Message)
    requires
        kind <= 2,
    ensures
        is_generated(r, kind as nat, key_index as nat, value_index as nat),
{
    let key_prefix: Vec<u8> = vec![107u8, 101u8, 121u8];
    let key_bytes = numbered_text(&key_prefix, key_index);
    proof {
        let t = key_text(key_index as nat);
        lemma_decimal_ascii(key_index as nat);
        assert(is_ascii_chars(t));
        lemma_ascii_encoding(t);
        assert(key_bytes@ =~= ascii_bytes(t));
    }
    let key = fill_field::<KEY_SIZE>(key_bytes.as_slice());
    if kind == 1 {
        let value_prefix: Vec<u8> = vec![118u8, 97u8, 108u8, 117u8, 101u8];
        let value_bytes = numbered_text(&value_prefix, value_index);
        proof {
            let t = value_text(value_index as nat);
            lemma_decimal_ascii(value_index as nat);
            assert(is_ascii_chars(t));
            lemma_ascii_encoding(t);
            assert(value_bytes@ =~= ascii_bytes(t));
        }
        let value = fill_field::<VALUE_SIZE>(value_bytes.as_slice());
        Message { typ: MessageType::Insert, key, value }
    } else {
        let typ = if kind == 0 { MessageType::Get } else { MessageType::Remove };
        Message { typ, key, value: zero_value() }
    }
}

#[verifier::external_type_specification]
#[verifier::external_body]
pub struct ExThreadRng(ThreadRng);

/// Calls `rand::thread_rng`, which hands out the generator of the current
/// thread, seeded by the system; nothing is stated of it.
#[verifier::external_body]
fn thread_rng() -> ThreadRng {
    rand::thread_rng()
}

/// Calls `Rng::gen_range(low..=high)` on the generator. The crate samples a
/// value of the inclusive range `low..=high` and panics only on an empty
/// range; which value comes is left to chance, so only that it lies in the
/// range is stated.
#[verifier::external_body]
fn gen_range_inclusive(rng: &mut ThreadRng, low: u32, high: u32) -> (r: u32)
    requires
        low <= high,
    ensures
        low <= r <= high,
{
    rng.gen_range(low..=high)
}

/// A random request for load generation: a `Get`, `Insert` or `Remove` for
/// one of the keys `key1` to `key50`, an `Insert` carrying one of the values
/// `value1` to `value1000`.
pub fn random_request() -> (r: Message)
    ensures
        exists|kind: nat, key_index: nat, value_index: nat|
            kind <= 2 && 1 <= key_index <= 50 && 1 <= value_index <= 1000
                && #[trigger] is_generated(r, kind, key_index, value_index),
{
    let kind = gen_range_inclusive(&mut thread_rng(), 0, 2);
    let key_index = gen_range_inclusive(&mut thread_rng(), 1, 50);
    let value_index = gen_range_inclusive(&mut thread_rng(), 1, 1000);
    let r = generated_request(kind, key_index, value_index);
    assert(is_generated(r, kind as nat, key_index as nat, value_index as nat));
    r
}

} // verus!
