//! The server's answer to one request: the request is applied to the hash
//! table, and the reply says what was found, replaced or removed.

use crate::hash_table::{lemma_insert_len, lemma_remove_len, lookup, HashTable};
use crate::message::{
    lemma_field_roundtrip, trim_trailing_nuls, field_text, fixed_field, zeros, Message, MessageType, KEY_SIZE, VALUE_SIZE,
};
use vstd::prelude::*;
use vstd::utf8::encode_utf8;

verus! {

/// The table's contents with each stored string taken as its characters.
pub open spec fn text_table(m: Map<Seq<char>, String>) -> Map<Seq<char>, Seq<char>> {
    m.map_values(|s: String| s@)
}

/// Whether the message is a request the server acts on.
pub open spec fn is_request(t: MessageType) -> bool {
    t == MessageType::Get || t == MessageType::Insert || t == MessageType::Remove
}

/// The type of the reply to `msg` from a table holding `t`.
pub open spec fn reply_type(t: Map<Seq<char>, Seq<char>>, msg: Message) -> MessageType {
    let k = field_text(msg.key@);
    match msg.typ {
        MessageType::Get => if t.contains_key(k) {
            MessageType::GetSuccess
        } else {
            MessageType::GetNotFound
        },
        MessageType::Insert => MessageType::InsertSuccess,
        MessageType::Remove => if t.contains_key(k) {
            MessageType::RemoveSuccess
        } else {
            MessageType::RemoveNotFound
        },
        _ => MessageType::Empty,
    }
}

/// The key field of the reply: the request's key field when the key was
/// bound, zero bytes otherwise.
pub open spec fn reply_key(t: Map<Seq<char>, Seq<char>>, msg: Message) -> Seq<u8> {
    if is_request(msg.typ) && t.contains_key(field_text(msg.key@)) {
        msg.key@
    } else {
        zeros(KEY_SIZE as nat)
    }
}

/// The value field of the reply: the value the key was bound to before the
/// request, when it was bound; zero bytes otherwise.
pub open spec fn reply_value(t: Map<Seq<char>, Seq<char>>, msg: Message) -> Seq<u8> {
    let k = field_text(msg.key@);
    if is_request(msg.typ) && t.contains_key(k) {
        fixed_field(encode_utf8(t[k]), VALUE_SIZE as nat)
    } else {
        zeros(VALUE_SIZE as nat)
    }
}

/// The table's contents after serving `msg`.
pub open spec fn table_after(t: Map<Seq<char>, Seq<char>>, msg: Message) -> Map<
    Seq<char>,
    Seq<char>,
> {
    let k = field_text(msg.key@);
    match msg.typ {
        MessageType::Insert => t.insert(k, field_text(msg.value@)),
        MessageType::Remove => t.remove(k),
        _ => t,
    }
}

fn not_found(typ: MessageType) -> (r: Message)
    ensures
        r.typ == typ,
        r.key@ == zeros(KEY_SIZE as nat),
        r.value@ == zeros(VALUE_SIZE as nat),
{
    let r = Message { typ, key: [0u8; KEY_SIZE], value: [0u8; VALUE_SIZE] };
    assert(r.key@ =~= zeros(KEY_SIZE as nat));
    assert(r.value@ =~= zeros(VALUE_SIZE as nat));
    r
}

fn get_handler(ht: &HashTable<String>, msg: &Message) -> (r: Message)
    requires
        ht.wf(),
        ht.spec_capacity() > 0,
        msg.typ == MessageType::Get,
    ensures
        r.typ == reply_type(text_table(ht@), *msg),
        r.key@ == reply_key(text_table(ht@), *msg),
        r.value@ == reply_value(text_table(ht@), *msg),
{
    let k = Message::deserialize_key(msg.key);
    match ht.get(&k) {
        Some(value) => Message {
            typ: MessageType::GetSuccess,
            key: msg.key,
            value: Message::serliaize_value(value.as_str()),
        },
        None => not_found(MessageType::GetNotFound),
    }
}

fn insert_handler(ht: &mut HashTable<String>, msg: &Message) -> (r: Message)
    requires
        old(ht).wf(),
        old(ht).spec_capacity() > 0,
        old(ht)@.len() < usize::MAX,
        msg.typ == MessageType::Insert,
    ensures
        final(ht).wf(),
        final(ht).spec_capacity() == old(ht).spec_capacity(),
        text_table(final(ht)@) == table_after(text_table(old(ht)@), *msg),
        r.typ == reply_type(text_table(old(ht)@), *msg),
        r.key@ == reply_key(text_table(old(ht)@), *msg),
        r.value@ == reply_value(text_table(old(ht)@), *msg),
{
    let k = Message::deserialize_key(msg.key);
    let v = Message::deserialize_value(msg.value);
    let ghost kv = k@;
    let ghost vv = v@;
    let r = match ht.insert(k, v) {
        Some(old_value) => Message {
            typ: MessageType::InsertSuccess,
            key: msg.key,
            value: Message::serliaize_value(old_value.as_str()),
        },
        None => not_found(MessageType::InsertSuccess),
    };
    assert(text_table(ht@) =~= text_table(old(ht)@).insert(kv, vv));
    r
}

fn remove_handler(ht: &mut HashTable<String>, msg: &Message) -> (r: Message)
    requires
        old(ht).wf(),
        old(ht).spec_capacity() > 0,
        msg.typ == MessageType::Remove,
    ensures
        final(ht).wf(),
        final(ht).spec_capacity() == old(ht).spec_capacity(),
        text_table(final(ht)@) == table_after(text_table(old(ht)@), *msg),
        r.typ == reply_type(text_table(old(ht)@), *msg),
        r.key@ == reply_key(text_table(old(ht)@), *msg),
        r.value@ == reply_value(text_table(old(ht)@), *msg),
{
    let k = Message::deserialize_key(msg.key);
    let r = match ht.remove(&k) {
        Some(value) => Message {
            typ: MessageType::RemoveSuccess,
            key: msg.key,
            value: Message::serliaize_value(value.as_str()),
        },
        None => not_found(MessageType::RemoveNotFound),
    };
    assert(text_table(ht@) =~= text_table(old(ht)@).remove(k@));
    r
}

/// Serves one request: a `Get`, `Insert` or `Remove` is applied to the
/// table and answered; any other message is answered with an empty message
/// and leaves the table as it was.
pub fn handle_request(ht: &mut HashTable<String>, msg: &Message) -> (r: Message)
    requires
        old(ht).wf(),
        old(ht).spec_capacity() > 0,
        msg.typ == MessageType::Insert ==> old(ht)@.len() < usize::MAX,
    ensures
        final(ht).wf(),
        final(ht).spec_capacity() == old(ht).spec_capacity(),
        text_table(final(ht)@) == table_after(text_table(old(ht)@), *msg),
        r.typ == reply_type(text_table(old(ht)@), *msg),
        r.key@ == reply_key(text_table(old(ht)@), *msg),
        r.value@ == reply_value(text_table(old(ht)@), *msg),
{
    match msg.typ {
        MessageType::Get => get_handler(ht, msg),
        MessageType::Insert => insert_handler(ht, msg),
        MessageType::Remove => remove_handler(ht, msg),
        _ => Message::empty(),
    }
}

/// Read after write: a `Get` for the key of an `Insert`, served right after
/// it, succeeds and returns the inserted text in a value field.
pub proof fn lemma_get_after_insert_request(t: Map<Seq<char>, Seq<char>>, ins: Message, get: Message)
    requires
        ins.typ == MessageType::Insert,
        get.typ == MessageType::Get,
        field_text(get.key@) == field_text(ins.key@),
    ensures
        reply_type(table_after(t, ins), get) == MessageType::GetSuccess,
        reply_key(table_after(t, ins), get) == get.key@,
        reply_value(table_after(t, ins), get) == fixed_field(
            encode_utf8(field_text(ins.value@)),
            VALUE_SIZE as nat,
        ),
{
}

/// A value written from a text whose UTF-8 bytes fit in the value field and
/// that does not end in a NUL character comes back byte for byte: the value
/// field of the reply to a later `Get` equals the inserted value field.
pub proof fn lemma_get_echoes_inserted_value(
    t: Map<Seq<char>, Seq<char>>,
    ins: Message,
    get: Message,
    text: Seq<char>,
)
    requires
        ins.typ == MessageType::Insert,
        get.typ == MessageType::Get,
        field_text(get.key@) == field_text(ins.key@),
        encode_utf8(text).len() <= VALUE_SIZE,
        trim_trailing_nuls(text) == text,
        ins.value@ == fixed_field(encode_utf8(text), VALUE_SIZE as nat),
    ensures
        reply_value(table_after(t, ins), get) == ins.value@,
{
    lemma_field_roundtrip(text, VALUE_SIZE as nat);
}

/// Removing a key that an `Insert` just bound answers `RemoveSuccess` with the
/// inserted text, and a `Get` after that finds nothing.
pub proof fn lemma_remove_after_insert_request(
    t: Map<Seq<char>, Seq<char>>,
    ins: Message,
    rem: Message,
    get: Message,
)
    requires
        ins.typ == MessageType::Insert,
        rem.typ == MessageType::Remove,
        get.typ == MessageType::Get,
        field_text(rem.key@) == field_text(ins.key@),
        field_text(get.key@) == field_text(ins.key@),
    ensures
        reply_type(table_after(t, ins), rem) == MessageType::RemoveSuccess,
        reply_value(table_after(t, ins), rem) == fixed_field(
            encode_utf8(field_text(ins.value@)),
            VALUE_SIZE as nat,
        ),
        reply_type(table_after(table_after(t, ins), rem), get) == MessageType::GetNotFound,
        reply_value(table_after(table_after(t, ins), rem), get) == zeros(VALUE_SIZE as nat),
{
}

/// Only `Insert` and `Remove` change the table; a `Get` or any other
/// message leaves it as it was.
pub proof fn lemma_only_writes_change_table(t: Map<Seq<char>, Seq<char>>, msg: Message)
    requires
        msg.typ != MessageType::Insert,
        msg.typ != MessageType::Remove,
    ensures
        table_after(t, msg) == t,
{
}

/// A message that is not a request is answered with an empty message.
pub proof fn lemma_non_request_answered_empty(t: Map<Seq<char>, Seq<char>>, msg: Message)
    requires
        !is_request(msg.typ),
    ensures
        reply_type(t, msg) == MessageType::Empty,
        reply_key(t, msg) == zeros(KEY_SIZE as nat),
        reply_value(t, msg) == zeros(VALUE_SIZE as nat),
{
}

/// A request acts on exactly the entry whose key is the text of its key
/// field: after a `Get`, `Insert` or `Remove`, every key whose text differs
/// from the key field's text is bound as before; an `Insert` binds that text
/// itself to the text of the value field, a `Remove` unbinds it, and a `Get`
/// leaves it as it was.
pub proof fn lemma_request_acts_on_key_text(t: Map<Seq<char>, Seq<char>>, msg: Message)
    requires
        is_request(msg.typ),
    ensures
        forall|k: Seq<char>|
            k != field_text(msg.key@) ==> #[trigger] lookup(table_after(t, msg), k) == lookup(t, k),
        msg.typ == MessageType::Insert ==> lookup(table_after(t, msg), field_text(msg.key@))
            == Some(field_text(msg.value@)),
        msg.typ == MessageType::Remove ==> lookup(table_after(t, msg), field_text(msg.key@)) is None,
        msg.typ == MessageType::Get ==> lookup(table_after(t, msg), field_text(msg.key@)) == lookup(
            t,
            field_text(msg.key@),
        ),
{
}

/// A request's reply is about the entry of its key text: it reports success
/// exactly when that text was bound (an `Insert` always succeeds), echoes
/// the key field then, and carries the value the text was bound to; when the
/// text was not bound both fields are zero.
pub proof fn lemma_reply_reports_key_text(t: Map<Seq<char>, Seq<char>>, msg: Message)
    requires
        is_request(msg.typ),
    ensures
        msg.typ == MessageType::Get ==> (reply_type(t, msg) == MessageType::GetSuccess
            <==> t.contains_key(field_text(msg.key@))),
        msg.typ == MessageType::Get && !t.contains_key(field_text(msg.key@)) ==> reply_type(t, msg)
            == MessageType::GetNotFound,
        msg.typ == MessageType::Remove ==> (reply_type(t, msg) == MessageType::RemoveSuccess
            <==> t.contains_key(field_text(msg.key@))),
        msg.typ == MessageType::Remove && !t.contains_key(field_text(msg.key@)) ==> reply_type(t, msg)
            == MessageType::RemoveNotFound,
        msg.typ == MessageType::Insert ==> reply_type(t, msg) == MessageType::InsertSuccess,
        t.contains_key(field_text(msg.key@)) ==> reply_key(t, msg) == msg.key@ && reply_value(t, msg)
            == fixed_field(encode_utf8(t[field_text(msg.key@)]), VALUE_SIZE as nat),
        !t.contains_key(field_text(msg.key@)) ==> reply_key(t, msg) == zeros(KEY_SIZE as nat)
            && reply_value(t, msg) == zeros(VALUE_SIZE as nat),
{
}

/// Requests whose key texts differ act on different entries: after inserting
/// two different key texts one after the other, both are bound, each to its
/// own value, a `Get` for the first returns the first value, and the second
/// insert reports the second key as new when it was not bound before.
pub proof fn lemma_distinct_keys_independent(
    t: Map<Seq<char>, Seq<char>>,
    ins1: Message,
    ins2: Message,
    get: Message,
)
    requires
        ins1.typ == MessageType::Insert,
        ins2.typ == MessageType::Insert,
        get.typ == MessageType::Get,
        field_text(ins1.key@) != field_text(ins2.key@),
        field_text(get.key@) == field_text(ins1.key@),
    ensures
        lookup(table_after(table_after(t, ins1), ins2), field_text(ins1.key@)) == Some(
            field_text(ins1.value@),
        ),
        lookup(table_after(table_after(t, ins1), ins2), field_text(ins2.key@)) == Some(
            field_text(ins2.value@),
        ),
        !t.contains_key(field_text(ins2.key@)) ==> reply_key(table_after(t, ins1), ins2) == zeros(
            KEY_SIZE as nat,
        ) && reply_value(table_after(t, ins1), ins2) == zeros(VALUE_SIZE as nat),
        reply_type(table_after(table_after(t, ins1), ins2), get) == MessageType::GetSuccess,
        reply_value(table_after(table_after(t, ins1), ins2), get) == fixed_field(
            encode_utf8(field_text(ins1.value@)),
            VALUE_SIZE as nat,
        ),
{
    let t1 = table_after(t, ins1);
    let t2 = table_after(t1, ins2);
    assert(t2 == t1.insert(field_text(ins2.key@), field_text(ins2.value@)));
    assert(t2.contains_key(field_text(ins1.key@)));
    assert(t2[field_text(ins1.key@)] == field_text(ins1.value@));
}

/// The number of keys changes only by the one key text a request names: an
/// `Insert` adds one exactly when that text was not bound, a `Remove` takes
/// one away exactly when it was, and a `Get` changes nothing.
pub proof fn lemma_request_len(t: Map<Seq<char>, Seq<char>>, msg: Message)
    requires
        t.dom().finite(),
        is_request(msg.typ),
    ensures
        msg.typ == MessageType::Insert ==> table_after(t, msg).len() == if t.contains_key(
            field_text(msg.key@),
        ) {
            t.len()
        } else {
            t.len() + 1
        },
        msg.typ == MessageType::Remove ==> table_after(t, msg).len() == if t.contains_key(
            field_text(msg.key@),
        ) {
            t.len() - 1
        } else {
            t.len() as int
        },
        msg.typ == MessageType::Get ==> table_after(t, msg).len() == t.len(),
{
    let k = field_text(msg.key@);
    if msg.typ == MessageType::Insert {
        lemma_insert_len(t, k, field_text(msg.value@));
    } else if msg.typ == MessageType::Remove {
        lemma_remove_len(t, k);
    }
}

} // verus!
