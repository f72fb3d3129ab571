use vstd::prelude::*;

use crate::key::{Key, KeyView, blob_len_at, comment_len_at, comment_text, key_at, key_end, key_fits};
use crate::wire::{be_u32_at, copy_range, push_u32_be, read_u32_be, u32_be_bytes};

verus! {

/// Requests that a client sends to an agent (section 6.1 of the agent protocol).
#[allow(non_camel_case_types)]
#[derive(Debug, Clone, Copy, PartialEq, Eq, Structural)]
pub enum msgSendType {
    SSH_AGENTC_REQUEST_IDENTITIES,
    SSH_AGENTC_SIGN_REQUEST,
    SSH_AGENTC_ADD_IDENTITY,
    SSH_AGENTC_REMOVE_IDENTITY,
    SSH_AGENTC_REMOVE_ALL_IDENTITIES,
    SSH_AGENTC_ADD_SMARTCARD_KEY,
    SSH_AGENTC_REMOVE_SMARTCARD_KEY,
    SSH_AGENTC_LOCK,
    SSH_AGENTC_UNLOCK,
    SSH_AGENTC_ADD_ID_CONSTRAINED,
    SSH_AGENTC_ADD_SMARTCARD_KEY_CONSTRAINED,
    SSH_AGENTC_EXTENSION,
}

/// Replies that an agent sends back (section 6.1 of the agent protocol).
#[allow(non_camel_case_types)]
#[derive(Debug, Clone, Copy, PartialEq, Eq, Structural)]
pub enum msgReplyType {
    SSH_AGENT_FAILURE,
    SSH_AGENT_SUCCESS,
    SSH_AGENT_IDENTITIES_ANSWER,
    SSH_AGENT_SIGN_RESPONSE,
    SSH_AGENT_EXTENSION_FAILURE,
    SSH_AGENT_EXTENSION_RESPONSE,
}

/// The protocol number of each request.
pub open spec fn send_type_code(t: msgSendType) -> u8 {
    match t {
        msgSendType::SSH_AGENTC_REQUEST_IDENTITIES => 11,
        msgSendType::SSH_AGENTC_SIGN_REQUEST => 13,
        msgSendType::SSH_AGENTC_ADD_IDENTITY => 17,
        msgSendType::SSH_AGENTC_REMOVE_IDENTITY => 18,
        msgSendType::SSH_AGENTC_REMOVE_ALL_IDENTITIES => 19,
        msgSendType::SSH_AGENTC_ADD_SMARTCARD_KEY => 20,
        msgSendType::SSH_AGENTC_REMOVE_SMARTCARD_KEY => 21,
        msgSendType::SSH_AGENTC_LOCK => 22,
        msgSendType::SSH_AGENTC_UNLOCK => 23,
        msgSendType::SSH_AGENTC_ADD_ID_CONSTRAINED => 25,
        msgSendType::SSH_AGENTC_ADD_SMARTCARD_KEY_CONSTRAINED => 26,
        msgSendType::SSH_AGENTC_EXTENSION => 27,
    }
}

/// The protocol number of each reply.
pub open spec fn reply_type_code(t: msgReplyType) -> u8 {
    match t {
        msgReplyType::SSH_AGENT_FAILURE => 5,
        msgReplyType::SSH_AGENT_SUCCESS => 6,
        msgReplyType::SSH_AGENT_IDENTITIES_ANSWER => 12,
        msgReplyType::SSH_AGENT_SIGN_RESPONSE => 14,
        msgReplyType::SSH_AGENT_EXTENSION_FAILURE => 28,
        msgReplyType::SSH_AGENT_EXTENSION_RESPONSE => 29,
    }
}

/// The request whose protocol number is `b`, if there is one.
pub open spec fn send_type_of(b: u8) -> Option<msgSendType> {
    match b {
        11 => Some(msgSendType::SSH_AGENTC_REQUEST_IDENTITIES),
        13 => Some(msgSendType::SSH_AGENTC_SIGN_REQUEST),
        17 => Some(msgSendType::SSH_AGENTC_ADD_IDENTITY),
        18 => Some(msgSendType::SSH_AGENTC_REMOVE_IDENTITY),
        19 => Some(msgSendType::SSH_AGENTC_REMOVE_ALL_IDENTITIES),
        20 => Some(msgSendType::SSH_AGENTC_ADD_SMARTCARD_KEY),
        21 => Some(msgSendType::SSH_AGENTC_REMOVE_SMARTCARD_KEY),
        22 => Some(msgSendType::SSH_AGENTC_LOCK),
        23 => Some(msgSendType::SSH_AGENTC_UNLOCK),
        25 => Some(msgSendType::SSH_AGENTC_ADD_ID_CONSTRAINED),
        26 => Some(msgSendType::SSH_AGENTC_ADD_SMARTCARD_KEY_CONSTRAINED),
        27 => Some(msgSendType::SSH_AGENTC_EXTENSION),
        _ => None,
    }
}

/// The reply whose protocol number is `b`, if there is one.
pub open spec fn reply_type_of(b: u8) -> Option<msgReplyType> {
    match b {
        5 => Some(msgReplyType::SSH_AGENT_FAILURE),
        6 => Some(msgReplyType::SSH_AGENT_SUCCESS),
        12 => Some(msgReplyType::SSH_AGENT_IDENTITIES_ANSWER),
        14 => Some(msgReplyType::SSH_AGENT_SIGN_RESPONSE),
        28 => Some(msgReplyType::SSH_AGENT_EXTENSION_FAILURE),
        29 => Some(msgReplyType::SSH_AGENT_EXTENSION_RESPONSE),
        _ => None,
    }
}

impl msgSendType {
    /// The request with protocol number `discriminant`, or `None` for any other byte.
    pub fn from_repr(discriminant: u8) -> (r: Option<msgSendType>)
        ensures
            r == send_type_of(discriminant),
    {
        match discriminant {
            11 => Some(msgSendType::SSH_AGENTC_REQUEST_IDENTITIES),
            13 => Some(msgSendType::SSH_AGENTC_SIGN_REQUEST),
            17 => Some(msgSendType::SSH_AGENTC_ADD_IDENTITY),
            18 => Some(msgSendType::SSH_AGENTC_REMOVE_IDENTITY),
            19 => Some(msgSendType::SSH_AGENTC_REMOVE_ALL_IDENTITIES),
            20 => Some(msgSendType::SSH_AGENTC_ADD_SMARTCARD_KEY),
            21 => Some(msgSendType::SSH_AGENTC_REMOVE_SMARTCARD_KEY),
            22 => Some(msgSendType::SSH_AGENTC_LOCK),
            23 => Some(msgSendType::SSH_AGENTC_UNLOCK),
            25 => Some(msgSendType::SSH_AGENTC_ADD_ID_CONSTRAINED),
            26 => Some(msgSendType::SSH_AGENTC_ADD_SMARTCARD_KEY_CONSTRAINED),
            27 => Some(msgSendType::SSH_AGENTC_EXTENSION),
            _ => None,
        }
    }

    /// The protocol number of this request.
    pub fn repr(&self) -> (b: u8)
        ensures
            b == send_type_code(*self),
    {
        match self {
            msgSendType::SSH_AGENTC_REQUEST_IDENTITIES => 11,
            msgSendType::SSH_AGENTC_SIGN_REQUEST => 13,
            msgSendType::SSH_AGENTC_ADD_IDENTITY => 17,
            msgSendType::SSH_AGENTC_REMOVE_IDENTITY => 18,
            msgSendType::SSH_AGENTC_REMOVE_ALL_IDENTITIES => 19,
            msgSendType::SSH_AGENTC_ADD_SMARTCARD_KEY => 20,
            msgSendType::SSH_AGENTC_REMOVE_SMARTCARD_KEY => 21,
            msgSendType::SSH_AGENTC_LOCK => 22,
            msgSendType::SSH_AGENTC_UNLOCK => 23,
            msgSendType::SSH_AGENTC_ADD_ID_CONSTRAINED => 25,
            msgSendType::SSH_AGENTC_ADD_SMARTCARD_KEY_CONSTRAINED => 26,
            msgSendType::SSH_AGENTC_EXTENSION => 27,
        }
    }
}


impl msgReplyType {
    /// The reply with protocol number `discriminant`, or `None` for any other byte.
    pub fn from_repr(discriminant: u8) -> (r: Option<msgReplyType>)
        ensures
            r == reply_type_of(discriminant),
    {
        match discriminant {
            5 => Some(msgReplyType::SSH_AGENT_FAILURE),
            6 => Some(msgReplyType::SSH_AGENT_SUCCESS),
            12 => Some(msgReplyType::SSH_AGENT_IDENTITIES_ANSWER),
            14 => Some(msgReplyType::SSH_AGENT_SIGN_RESPONSE),
            28 => Some(msgReplyType::SSH_AGENT_EXTENSION_FAILURE),
            29 => Some(msgReplyType::SSH_AGENT_EXTENSION_RESPONSE),
            _ => None,
        }
    }

    /// The protocol number of this reply.
    pub fn repr(&self) -> (b: u8)
        ensures
            b == reply_type_code(*self),
    {
        match self {
            msgReplyType::SSH_AGENT_FAILURE => 5,
            msgReplyType::SSH_AGENT_SUCCESS => 6,
            msgReplyType::SSH_AGENT_IDENTITIES_ANSWER => 12,
            msgReplyType::SSH_AGENT_SIGN_RESPONSE => 14,
            msgReplyType::SSH_AGENT_EXTENSION_FAILURE => 28,
            msgReplyType::SSH_AGENT_EXTENSION_RESPONSE => 29,
        }
    }
}


/// Reading a request back from its protocol number gives the same request, and a number
/// that reads as a request is that request's number.
pub proof fn lemma_send_repr_roundtrip(t: msgSendType, b: u8)
    ensures
        send_type_of(send_type_code(t)) == Some(t),
        send_type_of(b) == Some(t) ==> send_type_code(t) == b,
{
}

/// Reading a reply back from its protocol number gives the same reply, and a number
/// that reads as a reply is that reply's number.
pub proof fn lemma_reply_repr_roundtrip(t: msgReplyType, b: u8)
    ensures
        reply_type_of(reply_type_code(t)) == Some(t),
        reply_type_of(b) == Some(t) ==> reply_type_code(t) == b,
{
}

/// A message is either a request to an agent or a reply from one.
#[allow(non_camel_case_types)]
#[derive(Debug, Clone, Copy, PartialEq, Eq, Structural)]
pub enum msgType {
    msgSendType(msgSendType),
    msgReplyType(msgReplyType),
}

/// An identities answer, split into its key list.
#[allow(non_snake_case)]
pub struct KeyListMsg {
    pub length: u32,
    pub msgtype: msgType,
    pub nkeys: u32,
    pub keyList: Vec<(String, String)>,
}

/// A framed agent message: `[length][type][contents]`, where `length` is a big-endian
/// `u32` that counts the type byte and the contents.
#[derive(Debug)]
pub struct Msg {
    pub length: u32,
    pub msgtype: msgType,
    pub contents: Vec<u8>,
}

/// The big-endian length field at the start of a raw message.
pub open spec fn frame_length(raw: Seq<u8>) -> int {
    be_u32_at(raw, 0) as int
}

/// `raw` is a reply that [`Msg::client_parse_msg_recieved`] can read: it holds a length
/// of at least 1 that frames no more bytes than `raw` has, and a reply type byte.
pub open spec fn client_parse_ok(raw: Seq<u8>) -> bool {
    &&& raw.len() >= 5
    &&& frame_length(raw) >= 1
    &&& frame_length(raw) + 4 <= u32::MAX
    &&& frame_length(raw) + 4 <= raw.len()
    &&& reply_type_of(raw[4]) is Some
}

/// The contents that [`Msg::client_parse_msg_recieved`] reads: the bytes after the type
/// byte, up to the end of the frame.
pub open spec fn client_contents(raw: Seq<u8>) -> Seq<u8> {
    raw.subrange(5, frame_length(raw) + 4)
}

/// `raw` is a request that [`Msg::server_parse_msg_recieved`] can read: it has a request
/// type byte, and its length frames no more bytes than `raw` has.
pub open spec fn server_parse_ok(raw: Seq<u8>) -> bool {
    &&& raw.len() >= 5
    &&& send_type_of(raw[4]) is Some
    &&& frame_length(raw) + 4 <= raw.len()
}

/// The contents that [`Msg::server_parse_msg_recieved`] reads: the bytes after the type
/// byte, up to the end of the frame (nothing where the length is 0).
pub open spec fn server_contents(raw: Seq<u8>) -> Seq<u8> {
    if frame_length(raw) >= 1 {
        raw.subrange(5, frame_length(raw) + 4)
    } else {
        Seq::empty()
    }
}

/// The views of a list of keys.
pub open spec fn key_views(keys: Seq<Key>) -> Seq<KeyView> {
    keys.map_values(|k: Key| k@)
}

/// Where `n` keys read one after another from `pos` end.
pub open spec fn keys_end(s: Seq<u8>, pos: int, n: nat) -> int
    decreases n,
{
    if n == 0 {
        pos
    } else {
        key_end(s, keys_end(s, pos, (n - 1) as nat))
    }
}

/// `n` keys can be read one after another from `pos`.
pub open spec fn keys_fit(s: Seq<u8>, pos: int, n: nat) -> bool
    decreases n,
{
    if n == 0 {
        true
    } else {
        keys_fit(s, pos, (n - 1) as nat) && key_fits(s, keys_end(s, pos, (n - 1) as nat))
    }
}

/// The `n` keys read one after another from `pos`.
pub open spec fn keys_at(s: Seq<u8>, pos: int, n: nat) -> Seq<KeyView>
    decreases n,
{
    if n == 0 {
        Seq::empty()
    } else {
        keys_at(s, pos, (n - 1) as nat).push(key_at(s, keys_end(s, pos, (n - 1) as nat)))
    }
}

/// The key count at the start of an identities answer.
pub open spec fn answer_nkeys(contents: Seq<u8>) -> u32 {
    be_u32_at(contents, 0)
}

/// How many keys [`Msg::get_keys_from_answ`] reads: as many as the answer announces.
pub open spec fn answer_key_count(contents: Seq<u8>) -> nat {
    answer_nkeys(contents) as nat
}

/// The contents hold a key count and, after it, the keys that are read.
pub open spec fn answer_well_formed(contents: Seq<u8>) -> bool {
    &&& contents.len() >= 4
    &&& keys_fit(contents, 4, answer_key_count(contents))
}

/// The keys that [`Msg::get_keys_from_answ`] reads out of the contents.
pub open spec fn answer_keys(contents: Seq<u8>) -> Seq<KeyView> {
    keys_at(contents, 4, answer_key_count(contents))
}

/// Fewer keys fit where more do, and each read ends within the buffer and after its start.
pub proof fn lemma_keys_fit_prefix(s: Seq<u8>, pos: int, n: nat, m: nat)
    requires
        0 <= pos <= s.len(),
        keys_fit(s, pos, n),
        m <= n,
    ensures
        keys_fit(s, pos, m),
        pos <= keys_end(s, pos, m) <= s.len(),
    decreases n,
{
    if m < n {
        lemma_keys_fit_prefix(s, pos, (n - 1) as nat, m);
    } else if n > 0 {
        lemma_keys_fit_prefix(s, pos, (n - 1) as nat, (n - 1) as nat);
    }
}

/// Declares `std::io::Error`, the error type of the message builders and of the key
/// filter, so that it can stand in their signatures.
#[verifier::external_type_specification]
#[verifier::external_body]
pub struct ExIoError(std::io::Error);

/// `p` occurs in `s` as a run of consecutive characters (the empty `p` occurs everywhere).
pub open spec fn contains_substring(s: Seq<char>, p: Seq<char>) -> bool {
    exists|i: int| 0 <= i && i + p.len() <= s.len() && #[trigger] s.subrange(i, i + p.len()) == p
}

/// `std::io::Error::from(ErrorKind::InvalidData)`: the error of an answer too long for
/// its length field. Nothing is claimed of the error value.
#[verifier::external_body]
fn reply_too_long() -> (e: std::io::Error) {
    std::io::Error::from(std::io::ErrorKind::InvalidData)
}

/// `str::contains` with a string pattern: claimed to return whether `needle` occurs in
/// `haystack` as a run of consecutive characters.
#[verifier::external_body]
pub(crate) fn str_contains(haystack: &String, needle: &String) -> (found: bool)
    ensures
        found == contains_substring(haystack@, needle@),
{
    haystack.contains(needle.as_str())
}

/// A key is shown when its comment carries the filter tag, that is, contains it.
pub open spec fn key_shown(k: KeyView, filter: Seq<char>) -> bool {
    contains_substring(k.commentstr, filter)
}

/// The keys of `keys` that are shown, in their order.
pub open spec fn shown_keys(keys: Seq<KeyView>, filter: Seq<char>) -> Seq<KeyView> {
    keys.filter(|k: KeyView| key_shown(k, filter))
}

/// The record of one key in an identities answer (section 6.1 of the agent protocol):
/// the blob and the comment, each a string with its length as a big-endian `u32`
/// before it.
pub open spec fn key_record(k: KeyView) -> Seq<u8> {
    u32_be_bytes(k.keyblob.len() as u32) + k.keyblob + u32_be_bytes(k.comment.len() as u32)
        + k.comment
}

/// The records of `keys`, one after another.
pub open spec fn key_records(keys: Seq<KeyView>) -> Seq<u8>
    decreases keys.len(),
{
    if keys.len() == 0 {
        Seq::empty()
    } else {
        key_records(keys.drop_last()) + key_record(keys.last())
    }
}

/// The body of an identities answer: the identities-answer type byte, the number of
/// keys as a big-endian `u32`, then each key's record.
pub open spec fn identities_body(keys: Seq<KeyView>) -> Seq<u8> {
    seq![reply_type_code(msgReplyType::SSH_AGENT_IDENTITIES_ANSWER)] + u32_be_bytes(
        keys.len() as u32,
    ) + key_records(keys)
}

/// The answer's length can be written in its `u32` length field.
pub open spec fn reply_fits(keys: Seq<KeyView>) -> bool {
    identities_body(keys).len() <= u32::MAX
}

/// The identities answer listing `keys`: the length of the body as a big-endian `u32`,
/// then the body.
pub open spec fn identities_reply(keys: Seq<KeyView>) -> Seq<u8> {
    u32_be_bytes(identities_body(keys).len() as u32) + identities_body(keys)
}

/// The key that a reader of an answer gets back for `k`: its blob and comment, and the
/// comment's text.
pub open spec fn key_read_back(k: KeyView) -> KeyView {
    KeyView { keyblob: k.keyblob, comment: k.comment, commentstr: comment_text(k.comment) }
}

/// The bytes that `keys` take in an identities answer: for each key, eight bytes of
/// lengths, its blob and its comment.
pub open spec fn keys_byte_count(keys: Seq<KeyView>) -> nat
    decreases keys.len(),
{
    if keys.len() == 0 {
        0
    } else {
        keys_byte_count(keys.drop_last()) + 8 + keys.last().keyblob.len() + keys.last().comment.len()
    }
}

/// An identities answer is nine bytes of header (length, type, count) and the keys'
/// bytes, and it can be built exactly when everything after its length field, five
/// bytes and the keys' bytes, fits that `u32` field.
pub proof fn lemma_identities_reply_size(keys: Seq<KeyView>)
    ensures
        identities_reply(keys).len() == 9 + keys_byte_count(keys),
        reply_fits(keys) <==> 5 + keys_byte_count(keys) <= u32::MAX,
    decreases keys.len(),
{
    lemma_key_records_byte_count(keys);
}

/// The records of `keys` take exactly the keys' bytes.
proof fn lemma_key_records_byte_count(keys: Seq<KeyView>)
    ensures
        key_records(keys).len() == keys_byte_count(keys),
    decreases keys.len(),
{
    if keys.len() > 0 {
        lemma_key_records_byte_count(keys.drop_last());
    }
}

/// Each record is eight bytes longer than the blob and the comment it holds.
pub proof fn lemma_key_records_len(keys: Seq<KeyView>)
    ensures
        key_records(keys).len() >= 8 * keys.len(),
    decreases keys.len(),
{
    if keys.len() > 0 {
        lemma_key_records_len(keys.drop_last());
    }
}

/// The records of the first `i` keys begin the records of all keys.
pub proof fn lemma_key_records_prefix(keys: Seq<KeyView>, i: int)
    requires
        0 <= i <= keys.len(),
    ensures
        key_records(keys.take(i)).len() <= key_records(keys).len(),
        key_records(keys).subrange(0, key_records(keys.take(i)).len() as int) == key_records(
            keys.take(i),
        ),
    decreases keys.len(),
{
    if i == keys.len() {
        assert(keys.take(i) =~= keys);
        assert(key_records(keys).subrange(0, key_records(keys).len() as int) =~= key_records(keys));
    } else {
        let rest = keys.drop_last();
        lemma_key_records_prefix(rest, i);
        assert(rest.take(i) =~= keys.take(i));
        let r = key_records(rest);
        let t = key_records(keys.take(i));
        assert(key_records(keys) == r + key_record(keys.last()));
        assert((r + key_record(keys.last())).subrange(0, t.len() as int) =~= r.subrange(
            0,
            t.len() as int,
        ));
    }
}

/// The records of the first `i + 1` keys are those of the first `i` and the record of
/// key `i`.
pub proof fn lemma_key_records_step(keys: Seq<KeyView>, i: int)
    requires
        0 <= i < keys.len(),
    ensures
        key_records(keys.take(i + 1)) == key_records(keys.take(i)) + key_record(keys[i]),
{
    assert(keys.take(i + 1).drop_last() =~= keys.take(i));
}

/// A key record at `pos` in `s` reads back as its key.
pub proof fn lemma_key_at_record(s: Seq<u8>, pos: int, k: KeyView)
    requires
        0 <= pos,
        pos + key_record(k).len() <= s.len(),
        s.subrange(pos, pos + key_record(k).len()) == key_record(k),
        k.keyblob.len() <= u32::MAX,
        k.comment.len() <= u32::MAX,
    ensures
        key_fits(s, pos),
        key_end(s, pos) == pos + key_record(k).len(),
        key_at(s, pos) == key_read_back(k),
{
    let rec = key_record(k);
    let bl = k.keyblob.len() as int;
    let cl = k.comment.len() as int;
    let lb = u32_be_bytes(bl as u32);
    let lc = u32_be_bytes(cl as u32);
    assert forall|j: int| 0 <= j < rec.len() implies s[pos + j] == rec[j] by {
        assert(s.subrange(pos, pos + rec.len())[j] == s[pos + j]);
    }
    crate::wire::lemma_u32_be_roundtrip(bl as u32);
    crate::wire::lemma_u32_be_roundtrip(cl as u32);
    assert(s[pos] == lb[0] && s[pos + 1] == lb[1] && s[pos + 2] == lb[2] && s[pos + 3] == lb[3]) by {
        assert(rec[0] == lb[0]);
        assert(rec[1] == lb[1]);
        assert(rec[2] == lb[2]);
        assert(rec[3] == lb[3]);
    }
    assert(be_u32_at(s, pos) == be_u32_at(lb, 0));
    assert(blob_len_at(s, pos) == bl);
    let q = pos + 4 + bl;
    assert(s[q] == lc[0] && s[q + 1] == lc[1] && s[q + 2] == lc[2] && s[q + 3] == lc[3]) by {
        assert(rec[4 + bl] == lc[0]);
        assert(rec[4 + bl + 1] == lc[1]);
        assert(rec[4 + bl + 2] == lc[2]);
        assert(rec[4 + bl + 3] == lc[3]);
    }
    assert(be_u32_at(s, q) == be_u32_at(lc, 0));
    assert(comment_len_at(s, pos) == cl);
    assert(s.subrange(pos + 4, pos + 4 + bl) =~= k.keyblob) by {
        assert forall|j: int| 0 <= j < bl implies s.subrange(pos + 4, pos + 4 + bl)[j] == k.keyblob[j] by {
            assert(rec[4 + j] == k.keyblob[j]);
        }
    }
    assert(s.subrange(pos + 8 + bl, pos + 8 + bl + cl) =~= k.comment) by {
        assert forall|j: int| 0 <= j < cl implies s.subrange(pos + 8 + bl, pos + 8 + bl + cl)[j]
            == k.comment[j] by {
            assert(rec[8 + bl + j] == k.comment[j]);
        }
    }
}

/// Reading back the first `i` keys of an answer body lists the first `i` keys written.
proof fn lemma_read_back_prefix(keys: Seq<KeyView>, i: nat)
    requires
        i <= keys.len(),
        reply_fits(keys),
    ensures
        ({
            let c = u32_be_bytes(keys.len() as u32) + key_records(keys);
            &&& keys_fit(c, 4, i)
            &&& keys_end(c, 4, i) == 4 + key_records(keys.take(i as int)).len()
            &&& keys_at(c, 4, i).len() == i
            &&& forall|j: int| 0 <= j < i ==> #[trigger] keys_at(c, 4, i)[j] == key_read_back(keys[j])
        }),
    decreases i,
{
    let c = u32_be_bytes(keys.len() as u32) + key_records(keys);
    if i == 0 {
        assert(keys.take(0) =~= Seq::<KeyView>::empty());
    } else {
        let m = (i - 1) as int;
        lemma_read_back_prefix(keys, (i - 1) as nat);
        lemma_key_records_step(keys, m);
        lemma_key_records_prefix(keys, m + 1);
        let all = key_records(keys);
        let before = key_records(keys.take(m));
        let rec = key_record(keys[m]);
        let p: int = 4 + before.len() as int;
        assert(all.subrange(0, (before + rec).len() as int) == before + rec);
        assert(c.subrange(p, p + rec.len()) =~= rec) by {
            assert forall|j: int| 0 <= j < rec.len() implies c.subrange(p, p + rec.len())[j]
                == rec[j] by {
                assert(c[p + j] == all[before.len() + j]);
                assert(all.subrange(0, (before + rec).len() as int)[before.len() + j] == (before
                    + rec)[before.len() + j]);
            }
        }
        lemma_key_records_len(keys);
        assert(keys[m].keyblob.len() <= u32::MAX && keys[m].comment.len() <= u32::MAX) by {
            assert(rec.len() == 8 + keys[m].keyblob.len() + keys[m].comment.len());
            assert(all.len() >= (before + rec).len());
        }
        lemma_key_at_record(c, p, keys[m]);
        let prev = keys_at(c, 4, (i - 1) as nat);
        assert(keys_at(c, 4, i) == prev.push(key_at(c, keys_end(c, 4, (i - 1) as nat))));
        assert forall|j: int| 0 <= j < i implies #[trigger] keys_at(c, 4, i)[j] == key_read_back(
            keys[j],
        ) by {
            if j < m {
                assert(keys_at(c, 4, i)[j] == prev[j]);
            }
        }
    }
}

/// The identities answer that the server builds reads back as what it lists: it frames
/// itself with its own length and the identities-answer type, its contents announce
/// the number of keys, and reading its keys gives each key's blob and comment, in order.
/// (Where the length plus 4 overflows a `u32`, the reader refuses the answer.)
pub proof fn lemma_identities_reply_round_trip(keys: Seq<KeyView>)
    requires
        reply_fits(keys),
        identities_body(keys).len() + 4 <= u32::MAX,
    ensures
        client_parse_ok(identities_reply(keys)),
        frame_length(identities_reply(keys)) == identities_reply(keys).len() - 4,
        reply_type_of(identities_reply(keys)[4]) == Some(msgReplyType::SSH_AGENT_IDENTITIES_ANSWER),
        answer_well_formed(client_contents(identities_reply(keys))),
        answer_keys(client_contents(identities_reply(keys))).len() == keys.len(),
        forall|j: int|
            0 <= j < keys.len() ==> #[trigger] answer_keys(client_contents(identities_reply(keys)))[j]
                == key_read_back(keys[j]),
{
    let body = identities_body(keys);
    let r = identities_reply(keys);
    let n = keys.len();
    let lb = u32_be_bytes(body.len() as u32);
    lemma_key_records_len(keys);
    assert(n <= u32::MAX);
    let ln = u32_be_bytes(n as u32);
    crate::wire::lemma_u32_be_roundtrip(body.len() as u32);
    crate::wire::lemma_u32_be_roundtrip(n as u32);
    assert(r[0] == lb[0] && r[1] == lb[1] && r[2] == lb[2] && r[3] == lb[3]);
    assert(frame_length(r) == be_u32_at(lb, 0));
    assert(r[4] == 12);
    let c = ln + key_records(keys);
    assert(client_contents(r) =~= c);
    assert(c[0] == ln[0] && c[1] == ln[1] && c[2] == ln[2] && c[3] == ln[3]);
    assert(answer_nkeys(c) == be_u32_at(ln, 0));
    lemma_read_back_prefix(keys, n);
}

/// The filter keeps a key exactly when its comment text contains the filter, whatever
/// else the key holds: the shown keys are the keys whose comment contains it, in order.
pub proof fn lemma_shown_keys_by_comment(keys: Seq<KeyView>, filter: Seq<char>)
    ensures
        shown_keys(keys, filter) == keys.filter(
            |k: KeyView| contains_substring(k.commentstr, filter),
        ),
{
    let p1 = |k: KeyView| key_shown(k, filter);
    let p2 = |k: KeyView| contains_substring(k.commentstr, filter);
    assert(p1 =~= p2);
}

/// The key filter shows exactly the keys whose comment carries the filter tag: every
/// shown key comes from the list and its comment contains the filter, and every key of
/// the list whose comment contains the filter is shown.
pub proof fn lemma_shown_keys_exact(keys: Seq<KeyView>, filter: Seq<char>)
    ensures
        shown_keys(keys, filter).len() <= keys.len(),
        forall|i: int|
            0 <= i < shown_keys(keys, filter).len() ==> key_shown(
                #[trigger] shown_keys(keys, filter)[i],
                filter,
            ) && keys.contains(shown_keys(keys, filter)[i]),
        forall|i: int|
            0 <= i < keys.len() && key_shown(keys[i], filter) ==> #[trigger] shown_keys(
                keys,
                filter,
            ).contains(keys[i]),
    decreases keys.len(),
{
    let pred = |k: KeyView| key_shown(k, filter);
    let shown = shown_keys(keys, filter);
    assert forall|i: int| 0 <= i < shown.len() implies key_shown(#[trigger] shown[i], filter) by {
        keys.lemma_filter_pred(pred, i);
    }
    assert forall|i: int| 0 <= i < keys.len() && key_shown(keys[i], filter) implies #[trigger] shown.contains(
        keys[i],
    ) by {
        keys.lemma_filter_contains(pred, i);
    }
    keys.lemma_filter_len(pred);
    if keys.len() > 0 {
        let rest = keys.drop_last();
        lemma_shown_keys_exact(rest, filter);
        reveal_with_fuel(Seq::<_>::filter, 1);
        assert(shown == (if pred(keys.last()) {
            rest.filter(pred).push(keys.last())
        } else {
            rest.filter(pred)
        }));
        assert forall|i: int| 0 <= i < shown.len() implies keys.contains(#[trigger] shown[i]) by {
            if i < rest.filter(pred).len() {
                assert(shown[i] == shown_keys(rest, filter)[i]);
                let j = choose|j: int| 0 <= j < rest.len() && rest[j] == shown[i];
                assert(keys[j] == shown[i]);
            } else {
                assert(keys[keys.len() - 1] == shown[i]);
            }
        }
    }
}

/// `idx` picks out of `all`, at strictly increasing positions, the entries of `sub`.
pub open spec fn subsequence_positions<A>(sub: Seq<A>, all: Seq<A>, idx: Seq<int>) -> bool {
    &&& idx.len() == sub.len()
    &&& forall|i: int| 0 <= i < idx.len() ==> 0 <= #[trigger] idx[i] < all.len() && all[idx[i]] == sub[i]
    &&& forall|i: int, j: int| 0 <= i < j < idx.len() ==> #[trigger] idx[i] < #[trigger] idx[j]
}

/// `sub` is `all` with some entries left out, the rest kept in their order.
pub open spec fn is_subsequence<A>(sub: Seq<A>, all: Seq<A>) -> bool {
    exists|idx: Seq<int>| #[trigger] subsequence_positions(sub, all, idx)
}

/// The shown keys are the list with the other keys left out: each shown key is a key of
/// the list, and they come in the list's order.
pub proof fn lemma_shown_keys_in_order(keys: Seq<KeyView>, filter: Seq<char>)
    ensures
        is_subsequence(shown_keys(keys, filter), keys),
    decreases keys.len(),
{
    let pred = |k: KeyView| key_shown(k, filter);
    let shown = shown_keys(keys, filter);
    reveal_with_fuel(Seq::<_>::filter, 1);
    if keys.len() == 0 {
        assert(shown.len() == 0);
        assert(subsequence_positions(shown, keys, Seq::<int>::empty()));
    } else {
        let rest = keys.drop_last();
        lemma_shown_keys_in_order(rest, filter);
        let rest_shown = shown_keys(rest, filter);
        let idx = choose|idx: Seq<int>| subsequence_positions(rest_shown, rest, idx);
        assert(shown == (if pred(keys.last()) {
            rest.filter(pred).push(keys.last())
        } else {
            rest.filter(pred)
        }));
        if pred(keys.last()) {
            let idx2 = idx.push(keys.len() - 1);
            assert forall|i: int| 0 <= i < idx2.len() implies 0 <= #[trigger] idx2[i] < keys.len()
                && keys[idx2[i]] == shown[i] by {
                if i < idx.len() {
                    assert(idx2[i] == idx[i]);
                    assert(rest[idx[i]] == keys[idx[i]]);
                }
            }
            assert forall|i: int, j: int| 0 <= i < j < idx2.len() implies #[trigger] idx2[i]
                < #[trigger] idx2[j] by {
                if j < idx.len() {
                    assert(idx[i] < idx[j]);
                } else {
                    assert(0 <= idx[i] < rest.len());
                }
            }
            assert(subsequence_positions(shown, keys, idx2));
        } else {
            assert forall|i: int| 0 <= i < idx.len() implies 0 <= #[trigger] idx[i] < keys.len()
                && keys[idx[i]] == shown[i] by {
                assert(rest[idx[i]] == keys[idx[i]]);
            }
            assert(subsequence_positions(shown, keys, idx));
        }
    }
}


/// The value of the big-endian length field at the start of `raw`, as base-256 digits.
pub open spec fn length_field_value(raw: Seq<u8>) -> int {
    raw[0] * 0x100_0000 + raw[1] * 0x1_0000 + raw[2] * 0x100 + raw[3]
}

/// A request frame can be read exactly when it has at least five bytes, its type byte
/// is the number of one of the requests, and its length field frames no more bytes than
/// it has.
pub proof fn lemma_request_readable(raw: Seq<u8>)
    ensures
        server_parse_ok(raw) <==> {
            &&& raw.len() >= 5
            &&& exists|t: msgSendType| send_type_code(t) == raw[4]
            &&& length_field_value(raw) + 4 <= raw.len()
        },
{
    if raw.len() >= 5 {
        crate::wire::lemma_be_u32_at_value(raw, 0);
        if send_type_of(raw[4]) is Some {
            let t = send_type_of(raw[4])->0;
            assert(send_type_code(t) == raw[4]);
        }
        if exists|t: msgSendType| send_type_code(t) == raw[4] {
            let t = choose|t: msgSendType| send_type_code(t) == raw[4];
            lemma_send_repr_roundtrip(t, raw[4]);
        }
    }
}

/// A reply frame can be read exactly when it has at least five bytes, its type byte is
/// the number of one of the replies, and its length field is at least 1, stays below
/// `u32::MAX` by 4, and frames no more bytes than it has.
pub proof fn lemma_reply_readable(raw: Seq<u8>)
    ensures
        client_parse_ok(raw) <==> {
            &&& raw.len() >= 5
            &&& exists|t: msgReplyType| reply_type_code(t) == raw[4]
            &&& 1 <= length_field_value(raw)
            &&& length_field_value(raw) + 4 <= u32::MAX
            &&& length_field_value(raw) + 4 <= raw.len()
        },
{
    if raw.len() >= 5 {
        crate::wire::lemma_be_u32_at_value(raw, 0);
        if reply_type_of(raw[4]) is Some {
            let t = reply_type_of(raw[4])->0;
            assert(reply_type_code(t) == raw[4]);
        }
        if exists|t: msgReplyType| reply_type_code(t) == raw[4] {
            let t = choose|t: msgReplyType| reply_type_code(t) == raw[4];
            lemma_reply_repr_roundtrip(t, raw[4]);
        }
    }
}

impl Msg {

    /// Takes up to `num` bytes from `*pos` on and moves `*pos` past them.
    fn extract_n_bytes(buf: &[u8], pos: &mut usize, num: usize) -> (bytes: Vec<u8>)
        requires
            *old(pos) <= buf@.len(),
        ensures
            *final(pos) == crate::key::take_end(buf@.len() as int, *old(pos) as int, num as int),
            bytes@ == buf@.subrange(*old(pos) as int, *final(pos) as int),
    {
        Key::extract_n_bytes(buf, pos, num)
    }

    /// Reads the keys of an identities answer: the count at the start of the contents,
    /// then that many keys.
    pub fn get_keys_from_answ(&self) -> (keylist: Vec<Key>)
        requires
            answer_well_formed(self.contents@),
        ensures
            key_views(keylist@) == answer_keys(self.contents@),
            keylist@.len() == answer_key_count(self.contents@),
    {
        let contents = self.contents.as_slice();
        let ghost c = contents@;
        let mut pos: usize = 0;
        let nkey_bytes = Msg::extract_n_bytes(contents, &mut pos, 4);
        let nkeys = read_u32_be(nkey_bytes.as_slice(), 0);
        assert(nkey_bytes@ == c.subrange(0, 4));
        assert(nkeys == answer_nkeys(c));
        let ghost count = answer_key_count(c);
        let mut keylist: Vec<Key> = Vec::new();
        let mut key: u32 = 0;
        while key < nkeys
            invariant
                c == contents@,
                nkeys == answer_nkeys(c),
                count == answer_key_count(c),
                count == nkeys,
                keys_fit(c, 4, count),
                key <= count,
                pos == keys_end(c, 4, key as nat),
                key_views(keylist@) == keys_at(c, 4, key as nat),
                keylist@.len() == key,
            decreases nkeys - key,
        {
            let ghost i = key as nat;
            proof {
                lemma_keys_fit_prefix(c, 4, count, i + 1);
                lemma_keys_fit_prefix(c, 4, count, i);
            }
            let k = Key::from(contents, &mut pos);
            let ghost old_list = keylist@;
            keylist.push(k);
            assert(key_views(keylist@) =~= key_views(old_list).push(k@));
            key += 1;
        }
        keylist
    }


    /// The keys of an identities answer whose comment contains `filter` (the keys tagged
    /// with it), in the order of the answer.
    pub fn filter_shown_keys(&self, filter: &String) -> (shown: Result<Vec<Key>, std::io::Error>)
        requires
            self.msgtype is msgReplyType,
            answer_well_formed(self.contents@),
        ensures
            shown matches Ok(keys) && key_views(keys@) == shown_keys(answer_keys(self.contents@), filter@),
    {
        let mut keys = self.get_keys_from_answ();
        let ghost old_keys = keys@;
        let ghost all = key_views(keys@);
        let ghost pred = |k: KeyView| key_shown(k, filter@);
        let mut shown: Vec<Key> = Vec::new();
        let ghost mut i: int = 0;
        assert(all.take(0) =~= Seq::<KeyView>::empty());
        proof {
            reveal_with_fuel(Seq::<_>::filter, 1);
        }
        while keys.len() > 0
            invariant
                0 <= i <= all.len(),
                key_views(keys@) == all.skip(i),
                keys@.len() == all.len() - i,
                all == key_views(old_keys),
                pred == (|k: KeyView| key_shown(k, filter@)),
                key_views(shown@) == all.take(i).filter(pred),
            decreases keys@.len(),
        {
            let ghost before = keys@;
            let k = keys.remove(0);
            proof {
                assert(key_views(before)[0] == all.skip(i)[0]);
                reveal_with_fuel(Seq::<_>::filter, 1);
                assert(k@ == all[i]);
                assert(all.take(i + 1).drop_last() =~= all.take(i));
                assert(all.take(i + 1).last() == all[i]);
                assert forall|j: int| 0 <= j < keys@.len() implies #[trigger] key_views(keys@)[j]
                    == all.skip(i + 1)[j] by {
                    assert(keys@[j] == before[j + 1]);
                    assert(key_views(before)[j + 1] == all.skip(i)[j + 1]);
                }
                assert(key_views(keys@) =~= all.skip(i + 1));
                assert(all.take(i + 1).filter(pred) == (if pred(all[i]) {
                    all.take(i).filter(pred).push(all[i])
                } else {
                    all.take(i).filter(pred)
                }));
            }
            let ghost old_shown = shown@;
            let ghost kv = k@;
            let found = str_contains(k.comment_str(), filter);
            assert(pred(kv) == found);
            if found {
                shown.push(k);
                assert(key_views(shown@) =~= key_views(old_shown).push(kv));
            }
            assert(key_views(shown@) == all.take(i + 1).filter(pred));
            proof {
                i = i + 1;
            }
        }
        assert(all.take(i) =~= all);
        Ok(shown)
    }


    /// Frames a reply for sending: its length field, its type's number, then its contents.
    pub fn client_build_msg(&self) -> (reply: Result<Vec<u8>, std::io::Error>)
        requires
            self.msgtype is msgReplyType,
        ensures
            reply matches Ok(b) && b@ == u32_be_bytes(self.length) + seq![
                reply_type_code(self.msgtype->msgReplyType_0),
            ] + self.contents@,
    {
        let mut reply: Vec<u8> = Vec::new();
        push_u32_be(&mut reply, self.length);
        match &self.msgtype {
            msgType::msgReplyType(reply_type) => reply.push(reply_type.repr()),
            msgType::msgSendType(_) => {},
        }
        reply.extend_from_slice(self.contents.as_slice());
        Ok(reply)
    }

    /// Builds the identities answer to a request, listing `keys` in the format of the
    /// agent protocol. Fails where the answer would be too long for its `u32` length
    /// field.
    pub fn server_build_msg(&self, keys: Vec<Key>) -> (reply: Result<Vec<u8>, std::io::Error>)
        requires
            self.msgtype is msgSendType,
        ensures
            reply is Ok <==> reply_fits(key_views(keys@)),
            reply is Ok <==> 5 + keys_byte_count(key_views(keys@)) <= u32::MAX,
            reply matches Ok(bytes) ==> bytes@ == identities_reply(key_views(keys@)),
    {
        let ghost views = key_views(keys@);
        let n = keys.len();
        let limit: usize = 0xffff_ffffusize;
        proof {
            lemma_key_records_len(views);
            lemma_identities_reply_size(views);
        }
        if n > limit {
            return Err(reply_too_long());
        }
        let mut body: Vec<u8> = Vec::new();
        body.push(msgReplyType::SSH_AGENT_IDENTITIES_ANSWER.repr());
        push_u32_be(&mut body, n as u32);
        let ghost head = body@;
        assert(head.len() == 5);
        let mut i: usize = 0;
        assert(views.take(0) =~= Seq::<KeyView>::empty());
        while i < n
            invariant
                n == keys@.len(),
                n <= limit,
                limit == u32::MAX,
                views == key_views(keys@),
                i <= n,
                head == seq![reply_type_code(msgReplyType::SSH_AGENT_IDENTITIES_ANSWER)]
                    + u32_be_bytes(n as u32),
                body@ == head + key_records(views.take(i as int)),
                body@.len() <= limit,
            decreases n - i,
        {
            let key = &keys[i];
            let blob = key.keyblob();
            let comment = key.comment();
            let ghost k = key@;
            proof {
                assert(views[i as int] == k);
                lemma_key_records_step(views, i as int);
                lemma_key_records_prefix(views, i + 1);
            }
            let room = limit - body.len();
            if blob.len() > room || 8 > room - blob.len() || comment.len() > room - blob.len() - 8 {
                proof {
                    assert(key_records(views.take(i + 1)).len() == key_records(views.take(i as int)).len()
                        + 8 + k.keyblob.len() + k.comment.len());
                    assert(key_records(views).len() >= key_records(views.take(i + 1)).len());
                    assert(views.len() == n);
                    assert(identities_body(views).len() == 5 + key_records(views).len());
                    lemma_identities_reply_size(views);
                }
                return Err(reply_too_long());
            }
            let ghost before = body@;
            push_u32_be(&mut body, blob.len() as u32);
            body.extend_from_slice(blob);
            push_u32_be(&mut body, comment.len() as u32);
            body.extend_from_slice(comment);
            proof {
                assert(body@ =~= before + key_record(k));
            }
            i += 1;
        }
        assert(views.take(n as int) =~= views);
        assert(body@ == identities_body(views));
        let mut reply: Vec<u8> = Vec::new();
        push_u32_be(&mut reply, body.len() as u32);
        reply.extend_from_slice(body.as_slice());
        Ok(reply)
    }

    /// Whether [`Msg::server_parse_msg_recieved`] can read `raw_msg`.
    pub fn request_is_parsable(raw_msg: &Vec<u8>) -> (ok: bool)
        ensures
            ok == server_parse_ok(raw_msg@),
    {
        if raw_msg.len() < 5 {
            return false;
        }
        if msgSendType::from_repr(raw_msg[4]).is_none() {
            return false;
        }
        let length = read_u32_be(raw_msg.as_slice(), 0);
        length as usize <= raw_msg.len() - 4
    }

    /// Whether [`Msg::client_parse_msg_recieved`] can read `raw_msg`.
    pub fn reply_is_parsable(raw_msg: &Vec<u8>) -> (ok: bool)
        ensures
            ok == client_parse_ok(raw_msg@),
    {
        if raw_msg.len() < 5 {
            return false;
        }
        if msgReplyType::from_repr(raw_msg[4]).is_none() {
            return false;
        }
        let length = read_u32_be(raw_msg.as_slice(), 0);
        length >= 1 && length <= u32::MAX - 4 && (length + 4) as usize <= raw_msg.len()
    }

    /// Whether [`Msg::get_keys_from_answ`] can read the keys out of the contents.
    pub fn answer_is_well_formed(&self) -> (ok: bool)
        ensures
            ok == answer_well_formed(self.contents@),
    {
        let contents = self.contents.as_slice();
        let ghost c = contents@;
        if contents.len() < 4 {
            return false;
        }
        let nkeys = read_u32_be(contents, 0);
        let count: u32 = nkeys;
        assert(count == answer_key_count(c));
        let mut pos: usize = 4;
        let mut i: u32 = 0;
        while i < count
            invariant
                c == contents@,
                c == self.contents@,
                count == answer_key_count(c),
                i <= count,
                4 <= pos <= c.len(),
                keys_fit(c, 4, i as nat),
                pos == keys_end(c, 4, i as nat),
            decreases count - i,
        {
            if !Key::fits(contents, pos) {
                proof {
                    if keys_fit(c, 4, count as nat) {
                        lemma_keys_fit_prefix(c, 4, count as nat, (i + 1) as nat);
                        assert(keys_fit(c, 4, (i + 1) as nat));
                        assert(key_fits(c, keys_end(c, 4, i as nat)));
                    }
                    assert(!keys_fit(c, 4, count as nat));
                }
                return false;
            }
            pos = Key::end_of(contents, pos);
            i += 1;
        }
        true
    }

    /// Reads a reply from an agent (sections 3 and 6.1 of the agent protocol).
    pub fn client_parse_msg_recieved(raw_msg: &Vec<u8>) -> (msg: Msg)
        requires
            client_parse_ok(raw_msg@),
        ensures
            msg.length == frame_length(raw_msg@),
            msg.msgtype == msgType::msgReplyType(reply_type_of(raw_msg@[4])->0),
            msg.contents@ == client_contents(raw_msg@),
    {
        let length = read_u32_be(raw_msg.as_slice(), 0);
        let contents = copy_range(raw_msg.as_slice(), 5, (length + 4) as usize);
        let reply = msgReplyType::from_repr(raw_msg[4]);
        match reply {
            Some(t) => Msg { length, msgtype: msgType::msgReplyType(t), contents },
            None => {
                assert(false);
                Msg { length, msgtype: msgType::msgReplyType(msgReplyType::SSH_AGENT_FAILURE), contents }
            },
        }
    }

    /// Reads a request from a client (sections 3 and 6.1 of the agent protocol).
    pub fn server_parse_msg_recieved(raw_msg: &Vec<u8>) -> (msg: Msg)
        requires
            server_parse_ok(raw_msg@),
        ensures
            msg.length == frame_length(raw_msg@),
            msg.msgtype == msgType::msgSendType(send_type_of(raw_msg@[4])->0),
            msg.contents@ == server_contents(raw_msg@),
    {
        let length = read_u32_be(raw_msg.as_slice(), 0);
        let total = raw_msg.len();
        let mut contents: Vec<u8> = Vec::new();
        if length >= 1 {
            assert(length + 4 <= total);
            contents = copy_range(raw_msg.as_slice(), 5, length as usize + 4);
        }
        let send = msgSendType::from_repr(raw_msg[4]);
        match send {
            Some(t) => Msg { length, msgtype: msgType::msgSendType(t), contents },
            None => {
                assert(false);
                Msg { length, msgtype: msgType::msgSendType(msgSendType::SSH_AGENTC_LOCK), contents }
            },
        }
    }
}

} // verus!
