use vstd::prelude::*;
use vstd::utf8::{valid_utf8, decode_utf8, encode_utf8};

use crate::wire::{be_u32_at, copy_range, read_u32_be};

verus! {

/// Width of the big-endian length that stands before each string of the agent protocol.
pub const COMPACT_STRING_LENGTH_LENGTH: usize = 4;

/// The characters that `String::from_utf8_lossy` makes of `bytes`.
pub uninterp spec fn utf8_lossy(bytes: Seq<u8>) -> Seq<char>;

/// The text of a comment: its plain decoding where it is valid UTF-8, else what
/// `String::from_utf8_lossy` makes of it.
pub open spec fn comment_text(bytes: Seq<u8>) -> Seq<char> {
    if valid_utf8(bytes) {
        decode_utf8(bytes)
    } else {
        utf8_lossy(bytes)
    }
}

/// A comment that is the UTF-8 encoding of a text reads back as that text.
pub proof fn lemma_valid_comment_kept(text: Seq<char>)
    ensures
        comment_text(encode_utf8(text)) == text,
{
    vstd::utf8::encode_utf8_valid_utf8(text);
    vstd::utf8::encode_utf8_decode_utf8(text);
}

/// An identity as an agent lists it: the key blob and its comment.
pub struct Key {
    keyblob: Vec<u8>,
    comment: Vec<u8>,
    pub commentstr: String,
}

/// The contents of a [`Key`].
pub struct KeyView {
    pub keyblob: Seq<u8>,
    pub comment: Seq<u8>,
    pub commentstr: Seq<char>,
}

impl View for Key {
    type V = KeyView;

    /// Each field of the view is the view of the field of the same name; the view's
    /// `commentstr` is the public field `commentstr`, which verified code outside this
    /// module reads through [`Key::comment_str`].
    closed spec fn view(&self) -> KeyView {
        KeyView { keyblob: self.keyblob@, comment: self.comment@, commentstr: self.commentstr@ }
    }
}

/// Where a read of `num` bytes from `pos` stops in a buffer of `len` bytes: it takes
/// what is there, up to `num` bytes.
pub open spec fn take_end(len: int, pos: int, num: int) -> int {
    if pos + num <= len {
        pos + num
    } else {
        len
    }
}

/// The length of the key blob of the key that starts at `pos`.
pub open spec fn blob_len_at(s: Seq<u8>, pos: int) -> int {
    be_u32_at(s, pos) as int
}

/// The length that the comment of the key at `pos` announces.
pub open spec fn comment_len_at(s: Seq<u8>, pos: int) -> int {
    be_u32_at(s, pos + 4 + blob_len_at(s, pos)) as int
}

/// Both length fields of the key at `pos` are there in full: the blob length, the blob,
/// and the comment length. (The comment itself may be cut short by the end of `s`.)
pub open spec fn key_fits(s: Seq<u8>, pos: int) -> bool {
    &&& 0 <= pos
    &&& pos + 4 <= s.len()
    &&& pos + 8 + blob_len_at(s, pos) <= s.len()
}

/// Where the key that starts at `pos` ends.
pub open spec fn key_end(s: Seq<u8>, pos: int) -> int {
    take_end(s.len() as int, pos + 8 + blob_len_at(s, pos), comment_len_at(s, pos))
}

/// The key that starts at `pos`: `[blob length][blob][comment length][comment]`, with the
/// lengths big-endian and the comment cut at the end of `s`.
pub open spec fn key_at(s: Seq<u8>, pos: int) -> KeyView {
    let comment = s.subrange(pos + 8 + blob_len_at(s, pos), key_end(s, pos));
    KeyView {
        keyblob: s.subrange(pos + 4, pos + 4 + blob_len_at(s, pos)),
        comment: comment,
        commentstr: comment_text(comment),
    }
}

impl Key {
    /// Reads the key that starts at `*pos` in `buf` and moves `*pos` past it.
    ///
    /// The format is `[blob length][blob][comment length][comment]`, each length a
    /// big-endian `u32`; the comment ends early where `buf` does.
    pub fn from(buf: &[u8], pos: &mut usize) -> (key: Key)
        requires
            key_fits(buf@, *old(pos) as int),
        ensures
            key@ == key_at(buf@, *old(pos) as int),
            *final(pos) == key_end(buf@, *old(pos) as int),
    {
        let ghost start = *pos as int;
        let len_bytes = Key::extract_n_bytes(buf, pos, COMPACT_STRING_LENGTH_LENGTH);
        let keyblob_length = read_u32_be(len_bytes.as_slice(), 0) as usize;
        assert(len_bytes@ == buf@.subrange(start, start + 4));
        assert(keyblob_length == blob_len_at(buf@, start));

        let keyblob = Key::extract_n_bytes(buf, pos, keyblob_length);

        let len_bytes = Key::extract_n_bytes(buf, pos, COMPACT_STRING_LENGTH_LENGTH);
        let comment_length = read_u32_be(len_bytes.as_slice(), 0) as usize;
        assert(comment_length == comment_len_at(buf@, start));

        let comment = Key::extract_n_bytes(buf, pos, comment_length);
        let commentstr = Key::comment_to_string(comment.as_slice());
        let key = Key { keyblob, comment, commentstr };
        assert(key@ == key_at(buf@, start));
        key
    }

    /// Whether a key can be read from `pos`: [`key_fits`].
    pub(crate) fn fits(buf: &[u8], pos: usize) -> (ok: bool)
        requires
            pos <= buf@.len(),
        ensures
            ok == key_fits(buf@, pos as int),
    {
        if buf.len() - pos < 4 {
            return false;
        }
        let blob_len = read_u32_be(buf, pos) as usize;
        blob_len <= buf.len() - pos - 4 && 4 <= buf.len() - pos - 4 - blob_len
    }

    /// Where the key at `pos` ends: [`key_end`].
    pub(crate) fn end_of(buf: &[u8], pos: usize) -> (end: usize)
        requires
            key_fits(buf@, pos as int),
        ensures
            end == key_end(buf@, pos as int),
            pos + 8 <= end <= buf@.len(),
    {
        let len = buf.len();
        let blob_len = read_u32_be(buf, pos) as usize;
        let comment_at = pos + 8 + blob_len;
        let comment_len = read_u32_be(buf, pos + 4 + blob_len) as usize;
        if comment_len <= len - comment_at {
            comment_at + comment_len
        } else {
            len
        }
    }

    /// The blob followed by the comment.
    pub fn to_bytes(&self) -> (bytes: Vec<u8>)
        ensures
            bytes@ == self@.keyblob + self@.comment,
    {
        let mut bytes: Vec<u8> = Vec::new();
        bytes.extend_from_slice(self.keyblob.as_slice());
        bytes.extend_from_slice(self.comment.as_slice());
        bytes
    }

    /// The key blob.
    pub fn keyblob(&self) -> (blob: &[u8])
        ensures
            blob@ == self@.keyblob,
    {
        self.keyblob.as_slice()
    }

    /// The comment as raw bytes.
    pub fn comment(&self) -> (comment: &[u8])
        ensures
            comment@ == self@.comment,
    {
        self.comment.as_slice()
    }

    /// The comment decoded as text.
    pub fn comment_str(&self) -> (s: &String)
        ensures
            s@ == self@.commentstr,
    {
        &self.commentstr
    }

    /// The text of the key: its comment as a string.
    pub fn to_string(&self) -> (s: String)
        ensures
            s@ == self@.commentstr,
    {
        self.commentstr.clone()
    }

    /// Takes up to `num` bytes from `*pos` on (fewer where `buf` ends first) and moves
    /// `*pos` past them.
    pub(crate) fn extract_n_bytes(buf: &[u8], pos: &mut usize, num: usize) -> (bytes: Vec<u8>)
        requires
            *old(pos) <= buf@.len(),
        ensures
            *final(pos) == take_end(buf@.len() as int, *old(pos) as int, num as int),
            bytes@ == buf@.subrange(*old(pos) as int, *final(pos) as int),
    {
        let start = *pos;
        let avail = buf.len() - start;
        let n = if num <= avail {
            num
        } else {
            avail
        };
        let end = start + n;
        let bytes = copy_range(buf, start, end);
        *pos = end;
        bytes
    }

    /// `String::from_utf8_lossy`: the comment as text, with each invalid UTF-8 sequence
    /// replaced by U+FFFD. Claimed: the result is `utf8_lossy` of the bytes, and it is
    /// their plain decoding when they are valid UTF-8.
    #[verifier::external_body]
    fn comment_to_string(comment_bytes: &[u8]) -> (s: String)
        ensures
            s@ == utf8_lossy(comment_bytes@),
            valid_utf8(comment_bytes@) ==> s@ == decode_utf8(comment_bytes@),
    {
        String::from_utf8_lossy(comment_bytes).to_string()
    }
}

} // verus!
