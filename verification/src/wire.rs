//! The byte-level building blocks of persisted snapshots: little-endian
//! 64-bit words, length-prefixed byte strings and length-prefixed UTF-8 text.

use vstd::prelude::*;
use vstd::bytes::{
    lemma_auto_spec_u64_to_from_le_bytes, spec_u64_from_le_bytes, spec_u64_to_le_bytes,
    u64_from_le_bytes, u64_to_le_bytes,
};
use vstd::slice::slice_subrange;
use vstd::utf8::{decode_utf8, encode_utf8, valid_utf8};

verus! {

/// A word as eight bytes, least significant first.
pub open spec fn put_u64(x: u64) -> Seq<u8> {
    spec_u64_to_le_bytes(x)
}

/// A byte string behind its length.
pub open spec fn put_blob(blob: Seq<u8>) -> Seq<u8> {
    put_u64(blob.len() as u64) + blob
}

/// A text as its UTF-8 bytes behind their number.
pub open spec fn put_text(text: Seq<char>) -> Seq<u8> {
    put_blob(encode_utf8(text))
}

/// The word at the front of `s` and what follows it, if `s` holds eight bytes.
pub open spec fn take_u64(s: Seq<u8>) -> Option<(u64, Seq<u8>)> {
    if s.len() >= 8 {
        Some((spec_u64_from_le_bytes(s.take(8)), s.skip(8)))
    } else {
        None
    }
}

/// The byte string at the front of `s` and what follows it, if `s` holds a
/// length and that many bytes behind it.
pub open spec fn take_blob(s: Seq<u8>) -> Option<(Seq<u8>, Seq<u8>)> {
    match take_u64(s) {
        Some((n, rest)) => if n <= rest.len() {
            Some((rest.take(n as int), rest.skip(n as int)))
        } else {
            None
        },
        None => None,
    }
}

/// The text at the front of `s` and what follows it, if `s` holds a byte
/// string there that is valid UTF-8.
pub open spec fn take_text(s: Seq<u8>) -> Option<(Seq<char>, Seq<u8>)> {
    match take_blob(s) {
        Some((blob, rest)) => if valid_utf8(blob) {
            Some((decode_utf8(blob), rest))
        } else {
            None
        },
        None => None,
    }
}

/// A word written and read again is the same word, and what followed it is
/// left over.
pub proof fn lemma_take_put_u64(x: u64, tail: Seq<u8>)
    ensures
        take_u64(put_u64(x) + tail) == Some((x, tail)),
{
    lemma_auto_spec_u64_to_from_le_bytes();
    let s = put_u64(x) + tail;
    assert(s.take(8) =~= put_u64(x));
    assert(s.skip(8) =~= tail);
}

/// A byte string written and read again is the same byte string.
pub proof fn lemma_take_put_blob(blob: Seq<u8>, tail: Seq<u8>)
    requires
        blob.len() <= u64::MAX,
    ensures
        take_blob(put_blob(blob) + tail) == Some((blob, tail)),
{
    let n = blob.len() as u64;
    assert(put_blob(blob) + tail =~= put_u64(n) + (blob + tail));
    lemma_take_put_u64(n, blob + tail);
    assert((blob + tail).take(n as int) =~= blob);
    assert((blob + tail).skip(n as int) =~= tail);
}

/// A text written and read again is the same text.
pub proof fn lemma_take_put_text(text: Seq<char>, tail: Seq<u8>)
    requires
        encode_utf8(text).len() <= u64::MAX,
    ensures
        take_text(put_text(text) + tail) == Some((text, tail)),
{
    lemma_take_put_blob(encode_utf8(text), tail);
    vstd::utf8::encode_utf8_valid_utf8(text);
    vstd::utf8::encode_utf8_decode_utf8(text);
}

/// `String::from_utf8`: the text that the bytes encode, where they are valid
/// UTF-8, and nothing where they are not.
#[verifier::external_body]
fn text_from_utf8(bytes: Vec<u8>) -> (text: Option<String>)
    ensures
        text is Some <==> valid_utf8(bytes@),
        text is Some ==> text->Some_0@ == decode_utf8(bytes@),
{
    String::from_utf8(bytes).ok()
}

/// A copy of the bytes.
pub fn copy_bytes(bytes: &[u8]) -> (copy: Vec<u8>)
    ensures
        copy@ == bytes@,
{
    let mut copy: Vec<u8> = Vec::new();
    let mut i: usize = 0;
    while i < bytes.len()
        invariant
            0 <= i <= bytes@.len(),
            copy@ == bytes@.take(i as int),
        decreases bytes@.len() - i,
    {
        copy.push(bytes[i]);
        i = i + 1;
        assert(copy@ =~= bytes@.take(i as int));
    }
    assert(bytes@.take(i as int) =~= bytes@);
    copy
}

/// Appends the bytes to `out`.
pub fn append_bytes(out: &mut Vec<u8>, bytes: &[u8])
    ensures
        final(out)@ == old(out)@ + bytes@,
{
    let ghost before = out@;
    let mut i: usize = 0;
    while i < bytes.len()
        invariant
            0 <= i <= bytes@.len(),
            out@ == before + bytes@.take(i as int),
        decreases bytes@.len() - i,
    {
        out.push(bytes[i]);
        i = i + 1;
        assert(out@ =~= before + bytes@.take(i as int));
    }
    assert(bytes@.take(i as int) =~= bytes@);
}

/// Appends a word to `out`.
pub fn write_u64(out: &mut Vec<u8>, x: u64)
    ensures
        final(out)@ == old(out)@ + put_u64(x),
{
    let word = u64_to_le_bytes(x);
    append_bytes(out, word.as_slice());
}

/// Appends a byte string, behind its length, to `out`.
pub fn write_blob(out: &mut Vec<u8>, blob: &[u8])
    ensures
        final(out)@ == old(out)@ + put_blob(blob@),
        blob@.len() <= u64::MAX,
{
    let ghost before = out@;
    write_u64(out, blob.len() as u64);
    append_bytes(out, blob);
    assert(out@ =~= before + put_blob(blob@));
}

/// Appends a text, as UTF-8 behind the number of its bytes, to `out`.
pub fn write_text(out: &mut Vec<u8>, text: &str)
    ensures
        final(out)@ == old(out)@ + put_text(text@),
        encode_utf8(text@).len() <= u64::MAX,
{
    write_blob(out, text.as_bytes());
}

/// Reads the word at `pos`; gives it with the position behind it, or nothing
/// where fewer than eight bytes are left.
pub fn read_u64(bytes: &[u8], pos: usize) -> (got: Option<(u64, usize)>)
    requires
        pos <= bytes@.len(),
    ensures
        got is Some <==> take_u64(bytes@.skip(pos as int)) is Some,
        got is Some ==> ({
            let found = take_u64(bytes@.skip(pos as int))->Some_0;
            &&& got->Some_0.0 == found.0
            &&& got->Some_0.1 == pos + 8
            &&& got->Some_0.1 <= bytes@.len()
            &&& found.1 == bytes@.skip(got->Some_0.1 as int)
        }),
{
    if bytes.len() - pos < 8 {
        return None;
    }
    let word = slice_subrange(bytes, pos, pos + 8);
    let x = u64_from_le_bytes(word);
    proof {
        assert(bytes@.skip(pos as int).take(8) =~= bytes@.subrange(pos as int, pos + 8));
        assert(bytes@.skip(pos as int).skip(8) =~= bytes@.skip(pos + 8));
    }
    Some((x, pos + 8))
}

/// Reads the byte string at `pos`; gives it with the position behind it, or
/// nothing where the length or the bytes it announces are not all there.
pub fn read_blob(bytes: &[u8], pos: usize) -> (got: Option<(Vec<u8>, usize)>)
    requires
        pos <= bytes@.len(),
    ensures
        got is Some <==> take_blob(bytes@.skip(pos as int)) is Some,
        got is Some ==> ({
            let found = take_blob(bytes@.skip(pos as int))->Some_0;
            &&& got->Some_0.0@ == found.0
            &&& pos <= got->Some_0.1 <= bytes@.len()
            &&& found.1 == bytes@.skip(got->Some_0.1 as int)
        }),
{
    match read_u64(bytes, pos) {
        None => None,
        Some((n, at)) => {
            if n > (bytes.len() - at) as u64 {
                return None;
            }
            let end: usize = at + n as usize;
            let blob = copy_bytes(slice_subrange(bytes, at, end));
            proof {
                assert(bytes@.skip(at as int).take(n as int) =~= bytes@.subrange(
                    at as int,
                    end as int,
                ));
                assert(bytes@.skip(at as int).skip(n as int) =~= bytes@.skip(end as int));
            }
            Some((blob, end))
        },
    }
}

/// Reads the text at `pos`; gives it with the position behind it, or nothing
/// where no byte string stands there or its bytes are not valid UTF-8.
pub fn read_text(bytes: &[u8], pos: usize) -> (got: Option<(String, usize)>)
    requires
        pos <= bytes@.len(),
    ensures
        got is Some <==> take_text(bytes@.skip(pos as int)) is Some,
        got is Some ==> ({
            let found = take_text(bytes@.skip(pos as int))->Some_0;
            &&& got->Some_0.0@ == found.0
            &&& pos <= got->Some_0.1 <= bytes@.len()
            &&& found.1 == bytes@.skip(got->Some_0.1 as int)
        }),
{
    match read_blob(bytes, pos) {
        None => None,
        Some((blob, end)) => match text_from_utf8(blob) {
            None => None,
            Some(text) => Some((text, end)),
        },
    }
}

} // verus!
