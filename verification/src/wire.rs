//! The elements of the record format: numbers, flags, identities and texts.
//!
//! A number is written in little-endian order, a flag as one byte, an
//! identity as its 32 bytes, and a text as the number of its UTF-8 bytes, in
//! four bytes, followed by those bytes. Each `take_` function reads one
//! element from the front of a byte sequence and hands back what follows it.

use crate::address::Address;
use vstd::bytes::{
    lemma_auto_spec_u32_to_from_le_bytes, lemma_auto_spec_u64_to_from_le_bytes,
    spec_u32_from_le_bytes, spec_u32_to_le_bytes, spec_u64_from_le_bytes, spec_u64_to_le_bytes,
    u32_from_le_bytes, u32_to_le_bytes, u64_from_le_bytes, u64_to_le_bytes,
};
use vstd::prelude::*;
use vstd::slice::slice_subrange;
use vstd::utf8::{
    decode_utf8, encode_utf8, encode_utf8_decode_utf8, encode_utf8_valid_utf8, valid_utf8,
};

verus! {

/// The four bytes of a 32-bit number.
pub open spec fn u32_bytes(n: u32) -> Seq<u8> {
    spec_u32_to_le_bytes(n)
}

/// Reads a 32-bit number.
pub open spec fn take_u32(s: Seq<u8>) -> Option<(u32, Seq<u8>)> {
    if s.len() >= 4 {
        Some((spec_u32_from_le_bytes(s.take(4)), s.skip(4)))
    } else {
        None
    }
}

/// The eight bytes of a 64-bit number.
pub open spec fn u64_bytes(n: u64) -> Seq<u8> {
    spec_u64_to_le_bytes(n)
}

/// Reads a 64-bit number.
pub open spec fn take_u64(s: Seq<u8>) -> Option<(u64, Seq<u8>)> {
    if s.len() >= 8 {
        Some((spec_u64_from_le_bytes(s.take(8)), s.skip(8)))
    } else {
        None
    }
}

/// The byte of a flag.
pub open spec fn bool_bytes(b: bool) -> Seq<u8> {
    seq![if b { 1u8 } else { 0u8 }]
}

/// Reads a flag: a byte that is 0 or 1.
pub open spec fn take_bool(s: Seq<u8>) -> Option<(bool, Seq<u8>)> {
    if s.len() >= 1 && s[0] <= 1 {
        Some((s[0] == 1, s.skip(1)))
    } else {
        None
    }
}

/// Reads an identity.
pub open spec fn take_address(s: Seq<u8>) -> Option<(Seq<u8>, Seq<u8>)> {
    if s.len() >= 32 {
        Some((s.take(32), s.skip(32)))
    } else {
        None
    }
}

/// The length of the text can be written in four bytes.
pub open spec fn text_fits(t: Seq<char>) -> bool {
    encode_utf8(t).len() <= u32::MAX
}

/// The bytes of a text: the length of its UTF-8 form, then that form.
pub open spec fn text_bytes(t: Seq<char>) -> Seq<u8> {
    u32_bytes(encode_utf8(t).len() as u32) + encode_utf8(t)
}

/// Reads a text.
pub open spec fn take_text(s: Seq<u8>) -> Option<(Seq<char>, Seq<u8>)> {
    match take_u32(s) {
        Some((n, rest)) => if rest.len() >= n && valid_utf8(rest.take(n as int)) {
            Some((decode_utf8(rest.take(n as int)), rest.skip(n as int)))
        } else {
            None
        },
        None => None,
    }
}

/// What was read so far, put in front of what the rest gives.
pub open spec fn behind<T>(front: Seq<T>, rest: Option<(Seq<T>, Seq<u8>)>) -> Option<
    (Seq<T>, Seq<u8>),
> {
    match rest {
        Some((items, tail)) => Some((front + items, tail)),
        None => None,
    }
}

/// Bytes that are put behind one another can be grouped either way.
pub proof fn lemma_append_assoc(a: Seq<u8>, b: Seq<u8>, c: Seq<u8>)
    ensures
        (a + b) + c == a + (b + c),
{
    assert((a + b) + c =~= a + (b + c));
}

/// Bytes with others behind them start as they did.
pub proof fn lemma_append_prefix(a: Seq<u8>, b: Seq<u8>)
    ensures
        (a + b).len() >= a.len(),
        (a + b).subrange(0, a.len() as int) == a,
{
    assert((a + b).subrange(0, a.len() as int) =~= a);
}

/// A number that was written is read back, with what follows it.
pub proof fn lemma_take_u32(n: u32, rest: Seq<u8>)
    ensures
        u32_bytes(n).len() == 4,
        take_u32(u32_bytes(n) + rest) == Some((n, rest)),
{
    lemma_auto_spec_u32_to_from_le_bytes();
    let s = u32_bytes(n) + rest;
    assert(s.take(4) =~= u32_bytes(n));
    assert(s.skip(4) =~= rest);
}

/// A number that was written is read back, with what follows it.
pub proof fn lemma_take_u64(n: u64, rest: Seq<u8>)
    ensures
        u64_bytes(n).len() == 8,
        take_u64(u64_bytes(n) + rest) == Some((n, rest)),
{
    lemma_auto_spec_u64_to_from_le_bytes();
    let s = u64_bytes(n) + rest;
    assert(s.take(8) =~= u64_bytes(n));
    assert(s.skip(8) =~= rest);
}

/// A flag that was written is read back, with what follows it.
pub proof fn lemma_take_bool(b: bool, rest: Seq<u8>)
    ensures
        take_bool(bool_bytes(b) + rest) == Some((b, rest)),
{
    let s = bool_bytes(b) + rest;
    assert(s[0] == bool_bytes(b)[0]);
    assert(s.skip(1) =~= rest);
}

/// An identity that was written is read back, with what follows it.
pub proof fn lemma_take_address(a: Seq<u8>, rest: Seq<u8>)
    requires
        a.len() == 32,
    ensures
        take_address(a + rest) == Some((a, rest)),
{
    let s = a + rest;
    assert(s.take(32) =~= a);
    assert(s.skip(32) =~= rest);
}

/// A text that was written is read back, with what follows it.
pub proof fn lemma_take_text(t: Seq<char>, rest: Seq<u8>)
    requires
        text_fits(t),
    ensures
        take_text(text_bytes(t) + rest) == Some((t, rest)),
{
    let body = encode_utf8(t);
    let n = body.len() as u32;
    lemma_take_u32(n, body + rest);
    assert(text_bytes(t) + rest =~= u32_bytes(n) + (body + rest));
    assert((body + rest).take(n as int) =~= body);
    assert((body + rest).skip(n as int) =~= rest);
    encode_utf8_valid_utf8(t);
    encode_utf8_decode_utf8(t);
}

/// Appends `bytes` to `out`.
pub fn put_bytes(out: &mut Vec<u8>, bytes: &[u8])
    ensures
        final(out)@ == old(out)@ + bytes@,
{
    let mut i: usize = 0;
    while i < bytes.len()
        invariant
            0 <= i <= bytes@.len(),
            out@ == old(out)@ + bytes@.take(i as int),
        decreases bytes@.len() - i,
    {
        out.push(bytes[i]);
        i += 1;
        assert(out@ =~= old(out)@ + bytes@.take(i as int));
    }
    assert(bytes@.take(bytes@.len() as int) =~= bytes@);
}

/// Appends a 32-bit number.
pub fn put_u32(out: &mut Vec<u8>, n: u32)
    ensures
        final(out)@ == old(out)@ + u32_bytes(n),
{
    let bytes = u32_to_le_bytes(n);
    put_bytes(out, bytes.as_slice());
}

/// Appends a 64-bit number.
pub fn put_u64(out: &mut Vec<u8>, n: u64)
    ensures
        final(out)@ == old(out)@ + u64_bytes(n),
{
    let bytes = u64_to_le_bytes(n);
    put_bytes(out, bytes.as_slice());
}

/// Appends a flag.
pub fn put_bool(out: &mut Vec<u8>, b: bool)
    ensures
        final(out)@ == old(out)@ + bool_bytes(b),
{
    out.push(if b { 1u8 } else { 0u8 });
    assert(out@ =~= old(out)@ + bool_bytes(b));
}

/// Appends an identity.
pub fn put_address(out: &mut Vec<u8>, address: &Address)
    ensures
        final(out)@ == old(out)@ + address@,
{
    let mut i: usize = 0;
    while i < 32
        invariant
            0 <= i <= 32,
            out@ == old(out)@ + address@.take(i as int),
        decreases 32 - i,
    {
        out.push(address.bytes[i]);
        i += 1;
        assert(out@ =~= old(out)@ + address@.take(i as int));
    }
    assert(address@.take(32) =~= address@);
}

/// Appends a text, if its length can be written in four bytes; else `out`
/// stays as it is.
pub fn put_text(out: &mut Vec<u8>, text: &str) -> (done: bool)
    ensures
        done == text_fits(text@),
        done ==> final(out)@ == old(out)@ + text_bytes(text@),
        !done ==> final(out)@ == old(out)@,
{
    let bytes = text.as_bytes();
    if bytes.len() > u32::MAX as usize {
        return false;
    }
    put_u32(out, bytes.len() as u32);
    put_bytes(out, bytes);
    assert(out@ =~= old(out)@ + text_bytes(text@));
    true
}

/// Reads a 32-bit number at `pos`.
pub fn read_u32(data: &[u8], pos: usize) -> (r: Option<(u32, usize)>)
    ensures
        pos > data@.len() ==> r is None,
        pos <= data@.len() ==> (match r {
            Some((n, next)) => pos <= next <= data@.len() && take_u32(data@.skip(pos as int))
                == Some((n, data@.skip(next as int))),
            None => take_u32(data@.skip(pos as int)) is None,
        }),
{
    if pos > data.len() {
        return None;
    }
    if data.len() - pos < 4 {
        return None;
    }
    let n = u32_from_le_bytes(slice_subrange(data, pos, pos + 4));
    proof {
        let s = data@.skip(pos as int);
        assert(s.take(4) =~= data@.subrange(pos as int, pos + 4));
        assert(s.skip(4) =~= data@.skip(pos + 4));
    }
    Some((n, pos + 4))
}

/// Reads a 64-bit number at `pos`.
pub fn read_u64(data: &[u8], pos: usize) -> (r: Option<(u64, usize)>)
    ensures
        pos > data@.len() ==> r is None,
        pos <= data@.len() ==> (match r {
            Some((n, next)) => pos <= next <= data@.len() && take_u64(data@.skip(pos as int))
                == Some((n, data@.skip(next as int))),
            None => take_u64(data@.skip(pos as int)) is None,
        }),
{
    if pos > data.len() {
        return None;
    }
    if data.len() - pos < 8 {
        return None;
    }
    let n = u64_from_le_bytes(slice_subrange(data, pos, pos + 8));
    proof {
        let s = data@.skip(pos as int);
        assert(s.take(8) =~= data@.subrange(pos as int, pos + 8));
        assert(s.skip(8) =~= data@.skip(pos + 8));
    }
    Some((n, pos + 8))
}

/// Reads a flag at `pos`.
pub fn read_bool(data: &[u8], pos: usize) -> (r: Option<(bool, usize)>)
    ensures
        pos > data@.len() ==> r is None,
        pos <= data@.len() ==> (match r {
            Some((b, next)) => pos <= next <= data@.len() && take_bool(data@.skip(pos as int))
                == Some((b, data@.skip(next as int))),
            None => take_bool(data@.skip(pos as int)) is None,
        }),
{
    if pos > data.len() {
        return None;
    }
    if pos >= data.len() {
        return None;
    }
    let byte = data[pos];
    proof {
        let s = data@.skip(pos as int);
        assert(s[0] == byte);
        assert(s.skip(1) =~= data@.skip(pos + 1));
    }
    if byte > 1 {
        return None;
    }
    Some((byte == 1, pos + 1))
}

/// Reads an identity at `pos`.
pub fn read_address(data: &[u8], pos: usize) -> (r: Option<(Address, usize)>)
    ensures
        pos > data@.len() ==> r is None,
        pos <= data@.len() ==> (match r {
            Some((a, next)) => pos <= next <= data@.len() && take_address(data@.skip(pos as int))
                == Some((a@, data@.skip(next as int))),
            None => take_address(data@.skip(pos as int)) is None,
        }),
{
    if pos > data.len() {
        return None;
    }
    if data.len() - pos < 32 {
        return None;
    }
    let mut bytes = [0u8; 32];
    let mut i: usize = 0;
    while i < 32
        invariant
            0 <= i <= 32,
            pos + 32 <= data.len(),
            forall|j: int| 0 <= j < i ==> bytes@[j] == data@[pos + j],
        decreases 32 - i,
    {
        bytes[i] = data[pos + i];
        i += 1;
    }
    let address = Address::new(bytes);
    proof {
        let s = data@.skip(pos as int);
        assert(s.take(32) =~= address@);
        assert(s.skip(32) =~= data@.skip(pos + 32));
    }
    Some((address, pos + 32))
}

/// `String::from_utf8` of std: the text that the bytes are the UTF-8 form of,
/// or nothing where they are no such form.
#[verifier::external_body]
fn text_from_utf8(bytes: Vec<u8>) -> (text: Option<String>)
    ensures
        text is Some <==> valid_utf8(bytes@),
        text is Some ==> text.unwrap()@ == decode_utf8(bytes@),
{
    match String::from_utf8(bytes) {
        Ok(text) => Some(text),
        Err(_) => None,
    }
}

/// Reads a text at `pos`.
pub fn read_text(data: &[u8], pos: usize) -> (r: Option<(String, usize)>)
    ensures
        pos > data@.len() ==> r is None,
        pos <= data@.len() ==> (match r {
            Some((t, next)) => pos <= next <= data@.len() && take_text(data@.skip(pos as int))
                == Some((t@, data@.skip(next as int))),
            None => take_text(data@.skip(pos as int)) is None,
        }),
{
    if pos > data.len() {
        return None;
    }
    let (n, start) = match read_u32(data, pos) {
        Some(found) => found,
        None => {
            return None;
        },
    };
    if data.len() - start < n as usize {
        return None;
    }
    let end = start + n as usize;
    let mut body: Vec<u8> = Vec::new();
    put_bytes(&mut body, slice_subrange(data, start, end));
    proof {
        let rest = data@.skip(start as int);
        assert(rest.take(n as int) =~= data@.subrange(start as int, end as int));
        assert(rest.skip(n as int) =~= data@.skip(end as int));
        assert(body@ =~= rest.take(n as int));
    }
    match text_from_utf8(body) {
        Some(text) => Some((text, end)),
        None => None,
    }
}

} // verus!
