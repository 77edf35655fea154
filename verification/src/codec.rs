//! The binary encoding shared by stored entries, documents and protocol
//! frames.
//!
//! Integers are written in a fixed number of bytes, least significant byte
//! first. Byte strings and text carry their length, as a 64-bit integer, in
//! front. The variants of a choice are numbered with a 32-bit integer, and an
//! optional value starts with a byte that is 0 or 1. Nothing in the encoding
//! depends on the platform.
//!
//! Each encoding comes as a specification of the bytes (`encode_*`), a
//! specification of reading them from the front of a sequence (`parse_*`),
//! and the executable writer and reader that implement the two. The
//! integers themselves are written and read by `bincode`, and the encoding
//! follows the layout that `bincode` gives a structure: its fields one
//! after the other in their order, each integer in the width of its type.

use crate::keyvalue::numeric::{wrap_i64, wrap_u64};
use vstd::bytes::{
    lemma_auto_spec_u32_to_from_le_bytes, lemma_auto_spec_u64_to_from_le_bytes,
    spec_u32_from_le_bytes, spec_u32_to_le_bytes, spec_u64_from_le_bytes, spec_u64_to_le_bytes,
};
use vstd::prelude::*;
use vstd::slice::slice_subrange;
use vstd::string::StringSliceAdditionalSpecFns;
use vstd::utf8::{
    decode_utf8, encode_utf8, encode_utf8_decode_utf8, encode_utf8_valid_utf8, valid_utf8,
};

verus! {

/// The bytes of a 32-bit integer.
pub open spec fn encode_u32(v: u32) -> Seq<u8> {
    spec_u32_to_le_bytes(v)
}

/// The bytes of a 64-bit integer.
pub open spec fn encode_u64(v: u64) -> Seq<u8> {
    spec_u64_to_le_bytes(v)
}

/// The bytes of a signed 64-bit integer: those of its two's complement.
pub open spec fn encode_i64(v: i64) -> Seq<u8> {
    encode_u64(wrap_u64(v as int))
}

/// The bytes of a byte string: its length, then its content.
pub open spec fn encode_bytes(b: Seq<u8>) -> Seq<u8> {
    encode_u64(b.len() as u64) + b
}

/// Reads one byte from the front of `s`.
pub open spec fn parse_u8(s: Seq<u8>) -> Option<(u8, Seq<u8>)> {
    if s.len() >= 1 {
        Some((s[0], s.skip(1)))
    } else {
        None
    }
}

/// Reads a 32-bit integer from the front of `s`.
pub open spec fn parse_u32(s: Seq<u8>) -> Option<(u32, Seq<u8>)> {
    if s.len() >= 4 {
        Some((spec_u32_from_le_bytes(s.take(4)), s.skip(4)))
    } else {
        None
    }
}

/// Reads a 64-bit integer from the front of `s`.
pub open spec fn parse_u64(s: Seq<u8>) -> Option<(u64, Seq<u8>)> {
    if s.len() >= 8 {
        Some((spec_u64_from_le_bytes(s.take(8)), s.skip(8)))
    } else {
        None
    }
}

/// Reads a signed 64-bit integer from the front of `s`.
pub open spec fn parse_i64(s: Seq<u8>) -> Option<(i64, Seq<u8>)> {
    match parse_u64(s) {
        Some((v, rest)) => Some((wrap_i64(v as int), rest)),
        None => None,
    }
}

/// Reads a byte string from the front of `s`.
pub open spec fn parse_bytes(s: Seq<u8>) -> Option<(Seq<u8>, Seq<u8>)> {
    match parse_u64(s) {
        Some((len, rest)) => if len <= rest.len() {
            Some((rest.take(len as int), rest.skip(len as int)))
        } else {
            None
        },
        None => None,
    }
}

/// Reading a byte written in front of `rest` gives it back.
pub proof fn lemma_parse_u8(v: u8, rest: Seq<u8>)
    ensures
        parse_u8(seq![v] + rest) == Some((v, rest)),
{
    assert((seq![v] + rest).skip(1) =~= rest);
}

/// Reading a 32-bit integer written in front of `rest` gives it back.
pub proof fn lemma_parse_u32(v: u32, rest: Seq<u8>)
    ensures
        encode_u32(v).len() == 4,
        parse_u32(encode_u32(v) + rest) == Some((v, rest)),
{
    lemma_auto_spec_u32_to_from_le_bytes();
    let s = encode_u32(v) + rest;
    assert(s.take(4) =~= encode_u32(v));
    assert(s.skip(4) =~= rest);
}

/// Reading a 64-bit integer written in front of `rest` gives it back.
pub proof fn lemma_parse_u64(v: u64, rest: Seq<u8>)
    ensures
        encode_u64(v).len() == 8,
        parse_u64(encode_u64(v) + rest) == Some((v, rest)),
{
    lemma_auto_spec_u64_to_from_le_bytes();
    let s = encode_u64(v) + rest;
    assert(s.take(8) =~= encode_u64(v));
    assert(s.skip(8) =~= rest);
}

/// Reading a signed integer written in front of `rest` gives it back.
pub proof fn lemma_parse_i64(v: i64, rest: Seq<u8>)
    ensures
        encode_i64(v).len() == 8,
        parse_i64(encode_i64(v) + rest) == Some((v, rest)),
{
    lemma_parse_u64(wrap_u64(v as int), rest);
    crate::keyvalue::numeric::lemma_wrap_add(v as int, 0);
    crate::keyvalue::numeric::lemma_wrap_i64_of_u64(v as int);
}

/// Reading a byte string written in front of `rest` gives it back.
pub proof fn lemma_parse_bytes(b: Seq<u8>, rest: Seq<u8>)
    requires
        b.len() <= u64::MAX,
    ensures
        encode_bytes(b).len() == 8 + b.len(),
        parse_bytes(encode_bytes(b) + rest) == Some((b, rest)),
{
    let s = encode_bytes(b) + rest;
    assert(s =~= encode_u64(b.len() as u64) + (b + rest));
    lemma_parse_u64(b.len() as u64, b + rest);
    assert((b + rest).take(b.len() as int) =~= b);
    assert((b + rest).skip(b.len() as int) =~= rest);
}

/// `bincode::serialize` of a `u32`: in the fixed-width encoding that the
/// function uses, the four bytes of the number, least significant first.
#[verifier::external_body]
fn serialize_u32(v: u32) -> (bytes: Vec<u8>)
    ensures
        bytes@ == spec_u32_to_le_bytes(v),
{
    bincode::serialize(&v).unwrap_or_default()
}

/// `bincode::serialize` of a `u64`: in the fixed-width encoding that the
/// function uses, the eight bytes of the number, least significant first.
#[verifier::external_body]
fn serialize_u64(v: u64) -> (bytes: Vec<u8>)
    ensures
        bytes@ == spec_u64_to_le_bytes(v),
{
    bincode::serialize(&v).unwrap_or_default()
}

/// `bincode::deserialize` of a `u32`: the number that the first four of
/// `bytes` hold, least significant first, whatever follows them; `None`
/// where there are fewer than four.
#[verifier::external_body]
fn deserialize_u32(bytes: &[u8]) -> (v: Option<u32>)
    ensures
        v == (if bytes@.len() >= 4 {
            Some(spec_u32_from_le_bytes(bytes@.take(4)))
        } else {
            None
        }),
{
    bincode::deserialize::<u32>(bytes).ok()
}

/// `bincode::deserialize` of a `u64`: the number that the first eight of
/// `bytes` hold, least significant first, whatever follows them; `None`
/// where there are fewer than eight.
#[verifier::external_body]
fn deserialize_u64(bytes: &[u8]) -> (v: Option<u64>)
    ensures
        v == (if bytes@.len() >= 8 {
            Some(spec_u64_from_le_bytes(bytes@.take(8)))
        } else {
            None
        }),
{
    bincode::deserialize::<u64>(bytes).ok()
}

/// Appends the bytes of `source` to `out`.
pub fn write_raw(out: &mut Vec<u8>, source: &[u8])
    ensures
        final(out)@ == old(out)@ + source@,
{
    let mut i: usize = 0;
    while i < source.len()
        invariant
            i <= source@.len(),
            out@ == old(out)@ + source@.take(i as int),
        decreases source@.len() - i,
    {
        out.push(source[i]);
        i += 1;
        assert(out@ =~= old(out)@ + source@.take(i as int));
    }
    assert(source@.take(source@.len() as int) =~= source@);
}

/// Appends one byte.
pub fn write_u8(out: &mut Vec<u8>, v: u8)
    ensures
        final(out)@ == old(out)@ + seq![v],
{
    out.push(v);
    assert(out@ =~= old(out)@ + seq![v]);
}

/// Appends a 32-bit integer.
pub fn write_u32(out: &mut Vec<u8>, v: u32)
    ensures
        final(out)@ == old(out)@ + encode_u32(v),
{
    let bytes = serialize_u32(v);
    write_raw(out, bytes.as_slice());
}

/// Appends a 64-bit integer.
pub fn write_u64(out: &mut Vec<u8>, v: u64)
    ensures
        final(out)@ == old(out)@ + encode_u64(v),
{
    let bytes = serialize_u64(v);
    write_raw(out, bytes.as_slice());
}

/// The two's complement of a signed integer, as an unsigned one.
pub fn i64_to_bits(v: i64) -> (r: u64)
    ensures
        r == wrap_u64(v as int),
{
    proof {
        crate::keyvalue::numeric::lemma_wrap_u64_value(v as int);
    }
    if v >= 0 {
        v as u64
    } else {
        let low: i64 = v - i64::MIN;
        (low as u64) + 0x8000_0000_0000_0000u64
    }
}

/// The signed integer whose two's complement is `v`.
pub fn i64_from_bits(v: u64) -> (r: i64)
    ensures
        r == wrap_i64(v as int),
{
    proof {
        crate::keyvalue::numeric::lemma_wrap_i64_value(v as int);
    }
    if v <= 0x7fff_ffff_ffff_ffffu64 {
        v as i64
    } else {
        let low: u64 = v - 0x8000_0000_0000_0000u64;
        (low as i64) + i64::MIN
    }
}

/// Appends a signed 64-bit integer.
pub fn write_i64(out: &mut Vec<u8>, v: i64)
    ensures
        final(out)@ == old(out)@ + encode_i64(v),
{
    write_u64(out, i64_to_bits(v));
}

/// Appends a byte string, with its length in front.
pub fn write_bytes(out: &mut Vec<u8>, b: &[u8])
    ensures
        final(out)@ == old(out)@ + encode_bytes(b@),
        b@.len() <= u64::MAX,
{
    write_u64(out, b.len() as u64);
    write_raw(out, b);
    assert(out@ =~= old(out)@ + encode_bytes(b@));
}

/// What a reader returns: the value and the position after it, in agreement
/// with what `parsed` says of the input from `pos` on.
pub open spec fn read_matches<T>(
    input: Seq<u8>,
    pos: usize,
    parsed: Option<(T, Seq<u8>)>,
    r: Option<(T, usize)>,
) -> bool {
    match r {
        Some((v, next)) => {
            &&& pos <= next <= input.len()
            &&& parsed == Some((v, input.skip(next as int)))
        },
        None => parsed is None,
    }
}

/// Reads one byte at `pos`.
pub fn read_u8(input: &[u8], pos: usize) -> (r: Option<(u8, usize)>)
    requires
        pos <= input@.len(),
    ensures
        read_matches(input@, pos, parse_u8(input@.skip(pos as int)), r),
{
    if input.len() - pos < 1 {
        return None;
    }
    assert(input@.skip(pos as int).skip(1) =~= input@.skip(pos + 1));
    Some((input[pos], pos + 1))
}

/// Reads a 32-bit integer at `pos`.
pub fn read_u32(input: &[u8], pos: usize) -> (r: Option<(u32, usize)>)
    requires
        pos <= input@.len(),
    ensures
        read_matches(input@, pos, parse_u32(input@.skip(pos as int)), r),
{
    assert(input@.subrange(pos as int, input@.len() as int) =~= input@.skip(pos as int));
    match deserialize_u32(slice_subrange(input, pos, input.len())) {
        Some(v) => {
            assert(input@.skip(pos as int).skip(4) =~= input@.skip(pos + 4));
            Some((v, pos + 4))
        },
        None => None,
    }
}

/// Reads a 64-bit integer at `pos`.
pub fn read_u64(input: &[u8], pos: usize) -> (r: Option<(u64, usize)>)
    requires
        pos <= input@.len(),
    ensures
        read_matches(input@, pos, parse_u64(input@.skip(pos as int)), r),
{
    assert(input@.subrange(pos as int, input@.len() as int) =~= input@.skip(pos as int));
    match deserialize_u64(slice_subrange(input, pos, input.len())) {
        Some(v) => {
            assert(input@.skip(pos as int).skip(8) =~= input@.skip(pos + 8));
            Some((v, pos + 8))
        },
        None => None,
    }
}

/// Reads a signed 64-bit integer at `pos`.
pub fn read_i64(input: &[u8], pos: usize) -> (r: Option<(i64, usize)>)
    requires
        pos <= input@.len(),
    ensures
        read_matches(input@, pos, parse_i64(input@.skip(pos as int)), r),
{
    match read_u64(input, pos) {
        Some((v, next)) => Some((i64_from_bits(v), next)),
        None => None,
    }
}

/// Copies the bytes of `input` from `from` up to `to`.
pub fn copy_range(input: &[u8], from: usize, to: usize) -> (r: Vec<u8>)
    requires
        from <= to <= input@.len(),
    ensures
        r@ == input@.subrange(from as int, to as int),
{
    let mut r: Vec<u8> = Vec::new();
    write_raw(&mut r, slice_subrange(input, from, to));
    assert(r@ =~= input@.subrange(from as int, to as int));
    r
}

/// A copy of a byte string.
pub fn copy_bytes(source: &[u8]) -> (r: Vec<u8>)
    ensures
        r@ == source@,
{
    let mut r: Vec<u8> = Vec::new();
    write_raw(&mut r, source);
    assert(r@ =~= source@);
    r
}

/// Reads a byte string at `pos`.
pub fn read_bytes(input: &[u8], pos: usize) -> (r: Option<(Vec<u8>, usize)>)
    requires
        pos <= input@.len(),
    ensures
        match r {
            Some((v, next)) => {
                &&& pos <= next <= input@.len()
                &&& parse_bytes(input@.skip(pos as int)) == Some((v@, input@.skip(next as int)))
            },
            None => parse_bytes(input@.skip(pos as int)) is None,
        },
{
    match read_u64(input, pos) {
        Some((len, start)) => {
            if len > (input.len() - start) as u64 {
                return None;
            }
            let end: usize = start + len as usize;
            let content = copy_range(input, start, end);
            assert(input@.skip(start as int).take(len as int) =~= content@);
            assert(input@.skip(start as int).skip(len as int) =~= input@.skip(end as int));
            Some((content, end))
        },
        None => None,
    }
}

/// The bytes of a text: those of its UTF-8 encoding, as a byte string.
pub open spec fn encode_text(t: Seq<char>) -> Seq<u8> {
    encode_bytes(encode_utf8(t))
}

/// Reads a text from the front of `s`.
pub open spec fn parse_text(s: Seq<u8>) -> Option<(Seq<char>, Seq<u8>)> {
    match parse_bytes(s) {
        Some((b, rest)) => if valid_utf8(b) {
            Some((decode_utf8(b), rest))
        } else {
            None
        },
        None => None,
    }
}

/// Reading a text written in front of `rest` gives it back.
pub proof fn lemma_parse_text(t: Seq<char>, rest: Seq<u8>)
    requires
        encode_utf8(t).len() <= u64::MAX,
    ensures
        parse_text(encode_text(t) + rest) == Some((t, rest)),
{
    lemma_parse_bytes(encode_utf8(t), rest);
    encode_utf8_valid_utf8(t);
    encode_utf8_decode_utf8(t);
}

/// Appends a text.
pub fn write_text(out: &mut Vec<u8>, t: &str)
    ensures
        final(out)@ == old(out)@ + encode_text(t@),
        encode_utf8(t@).len() <= u64::MAX,
{
    write_bytes(out, t.as_bytes());
}

/// Reads a text at `pos`.
pub fn read_text(input: &[u8], pos: usize) -> (r: Option<(String, usize)>)
    requires
        pos <= input@.len(),
    ensures
        match r {
            Some((t, next)) => {
                &&& pos <= next <= input@.len()
                &&& parse_text(input@.skip(pos as int)) == Some((t@, input@.skip(next as int)))
            },
            None => parse_text(input@.skip(pos as int)) is None,
        },
{
    match read_bytes(input, pos) {
        Some((bytes, next)) => match crate::text::string_from_utf8(bytes) {
            Some(t) => Some((t, next)),
            None => None,
        },
        None => None,
    }
}

/// The bytes of an optional 64-bit integer.
pub open spec fn encode_option_u64(v: Option<u64>) -> Seq<u8> {
    match v {
        None => seq![0u8],
        Some(v) => seq![1u8] + encode_u64(v),
    }
}

/// Reads an optional 64-bit integer from the front of `s`.
pub open spec fn parse_option_u64(s: Seq<u8>) -> Option<(Option<u64>, Seq<u8>)> {
    match parse_u8(s) {
        Some((tag, rest)) => if tag == 0 {
            Some((None, rest))
        } else if tag == 1 {
            match parse_u64(rest) {
                Some((v, rest)) => Some((Some(v), rest)),
                None => None,
            }
        } else {
            None
        },
        None => None,
    }
}

/// Reading an optional integer written in front of `rest` gives it back.
pub proof fn lemma_parse_option_u64(v: Option<u64>, rest: Seq<u8>)
    ensures
        parse_option_u64(encode_option_u64(v) + rest) == Some((v, rest)),
{
    match v {
        None => {
            lemma_parse_u8(0, rest);
        },
        Some(x) => {
            assert(encode_option_u64(v) + rest =~= seq![1u8] + (encode_u64(x) + rest));
            lemma_parse_u8(1, encode_u64(x) + rest);
            lemma_parse_u64(x, rest);
        },
    }
}

/// Appends an optional 64-bit integer.
pub fn write_option_u64(out: &mut Vec<u8>, v: Option<u64>)
    ensures
        final(out)@ == old(out)@ + encode_option_u64(v),
{
    match v {
        None => {
            write_u8(out, 0);
        },
        Some(x) => {
            write_u8(out, 1);
            write_u64(out, x);
            assert(out@ =~= old(out)@ + encode_option_u64(v));
        },
    }
}

/// Reads an optional 64-bit integer at `pos`.
pub fn read_option_u64(input: &[u8], pos: usize) -> (r: Option<(Option<u64>, usize)>)
    requires
        pos <= input@.len(),
    ensures
        read_matches(input@, pos, parse_option_u64(input@.skip(pos as int)), r),
{
    let (tag, next) = match read_u8(input, pos) {
        Some(r) => r,
        None => { return None; },
    };
    if tag == 0 {
        Some((None, next))
    } else if tag == 1 {
        match read_u64(input, next) {
            Some((v, end)) => Some((Some(v), end)),
            None => None,
        }
    } else {
        None
    }
}

/// The bytes of an optional 32-bit integer.
pub open spec fn encode_option_u32(v: Option<u32>) -> Seq<u8> {
    match v {
        None => seq![0u8],
        Some(v) => seq![1u8] + encode_u32(v),
    }
}

/// Reads an optional 32-bit integer from the front of `s`.
pub open spec fn parse_option_u32(s: Seq<u8>) -> Option<(Option<u32>, Seq<u8>)> {
    match parse_u8(s) {
        Some((tag, rest)) => if tag == 0 {
            Some((None, rest))
        } else if tag == 1 {
            match parse_u32(rest) {
                Some((v, rest)) => Some((Some(v), rest)),
                None => None,
            }
        } else {
            None
        },
        None => None,
    }
}

/// Reading an optional integer written in front of `rest` gives it back.
pub proof fn lemma_parse_option_u32(v: Option<u32>, rest: Seq<u8>)
    ensures
        parse_option_u32(encode_option_u32(v) + rest) == Some((v, rest)),
{
    match v {
        None => {
            lemma_parse_u8(0, rest);
        },
        Some(x) => {
            assert(encode_option_u32(v) + rest =~= seq![1u8] + (encode_u32(x) + rest));
            lemma_parse_u8(1, encode_u32(x) + rest);
            lemma_parse_u32(x, rest);
        },
    }
}

/// Appends an optional 32-bit integer.
pub fn write_option_u32(out: &mut Vec<u8>, v: Option<u32>)
    ensures
        final(out)@ == old(out)@ + encode_option_u32(v),
{
    match v {
        None => {
            write_u8(out, 0);
        },
        Some(x) => {
            write_u8(out, 1);
            write_u32(out, x);
            assert(out@ =~= old(out)@ + encode_option_u32(v));
        },
    }
}

/// Reads an optional 32-bit integer at `pos`.
pub fn read_option_u32(input: &[u8], pos: usize) -> (r: Option<(Option<u32>, usize)>)
    requires
        pos <= input@.len(),
    ensures
        read_matches(input@, pos, parse_option_u32(input@.skip(pos as int)), r),
{
    let (tag, next) = match read_u8(input, pos) {
        Some(r) => r,
        None => { return None; },
    };
    if tag == 0 {
        Some((None, next))
    } else if tag == 1 {
        match read_u32(input, next) {
            Some((v, end)) => Some((Some(v), end)),
            None => None,
        }
    } else {
        None
    }
}

/// The bytes of a list of 64-bit integers, without its length.
pub open spec fn encode_u64_items(list: Seq<u64>) -> Seq<u8>
    decreases list.len(),
{
    if list.len() == 0 {
        Seq::empty()
    } else {
        encode_u64_items(list.drop_last()) + encode_u64(list.last())
    }
}

/// The bytes of a list of 64-bit integers: its length, then its items.
pub open spec fn encode_u64_list(list: Seq<u64>) -> Seq<u8> {
    encode_u64(list.len() as u64) + encode_u64_items(list)
}

/// Reads `count` 64-bit integers from the front of `s`.
pub open spec fn parse_u64_items(s: Seq<u8>, count: nat) -> Option<(Seq<u64>, Seq<u8>)>
    decreases count,
{
    if count == 0 {
        Some((Seq::empty(), s))
    } else {
        match parse_u64_items(s, (count - 1) as nat) {
            Some((items, rest)) => match parse_u64(rest) {
                Some((v, rest)) => Some((items.push(v), rest)),
                None => None,
            },
            None => None,
        }
    }
}

/// Reads a list of 64-bit integers from the front of `s`.
pub open spec fn parse_u64_list(s: Seq<u8>) -> Option<(Seq<u64>, Seq<u8>)> {
    match parse_u64(s) {
        Some((count, rest)) => parse_u64_items(rest, count as nat),
        None => None,
    }
}

/// Reading the items of a list written in front of `rest` gives them back.
pub proof fn lemma_parse_u64_items(list: Seq<u64>, rest: Seq<u8>)
    ensures
        parse_u64_items(encode_u64_items(list) + rest, list.len()) == Some((list, rest)),
    decreases list.len(),
{
    if list.len() == 0 {
        assert(encode_u64_items(list) + rest =~= rest);
        assert(list =~= Seq::<u64>::empty());
    } else {
        let front = list.drop_last();
        let tail = encode_u64(list.last()) + rest;
        assert(encode_u64_items(list) + rest =~= encode_u64_items(front) + tail);
        lemma_parse_u64_items(front, tail);
        lemma_parse_u64(list.last(), rest);
        assert(front.push(list.last()) =~= list);
    }
}

/// Reading a list written in front of `rest` gives it back.
pub proof fn lemma_parse_u64_list(list: Seq<u64>, rest: Seq<u8>)
    requires
        list.len() <= u64::MAX,
    ensures
        parse_u64_list(encode_u64_list(list) + rest) == Some((list, rest)),
{
    assert(encode_u64_list(list) + rest =~= encode_u64(list.len() as u64) + (encode_u64_items(list)
        + rest));
    lemma_parse_u64(list.len() as u64, encode_u64_items(list) + rest);
    lemma_parse_u64_items(list, rest);
}

/// Appends a list of 64-bit integers.
pub fn write_u64_list(out: &mut Vec<u8>, list: &Vec<u64>)
    ensures
        final(out)@ == old(out)@ + encode_u64_list(list@),
        list@.len() <= u64::MAX,
{
    write_u64(out, list.len() as u64);
    let ghost start = out@;
    let mut i: usize = 0;
    assert(list@.take(0) =~= Seq::<u64>::empty());
    assert(out@ =~= start + encode_u64_items(list@.take(0)));
    while i < list.len()
        invariant
            i <= list@.len(),
            out@ == start + encode_u64_items(list@.take(i as int)),
        decreases list@.len() - i,
    {
        write_u64(out, list[i]);
        proof {
            assert(list@.take(i + 1).drop_last() =~= list@.take(i as int));
            assert(list@.take(i + 1).last() == list@[i as int]);
            assert(out@ =~= start + encode_u64_items(list@.take(i + 1)));
        }
        i += 1;
    }
    assert(list@.take(list@.len() as int) =~= list@);
    assert(out@ =~= old(out)@ + encode_u64_list(list@));
}

/// Reads a list of 64-bit integers at `pos`.
pub fn read_u64_list(input: &[u8], pos: usize) -> (r: Option<(Vec<u64>, usize)>)
    requires
        pos <= input@.len(),
    ensures
        match r {
            Some((list, next)) => {
                &&& pos <= next <= input@.len()
                &&& parse_u64_list(input@.skip(pos as int)) == Some(
                    (list@, input@.skip(next as int)),
                )
            },
            None => parse_u64_list(input@.skip(pos as int)) is None,
        },
{
    let (count, start) = match read_u64(input, pos) {
        Some(r) => r,
        None => { return None; },
    };
    let ghost body = input@.skip(start as int);
    let mut list: Vec<u64> = Vec::new();
    let mut at: usize = start;
    let mut i: u64 = 0;
    while i < count
        invariant
            i <= count,
            start <= at <= input@.len(),
            body == input@.skip(start as int),
            parse_u64(input@.skip(pos as int)) == Some((count, body)),
            list@.len() == i,
            parse_u64_items(body, i as nat) == Some((list@, input@.skip(at as int))),
        decreases count - i,
    {
        match read_u64(input, at) {
            Some((v, next)) => {
                list.push(v);
                at = next;
            },
            None => {
                proof {
                    assert(parse_u64_items(body, (i + 1) as nat) is None);
                    lemma_items_fail(body, (i + 1) as nat, count as nat);
                }
                return None;
            },
        }
        i += 1;
    }
    Some((list, at))
}

/// Where a shorter list cannot be read, a longer one cannot either.
pub proof fn lemma_items_fail(s: Seq<u8>, short: nat, long: nat)
    requires
        short <= long,
        parse_u64_items(s, short) is None,
    ensures
        parse_u64_items(s, long) is None,
    decreases long,
{
    if short < long {
        lemma_items_fail(s, short, (long - 1) as nat);
    }
}

} // verus!
