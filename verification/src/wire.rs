//! The byte-level conventions shared by every record and request: little
//! endian integers, one byte booleans, and text as a four byte length followed
//! by UTF-8.

use vstd::prelude::*;
use vstd::slice::{slice_subrange, slice_to_vec};
use vstd::utf8::{
    decode_utf8, encode_utf8, encode_utf8_decode_utf8, encode_utf8_valid_utf8, valid_utf8,
};

verus! {

/// Digit `k` of `x` written in base 256, the least significant being digit 0.
pub open spec fn digit(x: int, k: nat) -> int
    decreases k,
{
    if k == 0 {
        x % 256
    } else {
        digit(x / 256, (k - 1) as nat)
    }
}

/// The four bytes of `x`, least significant first.
pub open spec fn u32_le(x: u32) -> Seq<u8> {
    Seq::new(4, |i: int| digit(x as int, i as nat) as u8)
}

/// The number whose little endian form is the first four bytes of `b`.
pub open spec fn u32_from_le(b: Seq<u8>) -> int
    recommends
        b.len() >= 4,
{
    b[0] + 0x100 * b[1] + 0x1_0000 * b[2] + 0x100_0000 * b[3]
}

/// The eight bytes of `x`, least significant first.
pub open spec fn u64_le(x: u64) -> Seq<u8> {
    Seq::new(8, |i: int| digit(x as int, i as nat) as u8)
}

/// The number whose little endian form is the first eight bytes of `b`.
pub open spec fn u64_from_le(b: Seq<u8>) -> int
    recommends
        b.len() >= 8,
{
    b[0] + 0x100 * b[1] + 0x1_0000 * b[2] + 0x100_0000 * b[3] + 0x1_0000_0000 * b[4]
        + 0x100_0000_0000 * b[5] + 0x1_0000_0000_0000 * b[6] + 0x100_0000_0000_0000 * b[7]
}

/// The eight bytes of `x`, most significant first.
pub open spec fn u64_be(x: u64) -> Seq<u8> {
    Seq::new(8, |i: int| digit(x as int, (7 - i) as nat) as u8)
}

/// The number whose big endian form is the first eight bytes of `b`.
pub open spec fn u64_from_be(b: Seq<u8>) -> int
    recommends
        b.len() >= 8,
{
    0x100_0000_0000_0000 * b[0] + 0x1_0000_0000_0000 * b[1] + 0x100_0000_0000 * b[2]
        + 0x1_0000_0000 * b[3] + 0x100_0000 * b[4] + 0x1_0000 * b[5] + 0x100 * b[6] + b[7]
}

/// The one byte that stands for a boolean.
pub open spec fn bool_byte(v: bool) -> Seq<u8> {
    seq![if v { 1u8 } else { 0u8 }]
}

/// Whether the UTF-8 form of `text` is short enough for its length to be
/// written in a prefix.
pub open spec fn text_fits(text: Seq<char>) -> bool {
    encode_utf8(text).len() <= u32::MAX
}

/// A text field: the length of its UTF-8 form, then that form.
pub open spec fn text_bytes(text: Seq<char>) -> Seq<u8>
    recommends
        text_fits(text),
{
    u32_le(encode_utf8(text).len() as u32) + encode_utf8(text)
}

/// Number of bytes that `text_bytes` gives.
pub open spec fn text_size(text: Seq<char>) -> nat {
    4 + encode_utf8(text).len()
}

/// The little endian number at `pos` and the position behind it, if `b`
/// holds four bytes there.
pub open spec fn u32_at(b: Seq<u8>, pos: int) -> Option<(u32, int)> {
    if 0 <= pos && pos + 4 <= b.len() {
        Some((u32_from_le(b.subrange(pos, pos + 4)) as u32, pos + 4))
    } else {
        None
    }
}

/// The little endian number at `pos` and the position behind it, if `b`
/// holds eight bytes there.
pub open spec fn u64_at(b: Seq<u8>, pos: int) -> Option<(u64, int)> {
    if 0 <= pos && pos + 8 <= b.len() {
        Some((u64_from_le(b.subrange(pos, pos + 8)) as u64, pos + 8))
    } else {
        None
    }
}

/// The boolean at `pos` and the position behind it, if `b` holds a zero or a
/// one there.
pub open spec fn bool_at(b: Seq<u8>, pos: int) -> Option<(bool, int)> {
    if 0 <= pos < b.len() && b[pos] <= 1 {
        Some((b[pos] == 1, pos + 1))
    } else {
        None
    }
}

/// The thirty-two bytes at `pos` and the position behind them, if `b` holds
/// that many there.
pub open spec fn address_at(b: Seq<u8>, pos: int) -> Option<(Seq<u8>, int)> {
    if 0 <= pos && pos + 32 <= b.len() {
        Some((b.subrange(pos, pos + 32), pos + 32))
    } else {
        None
    }
}

/// The text field at `pos` and the position behind it: none if the length
/// prefix is cut short, claims more bytes than `b` still holds, or is followed
/// by bytes that are not UTF-8.
pub open spec fn text_at(b: Seq<u8>, pos: int) -> Option<(Seq<char>, int)> {
    if 0 <= pos && pos + 4 <= b.len() {
        let n = u32_from_le(b.subrange(pos, pos + 4));
        let start = pos + 4;
        if start + n <= b.len() && valid_utf8(b.subrange(start, start + n)) {
            Some((decode_utf8(b.subrange(start, start + n)), start + n))
        } else {
            None
        }
    } else {
        None
    }
}

/// A number below 256 to the power 8 is the sum of its eight lowest digits,
/// each weighted by its place.
proof fn lemma_digits(x: int)
    requires
        0 <= x <= u64::MAX,
    ensures
        forall|k: nat| 0 <= #[trigger] digit(x, k) < 256,
        x == digit(x, 0) + 0x100 * digit(x, 1) + 0x1_0000 * digit(x, 2) + 0x100_0000 * digit(x, 3)
            + 0x1_0000_0000 * digit(x, 4) + 0x100_0000_0000 * digit(x, 5) + 0x1_0000_0000_0000
            * digit(x, 6) + 0x100_0000_0000_0000 * digit(x, 7),
        x <= u32::MAX ==> digit(x, 4) == 0 && digit(x, 5) == 0 && digit(x, 6) == 0 && digit(x, 7)
            == 0,
{
    assert forall|k: nat| 0 <= #[trigger] digit(x, k) < 256 by {
        lemma_digit_range(x, k);
    }
    let q1 = x / 256;
    let q2 = q1 / 256;
    let q3 = q2 / 256;
    let q4 = q3 / 256;
    let q5 = q4 / 256;
    let q6 = q5 / 256;
    let q7 = q6 / 256;
    assert(digit(x, 0) == x % 256);
    assert(digit(x, 1) == q1 % 256) by {
        reveal_with_fuel(digit, 2);
    }
    assert(digit(x, 2) == q2 % 256) by {
        reveal_with_fuel(digit, 3);
    }
    assert(digit(x, 3) == q3 % 256) by {
        reveal_with_fuel(digit, 4);
    }
    assert(digit(x, 4) == q4 % 256) by {
        reveal_with_fuel(digit, 5);
    }
    assert(digit(x, 5) == q5 % 256) by {
        reveal_with_fuel(digit, 6);
    }
    assert(digit(x, 6) == q6 % 256) by {
        reveal_with_fuel(digit, 7);
    }
    assert(digit(x, 7) == q7 % 256) by {
        reveal_with_fuel(digit, 8);
    }
    assert(q7 < 256);
}

/// Every digit is a byte.
proof fn lemma_digit_range(x: int, k: nat)
    ensures
        0 <= digit(x, k) < 256,
    decreases k,
{
    if k > 0 {
        lemma_digit_range(x / 256, (k - 1) as nat);
    }
}

/// Little endian writing and reading cancel.
pub proof fn lemma_u32_le_round_trip(x: u32)
    ensures
        u32_le(x).len() == 4,
        u32_from_le(u32_le(x)) == x,
{
    lemma_digits(x as int);
}

/// Little endian writing and reading cancel.
pub proof fn lemma_u64_le_round_trip(x: u64)
    ensures
        u64_le(x).len() == 8,
        u64_from_le(u64_le(x)) == x,
{
    lemma_digits(x as int);
}

/// Big endian writing and reading cancel, so distinct numbers have distinct
/// big endian forms.
pub proof fn lemma_u64_be_round_trip(x: u64)
    ensures
        u64_be(x).len() == 8,
        u64_from_be(u64_be(x)) == x,
{
    lemma_digits(x as int);
}

/// Whether `b` holds `part` from `pos` on.
pub open spec fn holds_at(b: Seq<u8>, pos: int, part: Seq<u8>) -> bool {
    0 <= pos && pos + part.len() <= b.len() && b.subrange(pos, pos + part.len()) == part
}

/// A text field that was written at `pos` is read back from there, whatever
/// stands before and behind it.
pub proof fn lemma_text_read_back(b: Seq<u8>, pos: int, text: Seq<char>)
    requires
        text_fits(text),
        holds_at(b, pos, text_bytes(text)),
    ensures
        text_at(b, pos) == Some((text, pos + text_size(text))),
{
    let body = encode_utf8(text);
    let field = text_bytes(text);
    lemma_u32_le_round_trip(body.len() as u32);
    let end: int = 4 + body.len() as int;
    assert(field.len() == end);
    assert(b.subrange(pos, pos + 4) =~= field.subrange(0, 4));
    assert(field.subrange(0, 4) =~= u32_le(body.len() as u32));
    assert(b.subrange(pos + 4, pos + end) =~= field.subrange(4, end));
    assert(field.subrange(4, end) =~= body);
    encode_utf8_valid_utf8(text);
    encode_utf8_decode_utf8(text);
}

/// A boolean that was written at `pos` is read back from there.
pub proof fn lemma_bool_read_back(b: Seq<u8>, pos: int, v: bool)
    requires
        holds_at(b, pos, bool_byte(v)),
    ensures
        bool_at(b, pos) == Some((v, pos + 1)),
{
    assert(b.subrange(pos, pos + 1)[0] == bool_byte(v)[0]);
}

/// A number that was written little endian at `pos` is read back from there.
pub proof fn lemma_u64_read_back(b: Seq<u8>, pos: int, x: u64)
    requires
        holds_at(b, pos, u64_le(x)),
    ensures
        u64_at(b, pos) == Some((x, pos + 8)),
{
    lemma_u64_le_round_trip(x);
}

/// Thirty-two bytes that were written at `pos` are read back from there.
pub proof fn lemma_address_read_back(b: Seq<u8>, pos: int, part: Seq<u8>)
    requires
        part.len() == 32,
        holds_at(b, pos, part),
    ensures
        address_at(b, pos) == Some((part, pos + 32)),
{
}

/// Appends the little endian form of `x`.
pub fn put_u32(out: &mut Vec<u8>, x: u32)
    ensures
        final(out)@ == old(out)@ + u32_le(x),
{
    let ghost before = out@;
    let x1: u32 = x / 256;
    let x2: u32 = x1 / 256;
    let x3: u32 = x2 / 256;
    out.push((x % 256) as u8);
    out.push((x1 % 256) as u8);
    out.push((x2 % 256) as u8);
    out.push((x3 % 256) as u8);
    proof {
        reveal_with_fuel(digit, 4);
        assert(out@ =~= before + u32_le(x));
    }
}

/// Appends the little endian form of `x`.
pub fn put_u64(out: &mut Vec<u8>, x: u64)
    ensures
        final(out)@ == old(out)@ + u64_le(x),
{
    let ghost before = out@;
    let mut rest: u64 = x;
    let mut i: usize = 0;
    while i < 8
        invariant
            i <= 8,
            out@.len() == before.len() + i,
            forall|j: int| 0 <= j < before.len() ==> out@[j] == before[j],
            forall|j: int|
                before.len() <= j < before.len() + i ==> #[trigger] out@[j] == digit(
                    x as int,
                    (j - before.len()) as nat,
                ) as u8,
            forall|k: nat| digit(x as int, i as nat + k) == #[trigger] digit(rest as int, k),
        decreases 8 - i,
    {
        out.push((rest % 256) as u8);
        proof {
            assert(digit(rest as int, 0) == rest % 256);
            assert forall|k: nat|
                digit(x as int, (i + 1) as nat + k) == #[trigger] digit((rest / 256) as int, k) by {
                assert(digit(rest as int, k + 1) == digit((rest / 256) as int, k));
            }
        }
        rest = rest / 256;
        i += 1;
    }
    assert(out@ =~= before + u64_le(x));
}

/// The big endian form of `x`.
pub fn u64_to_be(x: u64) -> (bytes: Vec<u8>)
    ensures
        bytes@ == u64_be(x),
{
    let mut low_first: Vec<u8> = Vec::new();
    put_u64(&mut low_first, x);
    let mut bytes: Vec<u8> = Vec::new();
    let mut i: usize = 8;
    while i > 0
        invariant
            i <= 8,
            low_first@ == u64_le(x),
            bytes@.len() == 8 - i,
            forall|j: int| 0 <= j < bytes@.len() ==> bytes@[j] == low_first@[7 - j],
        decreases i,
    {
        i -= 1;
        bytes.push(low_first[i]);
    }
    assert(bytes@ =~= u64_be(x));
    bytes
}

/// Appends the byte that stands for `v`.
pub fn put_bool(out: &mut Vec<u8>, v: bool)
    ensures
        final(out)@ == old(out)@ + bool_byte(v),
{
    let ghost before = out@;
    out.push(if v { 1u8 } else { 0u8 });
    assert(out@ =~= before + bool_byte(v));
}

/// Appends `bytes` as they are.
pub fn put_bytes(out: &mut Vec<u8>, bytes: &[u8])
    ensures
        final(out)@ == old(out)@ + bytes@,
{
    let ghost before = out@;
    let mut i: usize = 0;
    while i < bytes.len()
        invariant
            i <= bytes.len(),
            out@ == before + bytes@.subrange(0, i as int),
        decreases bytes.len() - i,
    {
        out.push(bytes[i]);
        assert(out@ =~= before + bytes@.subrange(0, i + 1));
        i += 1;
    }
    assert(bytes@.subrange(0, i as int) =~= bytes@);
}

/// Number of bytes of the UTF-8 form of `text`.
pub fn text_len(text: &str) -> (n: usize)
    ensures
        n == encode_utf8(text@).len(),
{
    text.as_bytes().len()
}

/// Appends `text` as a text field.
pub fn put_text(out: &mut Vec<u8>, text: &str)
    requires
        text_fits(text@),
    ensures
        final(out)@ == old(out)@ + text_bytes(text@),
{
    let ghost before = out@;
    let bytes = text.as_bytes();
    put_u32(out, bytes.len() as u32);
    put_bytes(out, bytes);
    assert(out@ =~= before + text_bytes(text@));
}

/// The number stored little endian at `pos`, with the position behind it.
pub fn read_u32(data: &[u8], pos: usize) -> (r: Option<(u32, usize)>)
    ensures
        r == match u32_at(data@, pos as int) {
            Some((v, next)) => Some((v, next as usize)),
            None => None,
        },
        r matches Some((_, next)) ==> pos < next <= data.len(),
{
    if data.len() < 4 || pos > data.len() - 4 {
        return None;
    }
    let ghost four = data@.subrange(pos as int, pos + 4);
    assert(four[0] == data@[pos as int] && four[1] == data@[pos + 1] && four[2] == data@[pos + 2]
        && four[3] == data@[pos + 3]);
    let v: u32 = data[pos] as u32 + 0x100 * (data[pos + 1] as u32) + 0x1_0000 * (data[pos
        + 2] as u32) + 0x100_0000 * (data[pos + 3] as u32);
    Some((v, pos + 4))
}

/// The number stored little endian at `pos`, with the position behind it.
pub fn read_u64(data: &[u8], pos: usize) -> (r: Option<(u64, usize)>)
    ensures
        r == match u64_at(data@, pos as int) {
            Some((v, next)) => Some((v, next as usize)),
            None => None,
        },
        r matches Some((_, next)) ==> pos < next <= data.len(),
{
    if data.len() < 8 || pos > data.len() - 8 {
        return None;
    }
    let ghost eight = data@.subrange(pos as int, pos + 8);
    assert(eight[0] == data@[pos as int] && eight[1] == data@[pos + 1] && eight[2] == data@[pos
        + 2] && eight[3] == data@[pos + 3] && eight[4] == data@[pos + 4] && eight[5] == data@[pos
        + 5] && eight[6] == data@[pos + 6] && eight[7] == data@[pos + 7]);
    let v: u64 = data[pos] as u64 + 0x100 * (data[pos + 1] as u64) + 0x1_0000 * (data[pos
        + 2] as u64) + 0x100_0000 * (data[pos + 3] as u64) + 0x1_0000_0000 * (data[pos
        + 4] as u64) + 0x100_0000_0000 * (data[pos + 5] as u64) + 0x1_0000_0000_0000 * (data[pos
        + 6] as u64) + 0x100_0000_0000_0000 * (data[pos + 7] as u64);
    Some((v, pos + 8))
}

/// The boolean stored at `pos`, with the position behind it.
pub fn read_bool(data: &[u8], pos: usize) -> (r: Option<(bool, usize)>)
    ensures
        r == match bool_at(data@, pos as int) {
            Some((v, next)) => Some((v, next as usize)),
            None => None,
        },
        r matches Some((_, next)) ==> pos < next <= data.len(),
{
    if pos >= data.len() || data[pos] > 1 {
        return None;
    }
    Some((data[pos] == 1, pos + 1))
}

/// The thirty-two bytes stored at `pos`, with the position behind them.
pub fn read_address(data: &[u8], pos: usize) -> (r: Option<([u8; 32], usize)>)
    ensures
        match address_at(data@, pos as int) {
            Some((v, next)) => r matches Some((a, p)) && a@ == v && p == next,
            None => r is None,
        },
        r matches Some((_, next)) ==> pos < next <= data.len(),
{
    if data.len() < 32 || pos > data.len() - 32 {
        return None;
    }
    let mut bytes: [u8; 32] = [0u8; 32];
    let mut i: usize = 0;
    while i < 32
        invariant
            i <= 32,
            pos + 32 <= data.len(),
            forall|j: int| 0 <= j < i ==> bytes@[j] == data@[pos + j],
        decreases 32 - i,
    {
        bytes[i] = data[pos + i];
        i += 1;
    }
    assert(bytes@ =~= data@.subrange(pos as int, pos + 32));
    Some((bytes, pos + 32))
}

/// Turns bytes into the text they spell. This is `String::from_utf8` of the
/// standard library, of which it is taken on trust that it succeeds exactly
/// on well-formed UTF-8 and that the string it gives is made of the very
/// bytes handed in.
#[verifier::external_body]
fn string_from_utf8(bytes: Vec<u8>) -> (r: Option<String>)
    ensures
        r is Some <==> valid_utf8(bytes@),
        r matches Some(s) ==> encode_utf8(s@) == bytes@,
{
    match String::from_utf8(bytes) {
        Ok(s) => Some(s),
        Err(_) => None,
    }
}

/// The text field stored at `pos`, with the position behind it.
pub fn read_text(data: &[u8], pos: usize) -> (r: Option<(String, usize)>)
    ensures
        match text_at(data@, pos as int) {
            Some((text, next)) => r matches Some((s, p)) && s@ == text && p == next,
            None => r is None,
        },
        r matches Some((_, next)) ==> pos < next <= data.len(),
{
    let (n, start) = match read_u32(data, pos) {
        Some(found) => found,
        None => {
            return None;
        },
    };
    if n as usize > data.len() - start {
        return None;
    }
    let end: usize = start + n as usize;
    let bytes = slice_to_vec(slice_subrange(data, start, end));
    match string_from_utf8(bytes) {
        Some(s) => {
            proof {
                encode_utf8_decode_utf8(s@);
            }
            Some((s, end))
        },
        None => None,
    }
}

} // verus!
