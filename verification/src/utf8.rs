//! Decoding of one UTF-8 sequence at a time.
//!
//! The decoder never fails: a byte sequence that is not the encoding of a
//! Unicode scalar value yields [`UTF_INVALID`], together with the number of
//! bytes that the caller has to skip. What counts as a well-formed encoding
//! is taken from `vstd::utf8`.

use vstd::prelude::*;
use vstd::slice::slice_subrange;
use vstd::std_specs::cmp::{PartialOrdIs, PartialOrdSpec};
use vstd::utf8::{
    decode_first_codepoint, decode_first_scalar, encode_scalar, is_continuation_byte,
    is_leading_byte_width_1, is_leading_byte_width_2, is_leading_byte_width_3,
    is_leading_byte_width_4, is_scalar, length_of_first_codepoint, length_of_first_scalar,
    not_overlong_encoding, not_surrogate, valid_first_scalar,
    valid_leading_and_continuation_bytes_first_codepoint,
};

verus! {

/// The codepoint that stands for every sequence that cannot be decoded.
pub const UTF_INVALID: u32 = 0xFFFD;

/// The longest encoding of one codepoint, in bytes.
pub const UTF_SIZ: usize = 4;

/// Bit pattern of each kind of byte, under the mask of the same index.
pub const UTFBYTE: [u8; 5] = [0x80, 0, 0xC0, 0xE0, 0xF0];

/// The bits of a byte that tell its kind.
pub const UTFMASK: [u8; 5] = [0xC0, 0x80, 0xE0, 0xF0, 0xF8];

/// Least value that an encoding of each length may hold.
pub const UTFMIN: [u32; 5] = [0, 0, 0x80, 0x800, 0x10000];

/// Greatest value that an encoding of each length may hold.
pub const UTFMAX: [u32; 5] = [0x10FFFF, 0x7F, 0x7FF, 0xFFFF, 0x10FFFF];

/// The kind of a byte: 0 for a continuation byte, 1 to 4 for the first byte
/// of a sequence of that many bytes, 5 for a byte that occurs in no encoding.
pub open spec fn byte_kind(b: u8) -> int {
    if is_continuation_byte(b) {
        0
    } else if is_leading_byte_width_1(b) {
        1
    } else if is_leading_byte_width_2(b) {
        2
    } else if is_leading_byte_width_3(b) {
        3
    } else if is_leading_byte_width_4(b) {
        4
    } else {
        5
    }
}

/// The data bits that a byte carries: what is left of it without the bits
/// that tell its kind.
pub open spec fn byte_bits(b: u8) -> u32 {
    let k = byte_kind(b);
    if k == 0 {
        (b & 0x3F) as u32
    } else if k == 1 {
        (b & 0x7F) as u32
    } else if k == 2 {
        (b & 0x1F) as u32
    } else if k == 3 {
        (b & 0x0F) as u32
    } else if k == 4 {
        (b & 0x07) as u32
    } else {
        0
    }
}

/// The bytes that a decoder limited to `limit` bytes may look at.
pub open spec fn window(bytes: Seq<u8>, limit: int) -> Seq<u8> {
    if limit <= 0 {
        Seq::empty()
    } else if limit < bytes.len() {
        bytes.take(limit)
    } else {
        bytes
    }
}

/// How many bytes at the head of `s` belong to the sequence that `s[0]`
/// opens and are in order: `s[0]` itself and the continuation bytes that
/// follow it without a gap, as far as the sequence and `s` reach.
pub open spec fn sound_prefix(s: Seq<u8>) -> int
    recommends
        s.len() > 0,
{
    let n = byte_kind(s[0]);
    if n <= 1 || s.len() <= 1 || !is_continuation_byte(s[1]) {
        1
    } else if n <= 2 || s.len() <= 2 || !is_continuation_byte(s[2]) {
        2
    } else if n <= 3 || s.len() <= 3 || !is_continuation_byte(s[3]) {
        3
    } else {
        4
    }
}

/// The number of bytes to skip when `s` does not begin with the encoding of
/// a scalar value.
///
/// Nothing is skipped when `s` is empty or ends inside a sequence that is in
/// order so far: more bytes are needed. A byte that can open no sequence is
/// skipped alone. A sequence cut short by a byte that is no continuation
/// byte is skipped up to that byte. A complete sequence whose value is
/// overlong, a surrogate or beyond the last codepoint is skipped whole.
pub open spec fn rejected_len(s: Seq<u8>) -> int {
    if s.len() == 0 {
        0
    } else if byte_kind(s[0]) < 1 || byte_kind(s[0]) > 4 {
        1
    } else if sound_prefix(s) == byte_kind(s[0]) {
        byte_kind(s[0])
    } else if sound_prefix(s) < s.len() {
        sound_prefix(s)
    } else {
        0
    }
}

/// What decoding the head of `s` yields: the codepoint and the number of
/// bytes consumed.
pub open spec fn decoded(s: Seq<u8>) -> (u32, int) {
    if valid_first_scalar(s) {
        (decode_first_scalar(s), length_of_first_scalar(s))
    } else {
        (UTF_INVALID, rejected_len(s))
    }
}

/// Whether a value may be encoded in `n` bytes and is no surrogate.
pub open spec fn legal_value(v: u32, n: int) -> bool
    recommends
        0 <= n <= 4,
{
    UTFMIN[n] <= v <= UTFMAX[n] && !(0xD800 <= v <= 0xDFFF)
}

/// The length of the shortest encoding that can hold `v`.
pub open spec fn encoded_len(v: u32) -> int
    recommends
        v <= 0x10FFFF,
{
    if v <= 0x7F {
        1
    } else if v <= 0x7FF {
        2
    } else if v <= 0xFFFF {
        3
    } else {
        4
    }
}

/// The value gathered from the first `j` bytes of a sequence: the data bits
/// of each byte, six bits further to the left for every byte that follows.
pub open spec fn gathered(s: Seq<u8>, j: int) -> u32
    recommends
        1 <= j <= s.len(),
    decreases j,
{
    if j <= 1 {
        byte_bits(s[0])
    } else {
        (gathered(s, j - 1) << 6) | byte_bits(s[j - 1])
    }
}

/// The codepoint at the head of a text and the number of bytes that it
/// takes there.
///
/// The codepoint is decoded within [`UTF_SIZ`] bytes. Where the text ends
/// inside a sequence, no more bytes will come: what is left of the text
/// counts as one undecodable codepoint. So a text that is not empty always
/// has a head of at least one byte.
pub open spec fn head(s: Seq<u8>) -> (u32, int) {
    let d = decoded(window(s, UTF_SIZ as int));
    if d.1 == 0 {
        (UTF_INVALID, s.len() as int)
    } else {
        d
    }
}

/// Whether `x` lies in the closed interval from `a` to `b`.
pub fn between<T: PartialOrd>(x: T, a: T, b: T) -> (r: bool)
    ensures
        T::obeys_partial_cmp_spec() ==> r == (a.is_le(&x) && x.is_le(&b)),
{
    a <= x && x <= b
}

proof fn lemma_byte_patterns(c: u8)
    by (bit_vector)
    ensures
        (c & 0xC0 == 0x80) == (0x80 <= c && c <= 0xBF),
        (c & 0x80 == 0) == (c <= 0x7F),
        (c & 0xE0 == 0xC0) == (0xC0 <= c && c <= 0xDF),
        (c & 0xF0 == 0xE0) == (0xE0 <= c && c <= 0xEF),
        (c & 0xF8 == 0xF0) == (0xF0 <= c && c <= 0xF7),
        c & !0xC0u8 == c & 0x3F,
        c & !0x80u8 == c & 0x7F,
        c & !0xE0u8 == c & 0x1F,
        c & !0xF0u8 == c & 0x0F,
        c & !0xF8u8 == c & 0x07,
{
}

/// Tells the kind of a byte and returns its data bits.
#[verifier::loop_isolation(false)]
pub fn utf8decodebyte(c: u8, i: &mut usize) -> (r: u32)
    ensures
        *final(i) == byte_kind(c),
        r == byte_bits(c),
{
    proof {
        lemma_byte_patterns(c);
    }
    *i = 0;
    while *i < UTF_SIZ + 1
        invariant
            *i <= 5,
            forall|k: int| 0 <= k < *i ==> c & #[trigger] UTFMASK[k] != UTFBYTE[k],
        decreases 5 - *i,
    {
        if (c & UTFMASK[*i]) == UTFBYTE[*i] {
            assert(*i >= 1 ==> c & UTFMASK[0] != UTFBYTE[0]);
            assert(*i >= 2 ==> c & UTFMASK[1] != UTFBYTE[1]);
            assert(*i >= 3 ==> c & UTFMASK[2] != UTFBYTE[2]);
            assert(*i >= 4 ==> c & UTFMASK[3] != UTFBYTE[3]);
            return (c & !UTFMASK[*i]) as u32;
        }
        *i += 1;
    }
    assert(c & UTFMASK[0] != UTFBYTE[0]);
    assert(c & UTFMASK[1] != UTFBYTE[1]);
    assert(c & UTFMASK[2] != UTFBYTE[2]);
    assert(c & UTFMASK[3] != UTFBYTE[3]);
    assert(c & UTFMASK[4] != UTFBYTE[4]);
    0
}

/// Replaces a value that an encoding of `i` bytes may not hold, or that is
/// a surrogate, by [`UTF_INVALID`], and returns the length of the shortest
/// encoding of what is left.
pub fn utf8validate(u: &mut u32, i: usize) -> (n: usize)
    requires
        i <= UTF_SIZ,
    ensures
        *final(u) == (if legal_value(*old(u), i as int) {
            *old(u)
        } else {
            UTF_INVALID
        }),
        n == encoded_len(*final(u)),
{
    if !between(*u, UTFMIN[i], UTFMAX[i]) || between(*u, 0xD800, 0xDFFF) {
        *u = UTF_INVALID;
    }
    let mut n: usize = 1;
    while *u > UTFMAX[n]
        invariant
            1 <= n <= 4,
            *u <= 0x10FFFF,
            forall|k: int| 1 <= k < n ==> *u > #[trigger] UTFMAX[k],
        decreases 4 - n,
    {
        n += 1;
    }
    assert(n > 1 ==> *u > UTFMAX[n - 1]);
    n
}

proof fn lemma_gather_two(b0: u8, b1: u8)
    by (bit_vector)
    requires
        0xC0 <= b0 <= 0xDF,
    ensures
        (((b0 & 0x1F) as u32) << 6) | ((b1 & 0x3F) as u32) <= 0x7FF,
{
}

proof fn lemma_gather_three(b0: u8, b1: u8, b2: u8)
    by (bit_vector)
    requires
        0xE0 <= b0 <= 0xEF,
    ensures
        (((((b0 & 0x0F) as u32) << 6) | ((b1 & 0x3F) as u32)) << 6) | ((b2 & 0x3F) as u32) == (((b0
            & 0x0F) as u32) << 12) | (((b1 & 0x3F) as u32) << 6) | ((b2 & 0x3F) as u32),
        (((b0 & 0x0F) as u32) << 12) | (((b1 & 0x3F) as u32) << 6) | ((b2 & 0x3F) as u32)
            <= 0xFFFF,
{
}

proof fn lemma_gather_four(b0: u8, b1: u8, b2: u8, b3: u8)
    by (bit_vector)
    requires
        0xF0 <= b0 <= 0xF7,
    ensures
        (((((((b0 & 0x07) as u32) << 6) | ((b1 & 0x3F) as u32)) << 6) | ((b2 & 0x3F) as u32)) << 6)
            | ((b3 & 0x3F) as u32) == (((b0 & 0x07) as u32) << 18) | (((b1 & 0x3F) as u32) << 12)
            | (((b2 & 0x3F) as u32) << 6) | ((b3 & 0x3F) as u32),
        (((b0 & 0x07) as u32) << 18) | (((b1 & 0x3F) as u32) << 12) | (((b2 & 0x3F) as u32) << 6)
            | ((b3 & 0x3F) as u32) <= 0x1FFFFF,
{
}

proof fn lemma_gather_one(b0: u8)
    by (bit_vector)
    ensures
        (b0 & 0x7F) as u32 <= 0x7F,
{
}

/// Of a sequence whose bytes are all there and in order, the gathered value
/// is the codepoint that the encoding holds, and it is no greater than the
/// greatest value that the sequence's length admits.
pub proof fn lemma_gathered_codepoint(s: Seq<u8>)
    requires
        s.len() > 0,
        1 <= byte_kind(s[0]) <= 4,
        sound_prefix(s) == byte_kind(s[0]),
    ensures
        valid_leading_and_continuation_bytes_first_codepoint(s),
        gathered(s, byte_kind(s[0])) == decode_first_codepoint(s),
        byte_kind(s[0]) < 4 ==> gathered(s, byte_kind(s[0])) <= UTFMAX[byte_kind(s[0])],
{
    let n = byte_kind(s[0]);
    reveal_with_fuel(gathered, 4);
    if n == 1 {
        lemma_gather_one(s[0]);
    } else if n == 2 {
        lemma_gather_two(s[0], s[1]);
    } else if n == 3 {
        lemma_gather_three(s[0], s[1], s[2]);
    } else {
        lemma_gather_four(s[0], s[1], s[2], s[3]);
    }
}

/// Decodes the codepoint at the head of `c`, looking at no more than `clen`
/// bytes, stores it in `u` and returns the number of bytes consumed.
pub fn utf8decode(c: &[u8], u: &mut u32, clen: usize) -> (len: usize)
    ensures
        (*final(u), len as int) == decoded(window(c@, clen as int)),
{
    *u = UTF_INVALID;
    let avail: usize = if clen < c.len() {
        clen
    } else {
        c.len()
    };
    let ghost s = window(c@, clen as int);
    if avail == 0 {
        return 0;
    }
    let mut len: usize = 0;
    let mut udecoded: u32 = utf8decodebyte(c[0], &mut len);
    if !between(len, 1, UTF_SIZ) {
        return 1;
    }
    let mut j: usize = 1;
    let mut typ: usize = 0;
    while j < avail && j < len
        invariant
            s == window(c@, clen as int),
            avail == s.len(),
            avail <= c.len(),
            1 <= j <= len <= 4,
            j <= avail,
            len == byte_kind(s[0]),
            forall|k: int| 1 <= k < j ==> is_continuation_byte(#[trigger] s[k]),
            udecoded == gathered(s, j as int),
            *u == UTF_INVALID,
        decreases len - j,
    {
        udecoded = (udecoded << 6) | utf8decodebyte(c[j], &mut typ);
        if typ != 0 {
            return j;
        }
        j += 1;
    }
    if j < len {
        return 0;
    }
    proof {
        lemma_gathered_codepoint(s);
    }
    *u = udecoded;
    utf8validate(u, len);
    len
}

/// Decodes the codepoint that begins at `pos` and returns it with the
/// number of bytes that it takes.
pub fn utf8next(text: &[u8], pos: usize) -> (r: (u32, usize))
    requires
        pos < text.len(),
    ensures
        (r.0, r.1 as int) == head(text@.skip(pos as int)),
        1 <= r.1 <= UTF_SIZ,
        pos + r.1 <= text.len(),
{
    let rest = slice_subrange(text, pos, text.len());
    assert(rest@ =~= text@.skip(pos as int));
    let mut u: u32 = UTF_INVALID;
    let n = utf8decode(rest, &mut u, UTF_SIZ);
    proof {
        lemma_decoded_bounds(window(rest@, UTF_SIZ as int));
    }
    if n == 0 {
        (UTF_INVALID, text.len() - pos)
    } else {
        (u, n)
    }
}

/// Decoding consumes no more bytes than there are, and none only where more
/// bytes are needed: then fewer than [`UTF_SIZ`] bytes were there.
pub proof fn lemma_decoded_bounds(s: Seq<u8>)
    ensures
        0 <= decoded(s).1 <= s.len(),
        decoded(s).1 <= 4,
        decoded(s).1 == 0 ==> s.len() < 4,
{
}

/// A text that is not empty has a head of one to four bytes, all of them
/// within the text.
pub proof fn lemma_head_bounds(s: Seq<u8>)
    requires
        s.len() > 0,
    ensures
        1 <= head(s).1 <= s.len(),
        head(s).1 <= 4,
{
    lemma_decoded_bounds(window(s, UTF_SIZ as int));
}

/// The codepoint at the head of a text is the same in every prefix of the
/// text that holds all of its bytes.
pub proof fn lemma_head_prefix(s: Seq<u8>, e: int)
    requires
        s.len() > 0,
        head(s).1 <= e <= s.len(),
    ensures
        head(s.take(e)) == head(s),
{
    let w = window(s, UTF_SIZ as int);
    let v = window(s.take(e), UTF_SIZ as int);
    lemma_decoded_bounds(w);
    lemma_decoded_bounds(v);
    if e >= 4 || e == s.len() {
        assert(v =~= w);
    } else {
        assert(v =~= s.take(e));
        assert(w.len() > e);
        assert(forall|i: int| 0 <= i < e ==> v[i] == w[i]);
    }
}

proof fn lemma_encoding_one(c: u32)
    by (bit_vector)
    requires
        c <= 0x7F,
    ensures
        (c & 0x7F) as u8 <= 0x7F,
        (((c & 0x7F) as u8) & 0x7F) as u32 == c,
{
}

proof fn lemma_encoding_two(c: u32)
    by (bit_vector)
    requires
        0x80 <= c <= 0x7FF,
    ensures
        ({
            let b0 = 0xC0u8 | ((c >> 6) & 0x1F) as u8;
            let b1 = 0x80u8 | (c & 0x3F) as u8;
            &&& 0xC0 <= b0 <= 0xDF
            &&& 0x80 <= b1 <= 0xBF
            &&& (((b0 & 0x1F) as u32) << 6) | ((b1 & 0x3F) as u32) == c
        }),
{
}

proof fn lemma_encoding_three(c: u32)
    by (bit_vector)
    requires
        0x800 <= c <= 0xFFFF,
    ensures
        ({
            let b0 = 0xE0u8 | ((c >> 12) & 0x0F) as u8;
            let b1 = 0x80u8 | ((c >> 6) & 0x3F) as u8;
            let b2 = 0x80u8 | (c & 0x3F) as u8;
            &&& 0xE0 <= b0 <= 0xEF
            &&& 0x80 <= b1 <= 0xBF
            &&& 0x80 <= b2 <= 0xBF
            &&& (((b0 & 0x0F) as u32) << 12) | (((b1 & 0x3F) as u32) << 6) | ((b2 & 0x3F) as u32)
                == c
        }),
{
}

proof fn lemma_encoding_four(c: u32)
    by (bit_vector)
    requires
        0x10000 <= c <= 0x10FFFF,
    ensures
        ({
            let b0 = 0xF0u8 | ((c >> 18) & 0x07) as u8;
            let b1 = 0x80u8 | ((c >> 12) & 0x3F) as u8;
            let b2 = 0x80u8 | ((c >> 6) & 0x3F) as u8;
            let b3 = 0x80u8 | (c & 0x3F) as u8;
            &&& 0xF0 <= b0 <= 0xF7
            &&& 0x80 <= b1 <= 0xBF
            &&& 0x80 <= b2 <= 0xBF
            &&& 0x80 <= b3 <= 0xBF
            &&& (((b0 & 0x07) as u32) << 18) | (((b1 & 0x3F) as u32) << 12) | (((b2
                & 0x3F) as u32) << 6) | ((b3 & 0x3F) as u32) == c
        }),
{
}

/// Decoding undoes encoding: where a text begins with the UTF-8 encoding of
/// a scalar value, as `vstd::utf8::encode_scalar` gives it, the decoder
/// returns that value and the length of its encoding, whatever follows.
pub proof fn lemma_decode_of_encoding(c: u32, s: Seq<u8>)
    requires
        is_scalar(c),
        encode_scalar(c).len() <= s.len(),
        s.take(encode_scalar(c).len() as int) == encode_scalar(c),
    ensures
        decoded(s) == (c, encode_scalar(c).len() as int),
        head(s) == (c, encode_scalar(c).len() as int),
{
    let e = encode_scalar(c);
    let n = e.len() as int;
    assert(forall|i: int| 0 <= i < n ==> s[i] == #[trigger] s.take(n)[i]);
    if c <= 0x7F {
        lemma_encoding_one(c);
        assert(s[0] == e[0]);
    } else if c <= 0x7FF {
        lemma_encoding_two(c);
        assert(s[0] == e[0] && s[1] == e[1]);
    } else if c <= 0xFFFF {
        lemma_encoding_three(c);
        assert(s[0] == e[0] && s[1] == e[1] && s[2] == e[2]);
    } else {
        lemma_encoding_four(c);
        assert(s[0] == e[0] && s[1] == e[1] && s[2] == e[2] && s[3] == e[3]);
    }
    assert(decoded(s) == (c, n));
    let w = window(s, UTF_SIZ as int);
    assert(forall|i: int| 0 <= i < n ==> w[i] == s[i]);
    assert(decoded(w) == (c, n));
}

/// A sequence that the limit cuts short asks for more bytes: where a text
/// begins with a first byte and continuation bytes in order, and the
/// decoder may look at some but not all bytes of that sequence, it reports
/// the undecodable codepoint and consumes nothing, whatever lies beyond the
/// limit.
pub proof fn lemma_decode_truncated(bytes: Seq<u8>, limit: int)
    requires
        valid_leading_and_continuation_bytes_first_codepoint(bytes),
        0 <= limit < length_of_first_codepoint(bytes),
    ensures
        decoded(window(bytes, limit)) == (UTF_INVALID, 0int),
{
    let w = window(bytes, limit);
    assert(forall|i: int| 0 <= i < w.len() ==> w[i] == bytes[i]);
}

/// The decoder returns scalar values only: never a surrogate, never a value
/// beyond the last codepoint. A complete sequence that holds a surrogate,
/// an overlong form or too great a value yields the undecodable codepoint
/// and is consumed whole.
pub proof fn lemma_decoded_scalar(s: Seq<u8>)
    ensures
        is_scalar(decoded(s).0),
        !(0xD800 <= decoded(s).0 <= 0xDFFF),
        decoded(s).0 <= 0x10FFFF,
        valid_leading_and_continuation_bytes_first_codepoint(s) && !(not_overlong_encoding(
            decode_first_codepoint(s),
            length_of_first_codepoint(s),
        ) && not_surrogate(decode_first_codepoint(s))) ==> decoded(s) == (
            UTF_INVALID,
            length_of_first_codepoint(s),
        ),
{
    if valid_first_scalar(s) {
        lemma_gathered_codepoint(s);
        let n = byte_kind(s[0]);
        let v = decode_first_codepoint(s);
        assert(v <= UTFMAX[4]) by {
            if n == 4 {
            } else {
                assert(v <= UTFMAX[n]);
            }
        }
    }
}

} // verus!
