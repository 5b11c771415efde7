//! Modified UTF-8, the encoding of the strings of a class file.
//!
//! A character from U+0001 to U+007F takes one byte. U+0000 and the characters from U+0080 to
//! U+07FF take two, those from U+0800 to U+FFFF three. A character above U+FFFF is written as
//! its two UTF-16 surrogates, each in the three-byte form. Nothing else is accepted: not the
//! byte zero, a four-byte form, an encoding longer than the character needs, or a surrogate
//! without its partner.

use vstd::prelude::*;
use vstd::utf8::*;
use crate::error::DecodeError;

verus! {

/// Whether `u` is the first half of a surrogate pair.
pub open spec fn is_high_surrogate(u: u32) -> bool {
    0xD800 <= u <= 0xDBFF
}

/// Whether `u` is the second half of a surrogate pair.
pub open spec fn is_low_surrogate(u: u32) -> bool {
    0xDC00 <= u <= 0xDFFF
}

/// The character above U+FFFF that a surrogate pair stands for.
pub open spec fn join_surrogates(hi: u32, lo: u32) -> u32 {
    (0x10000 + (hi - 0xD800) * 0x400 + (lo - 0xDC00)) as u32
}

/// Whether `b` begins with a two-byte form: of U+0000, or of a character that needs two bytes.
pub open spec fn starts_with_pair(b: Seq<u8>) -> bool {
    &&& b.len() >= 2
    &&& is_leading_byte_width_2(b[0])
    &&& is_continuation_byte(b[1])
    &&& (codepoint_width_2(b[0], b[1]) == 0 || codepoint_width_2(b[0], b[1]) >= 0x80)
}

/// Whether the three bytes of `b` from `i` on are a three-byte form of a 16-bit value that needs
/// three bytes.
pub open spec fn triple_at(b: Seq<u8>, i: int) -> bool {
    &&& b.len() >= i + 3
    &&& is_leading_byte_width_3(b[i])
    &&& is_continuation_byte(b[i + 1])
    &&& is_continuation_byte(b[i + 2])
    &&& codepoint_width_3(b[i], b[i + 1], b[i + 2]) >= 0x800
}

/// The 16-bit value of the three-byte form at `i`.
pub open spec fn triple_value(b: Seq<u8>, i: int) -> u32 {
    codepoint_width_3(b[i], b[i + 1], b[i + 2])
}

/// The character that `b` begins with and the number of bytes it takes, if `b` begins with an
/// encoded character.
pub open spec fn spec_first(b: Seq<u8>) -> Option<(char, int)> {
    if b.len() >= 1 && 0x01 <= b[0] <= 0x7f {
        Some((b[0] as char, 1))
    } else if starts_with_pair(b) {
        Some((codepoint_width_2(b[0], b[1]) as char, 2))
    } else if triple_at(b, 0) && !is_high_surrogate(triple_value(b, 0)) && !is_low_surrogate(
        triple_value(b, 0),
    ) {
        Some((triple_value(b, 0) as char, 3))
    } else if triple_at(b, 0) && is_high_surrogate(triple_value(b, 0)) && triple_at(b, 3)
        && is_low_surrogate(triple_value(b, 3)) {
        Some((join_surrogates(triple_value(b, 0), triple_value(b, 3)) as char, 6))
    } else {
        None
    }
}

/// The text that `b` encodes, if `b` is modified UTF-8.
pub open spec fn spec_decode(b: Seq<u8>) -> Option<Seq<char>>
    decreases b.len(),
{
    if b.len() == 0 {
        Some(Seq::empty())
    } else {
        match spec_first(b) {
            None => None,
            Some((c, width)) => match spec_decode(b.skip(width)) {
                None => None,
                Some(rest) => Some(seq![c] + rest),
            },
        }
    }
}

/// `char::from_u32` yields the character with the given number where there is one, that is
/// where the number is a Unicode scalar value, and `None` elsewhere.
pub assume_specification[ char::from_u32 ](i: u32) -> (r: Option<char>)
    ensures
        r == (if is_scalar(i) { Some(i as char) } else { None }),
;

/// `String::push` appends one character to the string.
pub assume_specification[ String::push ](s: &mut String, ch: char)
    ensures
        final(s)@ == old(s)@.push(ch),
;

/// Whether `b` holds neither the byte zero nor a byte that begins a four-byte form: the two
/// things that UTF-8 has and modified UTF-8 has not.
pub open spec fn plain(b: Seq<u8>) -> bool {
    forall|i: int| 0 <= i < b.len() ==> 0 < #[trigger] b[i] < 0xf0
}

/// On UTF-8 that holds no zero byte and no four-byte form, modified UTF-8 and UTF-8 are one
/// encoding: the bytes decode, and to the text that they encode in UTF-8.
pub proof fn lemma_agrees_with_utf8(b: Seq<u8>)
    requires
        valid_utf8(b),
        plain(b),
    ensures
        spec_decode(b) == Some(decode_utf8(b)),
    decreases b.len(),
{
    if b.len() > 0 {
        let b0 = b[0];
        let width = length_of_first_scalar(b);
        let rest = b.skip(width);
        assert(rest =~= pop_first_scalar(b));
        assert(forall|i: int| 0 <= i < rest.len() ==> rest[i] == b[i + width]);
        assert(0 < b0 < 0xf0);
        if is_leading_byte_width_1(b0) {
            assert(b0 <= 0x7f ==> b0 & 0x7f == b0) by (bit_vector);
        }
        lemma_agrees_with_utf8(rest);
        assert(spec_first(b) == Some((decode_first_scalar(b) as char, width)));
    } else {
        assert(decode_utf8(b) =~= Seq::<char>::empty());
    }
}

/// Bytes that decode give at least one character for every six of them and at most one for
/// each: the text is empty only where there are no bytes.
pub proof fn lemma_decoded_length(b: Seq<u8>)
    requires
        spec_decode(b) is Some,
    ensures
        spec_decode(b).unwrap().len() <= b.len() <= 6 * spec_decode(b).unwrap().len(),
        spec_decode(b).unwrap().len() == 0 <==> b.len() == 0,
    decreases b.len(),
{
    if b.len() > 0 {
        lemma_decoded_length(b.skip(spec_first(b).unwrap().1));
    }
}

/// `text` with `lead` put before it.
pub open spec fn prefixed(lead: Seq<char>, text: Option<Seq<char>>) -> Option<Seq<char>> {
    match text {
        None => None,
        Some(t) => Some(lead + t),
    }
}

fn is_continuation(b: u8) -> (r: bool)
    ensures
        r == is_continuation_byte(b),
{
    0x80 <= b && b <= 0xbf
}

/// The 16-bit value of the three-byte form at `i`, if there is one.
fn triple(bytes: &[u8], i: usize) -> (r: Option<u32>)
    requires
        i <= bytes@.len(),
    ensures
        r == (if triple_at(bytes@, i as int) {
            Some(triple_value(bytes@, i as int))
        } else {
            None
        }),
        r is Some ==> r.unwrap() <= 0xFFFF,
{
    if bytes.len() - i < 3 {
        return None;
    }
    let b0 = bytes[i];
    let b1 = bytes[i + 1];
    let b2 = bytes[i + 2];
    if !(0xe0 <= b0 && b0 <= 0xef && is_continuation(b1) && is_continuation(b2)) {
        return None;
    }
    let u: u32 = (((b0 & 0x0F) as u32) << 12) | (((b1 & 0x3f) as u32) << 6) | ((b2 & 0x3f) as u32);
    assert((((b0 & 0x0F) as u32) << 12) | (((b1 & 0x3f) as u32) << 6) | ((b2 & 0x3f) as u32)
        <= 0xFFFF) by (bit_vector);
    if u < 0x800 {
        None
    } else {
        Some(u)
    }
}

/// The character encoded at `i` and the number of bytes it takes.
fn first(bytes: &[u8], i: usize) -> (r: Option<(char, usize)>)
    requires
        i < bytes@.len(),
    ensures
        match spec_first(bytes@.skip(i as int)) {
            Some((c, width)) => r == Some((c, width as usize)) && 1 <= width && i + width
                <= bytes@.len(),
            None => r is None,
        },
{
    let ghost rest = bytes@.skip(i as int);
    assert(forall|k: int| 0 <= k < rest.len() ==> rest[k] == bytes@[i + k]);
    assert(triple_at(rest, 0) == triple_at(bytes@, i as int));
    assert(triple_at(rest, 3) == triple_at(bytes@, i + 3));
    let b0 = bytes[i];
    if 0x01 <= b0 && b0 <= 0x7f {
        return match char::from_u32(b0 as u32) {
            Some(c) => Some((c, 1)),
            None => None,
        };
    }
    if 0xc0 <= b0 && b0 <= 0xdf {
        if bytes.len() - i < 2 {
            return None;
        }
        let b1 = bytes[i + 1];
        if !is_continuation(b1) {
            return None;
        }
        let v: u32 = (((b0 & 0x1F) as u32) << 6) | ((b1 & 0x3f) as u32);
        assert((((b0 & 0x1F) as u32) << 6) | ((b1 & 0x3f) as u32) <= 0x7FF) by (bit_vector);
        if v != 0 && v < 0x80 {
            return None;
        }
        return match char::from_u32(v) {
            Some(c) => Some((c, 2)),
            None => None,
        };
    }
    let hi = match triple(bytes, i) {
        Some(u) => u,
        None => {
            return None;
        },
    };
    if !(0xD800 <= hi && hi <= 0xDFFF) {
        return match char::from_u32(hi) {
            Some(c) => Some((c, 3)),
            None => None,
        };
    }
    if hi > 0xDBFF {
        return None;
    }
    let lo = match triple(bytes, i + 3) {
        Some(u) => u,
        None => {
            return None;
        },
    };
    if !(0xDC00 <= lo && lo <= 0xDFFF) {
        return None;
    }
    let joined: u32 = 0x10000 + (hi - 0xD800) * 0x400 + (lo - 0xDC00);
    match char::from_u32(joined) {
        Some(c) => Some((c, 6)),
        None => None,
    }
}

/// Decodes modified UTF-8.
pub fn decode(bytes: &[u8]) -> (r: Result<String, DecodeError>)
    ensures
        match spec_decode(bytes@) {
            Some(text) => r is Ok && r.unwrap()@ == text,
            None => r is Err && r.unwrap_err() == DecodeError::Utf8DecodeError,
        },
{
    let mut out = String::new();
    let mut i: usize = 0;
    assert(bytes@.skip(0) =~= bytes@);
    assert(out@ + spec_decode(bytes@).unwrap() =~= spec_decode(bytes@).unwrap());
    while i < bytes.len()
        invariant
            i <= bytes@.len(),
            spec_decode(bytes@) == prefixed(out@, spec_decode(bytes@.skip(i as int))),
        decreases bytes@.len() - i,
    {
        let ghost rest = bytes@.skip(i as int);
        let ghost before = out@;
        match first(bytes, i) {
            None => {
                return Err(DecodeError::Utf8DecodeError);
            },
            Some((c, width)) => {
                out.push(c);
                i = i + width;
                proof {
                    assert(rest.skip(width as int) =~= bytes@.skip(i as int));
                    let tail = spec_decode(bytes@.skip(i as int));
                    if tail is Some {
                        assert(before + (seq![c] + tail.unwrap()) =~= before.push(c)
                            + tail.unwrap());
                    }
                }
            },
        }
    }
    assert(out@ + Seq::<char>::empty() =~= out@);
    Ok(out)
}

} // verus!
