//! Bytes as text: strict and lossy decoding of UTF-8.

use crate::text;
use vstd::prelude::*;
use vstd::string::*;
use vstd::utf8::*;

verus! {

/// `char::from_u32` gives the character with the given scalar value, and nothing for a value
/// that is no Unicode scalar.
pub assume_specification[ char::from_u32 ](i: u32) -> (r: Option<char>)
    ensures
        r is Some <==> is_scalar(i),
        r matches Some(c) ==> c as u32 == i,
;

/// The text that a lossy decoding of `bytes` gives, with replacement characters for what is not
/// UTF-8.
pub uninterp spec fn utf8_lossy(bytes: Seq<u8>) -> Seq<char>;

/// Decodes `bytes` with replacement characters for what is not UTF-8.
///
/// Calls `String::from_utf8_lossy`. The result is named; of it is claimed only that valid UTF-8
/// comes out as it stands.
#[verifier::external_body]
pub(crate) fn lossy_text(bytes: &[u8]) -> (s: String)
    ensures
        s@ == utf8_lossy(bytes@),
        valid_utf8(bytes@) ==> s@ == decode_utf8(bytes@),
{
    String::from_utf8_lossy(bytes).into_owned()
}

/// Whether `b` continues a character.
pub fn is_continuation(b: u8) -> (r: bool)
    ensures
        r == is_continuation_byte(b),
{
    0x80 <= b && b <= 0xbf
}

/// The character that `bytes` holds at `i`, with its width, where one is well formed there.
fn scalar_at(bytes: &[u8], i: usize) -> (r: Option<(char, usize)>)
    requires
        i < bytes@.len(),
    ensures
        r is Some <==> valid_first_scalar(bytes@.skip(i as int)),
        r matches Some((c, k)) ==> {
            &&& 1 <= k <= bytes@.len() - i
            &&& k == length_of_first_scalar(bytes@.skip(i as int))
            &&& encode_scalar(c as u32) == bytes@.subrange(i as int, i + k)
        },
{
    let ghost rest = bytes@.skip(i as int);
    let b1: u8 = bytes[i];
    let n: usize = bytes.len() - i;
    let mut k: usize = 0;
    let mut cp: u32 = 0;
    if b1 <= 0x7f {
        k = 1;
        cp = (b1 & 0x7f) as u32;
        assert(b1 & 0x7f <= 0x7f) by (bit_vector);
    } else if 0xc0 <= b1 && b1 <= 0xdf {
        if n < 2 || !is_continuation(bytes[i + 1]) {
            return None;
        }
        let b2: u8 = bytes[i + 1];
        k = 2;
        let x: u32 = (b1 & 0x1f) as u32;
        let y: u32 = (b2 & 0x3f) as u32;
        cp = (x << 6) | y;
        assert(b1 & 0x1f <= 0x1f) by (bit_vector);
        assert(b2 & 0x3f <= 0x3f) by (bit_vector);
        assert((x << 6) | y <= 0x7ff) by (bit_vector)
            requires
                x <= 0x1f,
                y <= 0x3f,
        ;
        if cp < 0x80 {
            return None;
        }
    } else if 0xe0 <= b1 && b1 <= 0xef {
        if n < 3 || !is_continuation(bytes[i + 1]) || !is_continuation(bytes[i + 2]) {
            return None;
        }
        let b2: u8 = bytes[i + 1];
        let b3: u8 = bytes[i + 2];
        k = 3;
        let x: u32 = (b1 & 0x0f) as u32;
        let y: u32 = (b2 & 0x3f) as u32;
        let z: u32 = (b3 & 0x3f) as u32;
        cp = (x << 12) | (y << 6) | z;
        assert(b1 & 0x0f <= 0x0f) by (bit_vector);
        assert(b2 & 0x3f <= 0x3f) by (bit_vector);
        assert(b3 & 0x3f <= 0x3f) by (bit_vector);
        assert((x << 12) | (y << 6) | z <= 0xffff) by (bit_vector)
            requires
                x <= 0x0f,
                y <= 0x3f,
                z <= 0x3f,
        ;
        if cp < 0x800 || (0xd800 <= cp && cp <= 0xdfff) {
            return None;
        }
    } else if 0xf0 <= b1 && b1 <= 0xf7 {
        if n < 4 || !is_continuation(bytes[i + 1]) || !is_continuation(bytes[i + 2])
            || !is_continuation(bytes[i + 3]) {
            return None;
        }
        let b2: u8 = bytes[i + 1];
        let b3: u8 = bytes[i + 2];
        let b4: u8 = bytes[i + 3];
        k = 4;
        let x: u32 = (b1 & 0x07) as u32;
        let y: u32 = (b2 & 0x3f) as u32;
        let z: u32 = (b3 & 0x3f) as u32;
        let w: u32 = (b4 & 0x3f) as u32;
        cp = (x << 18) | (y << 12) | (z << 6) | w;
        if cp < 0x10000 || cp > 0x10ffff {
            return None;
        }
    } else {
        return None;
    }
    assert(cp == decode_first_codepoint(rest));
    assert(k == length_of_first_codepoint(rest));
    match char::from_u32(cp) {
        Some(c) => {
            proof {
                let chunk = bytes@.subrange(i as int, i + k);
                assert(chunk =~= rest.take(k as int));
                assert(decode_first_codepoint(chunk) == cp);
                assert(valid_first_scalar(chunk));
                assert(pop_first_scalar(chunk) =~= Seq::<u8>::empty());
                reveal_with_fuel(valid_utf8, 2);
                decode_utf8_first_scalar(chunk);
                char_u32_cast(c, cp);
                assert(take_first_scalar(chunk) =~= chunk);
            }
            Some((c, k))
        },
        None => None,
    }
}

/// Decodes `bytes` as UTF-8. Where they are none, the error is the length of the longest prefix
/// that holds whole characters.
pub fn decode_text(bytes: &[u8]) -> (r: Result<String, usize>)
    ensures
        match r {
            Ok(s) => valid_utf8(bytes@) && s@ == decode_utf8(bytes@),
            Err(n) => !valid_utf8(bytes@) && partial_valid_utf8(bytes@, n as int) && n < bytes@.len()
                && !valid_first_scalar(bytes@.skip(n as int)),
        },
{
    let mut out = String::new();
    let mut i: usize = 0;
    assert(bytes@.take(0) =~= Seq::<u8>::empty());
    while i < bytes.len()
        invariant
            i <= bytes@.len(),
            encode_utf8(out@) == bytes@.take(i as int),
        decreases bytes@.len() - i,
    {
        match scalar_at(bytes, i) {
            Some((c, k)) => {
                proof {
                    let head = out@;
                    assert(head.push(c) =~= head + seq![c]);
                    text::lemma_encode_concat(head, seq![c]);
                    assert(seq![c].drop_first() =~= Seq::<char>::empty());
                    reveal_with_fuel(encode_utf8, 2);
                    assert(encode_utf8(seq![c]) =~= encode_scalar(c as u32));
                    assert(bytes@.take(i + k) =~= bytes@.take(i as int) + bytes@.subrange(
                        i as int,
                        i + k,
                    ));
                }
                out.push(c);
                i = i + k;
            },
            None => {
                proof {
                    encode_utf8_valid_utf8(out@);
                    assert(bytes@.subrange(0, i as int) =~= bytes@.take(i as int));
                    assert(bytes@.subrange(i as int, bytes@.len() as int) =~= bytes@.skip(i as int));
                    partial_valid_partial_invalid_utf8(bytes@, i as int);
                }
                return Err(i);
            },
        }
    }
    proof {
        assert(bytes@.take(i as int) =~= bytes@);
        encode_utf8_valid_utf8(out@);
        encode_utf8_decode_utf8(out@);
    }
    Ok(out)
}

/// The UTF-8 bytes of `s`.
pub fn bytes_of(s: &str) -> (r: Vec<u8>)
    ensures
        r@ == encode_utf8(s@),
{
    s.as_bytes_vec()
}

/// Decoding the encoding of a text gives the text back.
pub proof fn law_decode_undoes_encode(s: Seq<char>)
    ensures
        valid_utf8(encode_utf8(s)),
        decode_utf8(encode_utf8(s)) == s,
{
    encode_utf8_valid_utf8(s);
    encode_utf8_decode_utf8(s);
}

} // verus!
