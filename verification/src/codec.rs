//! The UTF-8 decode step of the output relay.
//!
//! Each chunk read from the shell channel is decoded as UTF-8 text. A
//! chunk holding any invalid sequence is refused whole: decoding is exact,
//! with no character-set fallback and no resynchronisation. Validity is
//! decided here, byte by byte, against vstd's model of UTF-8.

use vstd::prelude::*;
use vstd::utf8::*;
use crate::errors::SessionError;

verus! {

/// Decides whether `bytes` form a valid UTF-8 encoding.
pub fn utf8_valid(bytes: &[u8]) -> (r: bool)
    ensures
        r == valid_utf8(bytes@),
{
    let n = bytes.len();
    let mut i: usize = 0;
    while i < n
        invariant
            0 <= i <= n,
            n == bytes@.len(),
            partial_valid_utf8(bytes@, i as int),
        decreases n - i,
    {
        let ghost suffix = bytes@.subrange(i as int, n as int);
        proof {
            assert(suffix.len() == n - i);
            assert(suffix[0] == bytes@[i as int]);
        }
        let b0 = bytes[i];
        if b0 <= 0x7f {
            proof {
                assert(is_leading_byte_width_1(suffix[0]));
                assert(valid_first_scalar(suffix));
                assert(length_of_first_scalar(suffix) == 1);
                partial_valid_utf8_extend(bytes@, i as int);
            }
            i += 1;
        } else if 0xc0 <= b0 && b0 <= 0xdf {
            if n - i < 2 {
                proof {
                    assert(!valid_first_scalar(suffix));
                    assert(!valid_utf8(suffix));
                    partial_valid_partial_invalid_utf8(bytes@, i as int);
                }
                return false;
            }
            let b1 = bytes[i + 1];
            proof {
                assert(suffix[1] == bytes@[i as int + 1]);
            }
            if !(0x80 <= b1 && b1 <= 0xbf) {
                proof {
                    assert(!valid_first_scalar(suffix));
                    assert(!valid_utf8(suffix));
                    partial_valid_partial_invalid_utf8(bytes@, i as int);
                }
                return false;
            }
            let cp: u32 = (((b0 & 0x1f) as u32) << 6u32) | ((b1 & 0x3f) as u32);
            proof {
                assert(decode_first_codepoint(suffix) == codepoint_width_2(suffix[0], suffix[1]));
                assert(codepoint_width_2(suffix[0], suffix[1]) == cp);
            }
            if cp < 0x80 {
                proof {
                    assert(!not_overlong_encoding(decode_first_codepoint(suffix), 2));
                    assert(!valid_first_scalar(suffix));
                    assert(!valid_utf8(suffix));
                    partial_valid_partial_invalid_utf8(bytes@, i as int);
                }
                return false;
            }
            proof {
                assert(cp <= 0x7ff) by (bit_vector)
                    requires
                        cp == (((b0 & 0x1f) as u32) << 6u32) | ((b1 & 0x3f) as u32),
                ;
                assert(not_surrogate(cp));
                assert(valid_first_scalar(suffix));
                assert(length_of_first_scalar(suffix) == 2);
                partial_valid_utf8_extend(bytes@, i as int);
            }
            i += 2;
        } else if 0xe0 <= b0 && b0 <= 0xef {
            if n - i < 3 {
                proof {
                    assert(!valid_first_scalar(suffix));
                    assert(!valid_utf8(suffix));
                    partial_valid_partial_invalid_utf8(bytes@, i as int);
                }
                return false;
            }
            let b1 = bytes[i + 1];
            let b2 = bytes[i + 2];
            proof {
                assert(suffix[1] == bytes@[i as int + 1]);
                assert(suffix[2] == bytes@[i as int + 2]);
            }
            if !(0x80 <= b1 && b1 <= 0xbf) || !(0x80 <= b2 && b2 <= 0xbf) {
                proof {
                    assert(!valid_first_scalar(suffix));
                    assert(!valid_utf8(suffix));
                    partial_valid_partial_invalid_utf8(bytes@, i as int);
                }
                return false;
            }
            let cp: u32 = (((b0 & 0x0f) as u32) << 12u32) | (((b1 & 0x3f) as u32) << 6u32) | ((b2
                & 0x3f) as u32);
            proof {
                assert(decode_first_codepoint(suffix) == codepoint_width_3(
                    suffix[0],
                    suffix[1],
                    suffix[2],
                ));
                assert(codepoint_width_3(suffix[0], suffix[1], suffix[2]) == cp);
            }
            if cp < 0x800 || (0xd800 <= cp && cp <= 0xdfff) {
                proof {
                    assert(!valid_first_scalar(suffix));
                    assert(!valid_utf8(suffix));
                    partial_valid_partial_invalid_utf8(bytes@, i as int);
                }
                return false;
            }
            proof {
                assert(valid_first_scalar(suffix));
                assert(length_of_first_scalar(suffix) == 3);
                partial_valid_utf8_extend(bytes@, i as int);
            }
            i += 3;
        } else if 0xf0 <= b0 && b0 <= 0xf7 {
            if n - i < 4 {
                proof {
                    assert(!valid_first_scalar(suffix));
                    assert(!valid_utf8(suffix));
                    partial_valid_partial_invalid_utf8(bytes@, i as int);
                }
                return false;
            }
            let b1 = bytes[i + 1];
            let b2 = bytes[i + 2];
            let b3 = bytes[i + 3];
            proof {
                assert(suffix[1] == bytes@[i as int + 1]);
                assert(suffix[2] == bytes@[i as int + 2]);
                assert(suffix[3] == bytes@[i as int + 3]);
            }
            if !(0x80 <= b1 && b1 <= 0xbf) || !(0x80 <= b2 && b2 <= 0xbf) || !(0x80 <= b3 && b3
                <= 0xbf) {
                proof {
                    assert(!valid_first_scalar(suffix));
                    assert(!valid_utf8(suffix));
                    partial_valid_partial_invalid_utf8(bytes@, i as int);
                }
                return false;
            }
            let cp: u32 = (((b0 & 0x07) as u32) << 18u32) | (((b1 & 0x3f) as u32) << 12u32) | (((b2
                & 0x3f) as u32) << 6u32) | ((b3 & 0x3f) as u32);
            proof {
                assert(decode_first_codepoint(suffix) == codepoint_width_4(
                    suffix[0],
                    suffix[1],
                    suffix[2],
                    suffix[3],
                ));
                assert(codepoint_width_4(suffix[0], suffix[1], suffix[2], suffix[3]) == cp);
            }
            if cp < 0x10000 || cp > 0x10ffff {
                proof {
                    assert(!not_overlong_encoding(decode_first_codepoint(suffix), 4));
                    assert(!valid_first_scalar(suffix));
                    assert(!valid_utf8(suffix));
                    partial_valid_partial_invalid_utf8(bytes@, i as int);
                }
                return false;
            }
            proof {
                assert(valid_first_scalar(suffix));
                assert(length_of_first_scalar(suffix) == 4);
                partial_valid_utf8_extend(bytes@, i as int);
            }
            i += 4;
        } else {
            proof {
                assert(!valid_first_scalar(suffix));
                assert(!valid_utf8(suffix));
                partial_valid_partial_invalid_utf8(bytes@, i as int);
            }
            return false;
        }
    }
    proof {
        assert(bytes@.subrange(0, n as int) =~= bytes@);
    }
    true
}

/// Relies on `core::str::from_utf8`: on bytes that are a valid UTF-8
/// encoding it returns the text whose characters are the decoded scalars,
/// in order. The precondition makes the error branch unreachable.
#[verifier::external_body]
fn decoded_text(bytes: &[u8]) -> (r: String)
    requires
        valid_utf8(bytes@),
    ensures
        r@ == decode_utf8(bytes@),
{
    match core::str::from_utf8(bytes) {
        Ok(s) => s.to_string(),
        Err(_) => String::new(),
    }
}

/// Decodes one chunk of session output as UTF-8 text: the decoded text
/// exactly when the bytes are a valid encoding, the encoding error
/// otherwise. A chunk with any invalid sequence is refused whole.
pub fn decode_chunk(bytes: &[u8]) -> (r: Result<String, SessionError>)
    ensures
        r is Ok <==> valid_utf8(bytes@),
        r is Ok ==> r->Ok_0@ == decode_utf8(bytes@),
        r is Err ==> r->Err_0 is EncodingError,
{
    if utf8_valid(bytes) {
        Ok(decoded_text(bytes))
    } else {
        Err(SessionError::EncodingError)
    }
}

/// Encoding a concatenation of two texts encodes each in place.
pub proof fn lemma_encode_utf8_concat(a: Seq<char>, b: Seq<char>)
    ensures
        encode_utf8(a + b) == encode_utf8(a) + encode_utf8(b),
    decreases a.len(),
{
    if a.len() == 0 {
        assert(a + b =~= b);
        assert(encode_utf8(a) + encode_utf8(b) =~= encode_utf8(b));
    } else {
        assert((a + b).len() > 0);
        assert((a + b)[0] == a[0]);
        assert((a + b).drop_first() =~= a.drop_first() + b);
        lemma_encode_utf8_concat(a.drop_first(), b);
        assert(encode_utf8(a + b) =~= encode_utf8(a) + encode_utf8(b));
    }
}

/// Two valid chunks decode independently: the decoded text of their
/// concatenation is the concatenation of their decoded texts.
pub proof fn lemma_decode_utf8_concat(b1: Seq<u8>, b2: Seq<u8>)
    requires
        valid_utf8(b1),
        valid_utf8(b2),
    ensures
        valid_utf8(b1 + b2),
        decode_utf8(b1 + b2) == decode_utf8(b1) + decode_utf8(b2),
{
    valid_utf8_concat(b1, b2);
    decode_utf8_encode_utf8(b1);
    decode_utf8_encode_utf8(b2);
    let joined = decode_utf8(b1) + decode_utf8(b2);
    lemma_encode_utf8_concat(decode_utf8(b1), decode_utf8(b2));
    assert(encode_utf8(joined) == b1 + b2);
    encode_utf8_decode_utf8(joined);
}

} // verus!
