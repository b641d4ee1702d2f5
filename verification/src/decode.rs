//! Turning the bytes of a config file into text: a UTF-16 byte order mark selects
//! UTF-16, otherwise UTF-8 (after an optional UTF-8 byte order mark), and when the bytes
//! are not UTF-8 they are read as GB18030, which Windows exports of Spine and Cocos
//! configs often use.
use vstd::prelude::*;
use vstd::utf8::{decode_utf8, encode_utf8, valid_utf8};

verus! {

/// Why config bytes could not be turned into text.
#[derive(Clone, Copy, Debug, PartialEq, Eq, Structural)]
pub enum DecodeError {
    /// UTF-16 text (after its byte order mark) with an odd number of bytes.
    OddUtf16Length { little_endian: bool },
    /// UTF-16 text holding an unpaired surrogate.
    InvalidUtf16 { little_endian: bool },
}

/// What `encoding_rs::GB18030.decode` makes of some bytes: the text, with malformed
/// sequences replaced by U+FFFD (and a leading byte order mark obeyed).
pub uninterp spec fn gb18030_decoded(bytes: Seq<u8>) -> Seq<char>;

/// Calls `encoding_rs::GB18030.decode`. Claimed: the text returned is
/// `gb18030_decoded(bytes@)`, a function of the bytes alone. The decoder panics only
/// when its output buffer size overflows, which the length bound rules out.
#[verifier::external_body]
fn decode_gb18030(bytes: &[u8]) -> (r: String)
    requires
        bytes.len() <= usize::MAX / 8,
    ensures
        r@ == gb18030_decoded(bytes@),
{
    let (decoded, _, _) = encoding_rs::GB18030.decode(bytes);
    decoded.into_owned()
}

/// Calls `std::str::from_utf8`. Claimed, as std documents it: the bytes are accepted
/// exactly when they are well-formed UTF-8, and then the text is what they encode.
#[verifier::external_body]
fn utf8_text(bytes: &[u8]) -> (r: Option<&str>)
    ensures
        r is Some <==> valid_utf8(bytes@),
        r matches Some(s) ==> s@ == decode_utf8(bytes@),
{
    std::str::from_utf8(bytes).ok()
}

/// The text that UTF-16 code units encode, or `None` when a surrogate is unpaired.
pub open spec fn utf16_decode(u: Seq<u16>) -> Option<Seq<char>>
    decreases u.len(),
{
    if u.len() == 0 {
        Some(seq![])
    } else if u[0] < 0xD800 || u[0] > 0xDFFF {
        match utf16_decode(u.drop_first()) {
            Some(r) => Some(seq![(u[0] as u32) as char] + r),
            None => None,
        }
    } else if u[0] <= 0xDBFF && u.len() >= 2 && 0xDC00 <= u[1] <= 0xDFFF {
        let cp = 0x10000 + (u[0] - 0xD800) * 0x400 + (u[1] - 0xDC00);
        match utf16_decode(u.skip(2)) {
            Some(r) => Some(seq![(cp as u32) as char] + r),
            None => None,
        }
    } else {
        None
    }
}

/// Calls `String::from_utf16`. Claimed, as std documents it: UTF-16 decoding, failing
/// exactly when the units hold invalid data (an unpaired surrogate).
#[verifier::external_body]
fn string_from_utf16(units: &[u16]) -> (r: Option<String>)
    ensures
        match r {
            Some(s) => utf16_decode(units@) == Some(s@),
            None => utf16_decode(units@) is None,
        },
{
    String::from_utf16(units).ok()
}

/// The 16-bit code units of UTF-16 bytes, two bytes each, in the given byte order.
pub open spec fn utf16_units(bytes: Seq<u8>, little_endian: bool) -> Seq<u16> {
    Seq::new(
        bytes.len() / 2,
        |i: int|
            if little_endian {
                (bytes[2 * i] + bytes[2 * i + 1] * 256) as u16
            } else {
                (bytes[2 * i] * 256 + bytes[2 * i + 1]) as u16
            },
    )
}

/// The text of UTF-16 bytes (after the byte order mark), or why there is none.
pub open spec fn utf16_text(bytes: Seq<u8>, little_endian: bool) -> Result<Seq<char>, DecodeError> {
    if bytes.len() % 2 != 0 {
        Err(DecodeError::OddUtf16Length { little_endian })
    } else {
        match utf16_decode(utf16_units(bytes, little_endian)) {
            Some(t) => Ok(t),
            None => Err(DecodeError::InvalidUtf16 { little_endian }),
        }
    }
}

fn decode_utf16(bytes: &[u8], little_endian: bool) -> (r: Result<String, DecodeError>)
    ensures
        match r {
            Ok(s) => utf16_text(bytes@, little_endian) == Ok::<Seq<char>, DecodeError>(s@),
            Err(e) => utf16_text(bytes@, little_endian) == Err::<Seq<char>, DecodeError>(e),
        },
{
    if bytes.len() % 2 != 0 {
        return Err(DecodeError::OddUtf16Length { little_endian });
    }
    let mut units: Vec<u16> = Vec::new();
    let mut i: usize = 0;
    let n = bytes.len() / 2;
    while i < n
        invariant
            n == bytes.len() / 2,
            i <= n,
            units@ =~= utf16_units(bytes@, little_endian).take(i as int),
        decreases n - i,
    {
        let a = bytes[2 * i] as u16;
        let b = bytes[2 * i + 1] as u16;
        let unit: u16 = if little_endian { a + b * 256 } else { a * 256 + b };
        units.push(unit);
        i = i + 1;
    }
    assert(utf16_units(bytes@, little_endian).take(n as int) =~= utf16_units(
        bytes@,
        little_endian,
    ));
    match string_from_utf16(units.as_slice()) {
        Some(s) => Ok(s),
        None => Err(DecodeError::InvalidUtf16 { little_endian }),
    }
}

/// Decodes the bytes that follow a UTF-16 LE byte order mark.
pub fn decode_utf16_le(bytes: &[u8]) -> (r: Result<String, DecodeError>)
    ensures
        match r {
            Ok(s) => utf16_text(bytes@, true) == Ok::<Seq<char>, DecodeError>(s@),
            Err(e) => utf16_text(bytes@, true) == Err::<Seq<char>, DecodeError>(e),
        },
{
    decode_utf16(bytes, true)
}

/// Decodes the bytes that follow a UTF-16 BE byte order mark.
pub fn decode_utf16_be(bytes: &[u8]) -> (r: Result<String, DecodeError>)
    ensures
        match r {
            Ok(s) => utf16_text(bytes@, false) == Ok::<Seq<char>, DecodeError>(s@),
            Err(e) => utf16_text(bytes@, false) == Err::<Seq<char>, DecodeError>(e),
        },
{
    decode_utf16(bytes, false)
}

/// `b` begins with the bytes `p`.
pub open spec fn bytes_start_with(b: Seq<u8>, p: Seq<u8>) -> bool {
    p.len() <= b.len() && b.take(p.len() as int) =~= p
}

/// The text of a config file's bytes, or why there is none.
pub open spec fn config_text(b: Seq<u8>) -> Result<Seq<char>, DecodeError> {
    if bytes_start_with(b, seq![0xFFu8, 0xFEu8]) {
        utf16_text(b.skip(2), true)
    } else if bytes_start_with(b, seq![0xFEu8, 0xFFu8]) {
        utf16_text(b.skip(2), false)
    } else {
        let c = if bytes_start_with(b, seq![0xEFu8, 0xBBu8, 0xBFu8]) {
            b.skip(3)
        } else {
            b
        };
        if valid_utf8(c) {
            Ok(decode_utf8(c))
        } else {
            Ok(gb18030_decoded(c))
        }
    }
}

/// Turns the bytes of an atlas or plist file into text.
pub fn decode_config_bytes(bytes: &[u8]) -> (r: Result<String, DecodeError>)
    requires
        bytes.len() <= usize::MAX / 8,
    ensures
        match r {
            Ok(s) => config_text(bytes@) == Ok::<Seq<char>, DecodeError>(s@),
            Err(e) => config_text(bytes@) == Err::<Seq<char>, DecodeError>(e),
        },
{
    let n = bytes.len();
    let le = n >= 2 && bytes[0] == 0xFF && bytes[1] == 0xFE;
    assert(le == bytes_start_with(bytes@, seq![0xFFu8, 0xFEu8])) by {
        if n >= 2 {
            assert(bytes@.take(2)[0] == bytes@[0] && bytes@.take(2)[1] == bytes@[1]);
        }
    }
    if le {
        return decode_utf16_le(vstd::slice::slice_subrange(bytes, 2, n));
    }
    let be = n >= 2 && bytes[0] == 0xFE && bytes[1] == 0xFF;
    assert(be == bytes_start_with(bytes@, seq![0xFEu8, 0xFFu8])) by {
        if n >= 2 {
            assert(bytes@.take(2)[0] == bytes@[0] && bytes@.take(2)[1] == bytes@[1]);
        }
    }
    if be {
        return decode_utf16_be(vstd::slice::slice_subrange(bytes, 2, n));
    }
    let bom = n >= 3 && bytes[0] == 0xEF && bytes[1] == 0xBB && bytes[2] == 0xBF;
    assert(bom == bytes_start_with(bytes@, seq![0xEFu8, 0xBBu8, 0xBFu8])) by {
        if n >= 3 {
            assert(bytes@.take(3)[0] == bytes@[0] && bytes@.take(3)[1] == bytes@[1]
                && bytes@.take(3)[2] == bytes@[2]);
        }
    }
    let body = if bom {
        vstd::slice::slice_subrange(bytes, 3, n)
    } else {
        vstd::slice::slice_subrange(bytes, 0, n)
    };
    assert(bytes@.subrange(0, n as int) =~= bytes@);
    match utf8_text(body) {
        Some(t) => Ok(t.to_owned()),
        None => Ok(decode_gb18030(body)),
    }
}

/// UTF-8 text reads back as it was written: with a byte order mark in front, always; without
/// one, whenever the text does not itself begin with U+FEFF (which would be taken for the
/// mark).
pub proof fn law_utf8_text_reads_back(t: Seq<char>)
    ensures
        config_text(seq![0xEFu8, 0xBBu8, 0xBFu8] + encode_utf8(t)) == Ok::<Seq<char>, DecodeError>(t),
        t.len() == 0 || t[0] != '\u{FEFF}' ==> config_text(encode_utf8(t)) == Ok::<
            Seq<char>,
            DecodeError,
        >(t),
{
    let e = encode_utf8(t);
    vstd::utf8::encode_utf8_valid_utf8(t);
    vstd::utf8::encode_utf8_decode_utf8(t);
    let bom: Seq<u8> = seq![0xEFu8, 0xBBu8, 0xBFu8];
    let b = bom + e;
    assert(b.take(2) =~= seq![0xEFu8, 0xBBu8]);
    assert(b.take(3) =~= bom);
    assert(b.skip(3) =~= e);
    if t.len() == 0 {
        assert(e =~= Seq::<u8>::empty());
    } else {
        vstd::utf8::encode_utf8_first_scalar(t);
        let b0 = e[0];
        assert(b0 <= 0xf7u8);
        if bytes_start_with(e, bom) {
            assert(e[0] == 0xEFu8 && e[1] == 0xBBu8 && e[2] == 0xBFu8) by {
                assert(e.take(3)[0] == e[0] && e.take(3)[1] == e[1] && e.take(3)[2] == e[2]);
            }
            let c = vstd::utf8::codepoint_width_3(0xEFu8, 0xBBu8, 0xBFu8);
            assert(c == 0xFEFFu32) by (bit_vector)
                requires
                    c == vstd::utf8::codepoint_width_3(0xEFu8, 0xBBu8, 0xBFu8),
            ;
            assert(t[0] as u32 == 0xFEFFu32);
        }
        if bytes_start_with(e, seq![0xFFu8, 0xFEu8]) {
            assert(e.take(2)[0] == e[0]);
        }
        if bytes_start_with(e, seq![0xFEu8, 0xFFu8]) {
            assert(e.take(2)[0] == e[0]);
        }
    }
}

} // verus!
