//! Turning raw log bytes into text: byte-order marks, UTF-8, and the legacy
//! encodings the viewer falls back to (GBK, Shift_JIS, EUC-KR).

use vstd::prelude::*;
use vstd::utf8::{
    decode_utf8, encode_scalar, encode_utf8, has_width_1_encoding, has_width_2_encoding,
    has_width_3_encoding, valid_first_scalar, valid_utf8,
};

verus! {

/// Inputs longer than this could overflow the output-size computation of the
/// legacy decoders (they panic then); every real file is far shorter.
pub open spec fn decodable_len(n: int) -> bool {
    n <= usize::MAX / 16
}

/// `std::str::from_utf8`: succeeds exactly on valid UTF-8, and then the text
/// is the UTF-8 decoding of the bytes.
#[verifier::external_body]
fn utf8_text(data: &[u8]) -> (r: Option<&str>)
    ensures
        r is Some <==> valid_utf8(data@),
        r matches Some(s) ==> s@ == decode_utf8(data@),
{
    std::str::from_utf8(data).ok()
}

/// What `String::from_utf8_lossy` returns for the given bytes.
pub uninterp spec fn utf8_lossy_text(data: Seq<u8>) -> Seq<char>;

/// `String::from_utf8_lossy`: invalid sequences become U+FFFD; valid UTF-8
/// is returned unchanged (as its documentation says).
#[verifier::external_body]
fn utf8_lossy(data: &[u8]) -> (r: String)
    ensures
        r@ == utf8_lossy_text(data@),
        valid_utf8(data@) ==> r@ == decode_utf8(data@),
{
    String::from_utf8_lossy(data).to_string()
}

/// What `encoding_rs::UTF_16LE.decode` returns: the text and whether
/// malformed sequences were replaced.
pub uninterp spec fn utf16le_decoding(data: Seq<u8>) -> (Seq<char>, bool);

/// What `encoding_rs::UTF_16BE.decode` returns.
pub uninterp spec fn utf16be_decoding(data: Seq<u8>) -> (Seq<char>, bool);

/// What `encoding_rs::GBK.decode` returns.
pub uninterp spec fn gbk_decoding(data: Seq<u8>) -> (Seq<char>, bool);

/// What `encoding_rs::SHIFT_JIS.decode` returns.
pub uninterp spec fn shift_jis_decoding(data: Seq<u8>) -> (Seq<char>, bool);

/// What `encoding_rs::EUC_KR.decode` returns.
pub uninterp spec fn euc_kr_decoding(data: Seq<u8>) -> (Seq<char>, bool);

/// The `k`-th UTF-16 code unit of `data`, little-endian or big-endian.
pub open spec fn utf16_unit(data: Seq<u8>, k: int, little: bool) -> int {
    if little {
        data[2 * k] + 256 * data[2 * k + 1]
    } else {
        256 * data[2 * k] + data[2 * k + 1]
    }
}

/// Whether `data` is whole UTF-16 code units, none of them a surrogate, after
/// its first unit (the byte-order mark).
pub open spec fn bmp_units(data: Seq<u8>, little: bool) -> bool {
    &&& data.len() >= 2
    &&& data.len() % 2 == 0
    &&& forall|k: int|
        1 <= k < data.len() / 2 ==> !(0xD800 <= #[trigger] utf16_unit(data, k, little) <= 0xDFFF)
}

/// The characters of the code units after the byte-order mark, one each.
pub open spec fn bmp_text(data: Seq<u8>, little: bool) -> Seq<char> {
    Seq::new((data.len() / 2 - 1) as nat, |k: int| utf16_unit(data, k + 1, little) as char)
}

/// `encoding_rs::UTF_16LE.decode` (with BOM sniffing): decoded text and the
/// had-errors flag, a function of the bytes alone. After the UTF-16LE
/// byte-order mark (which its documentation says is dropped), whole code
/// units none of which is a surrogate each decode to the character they
/// encode, without errors.
#[verifier::external_body]
fn decode_utf16le(data: &[u8]) -> (r: (String, bool))
    requires
        decodable_len(data@.len() as int),
    ensures
        (r.0@, r.1) == utf16le_decoding(data@),
        data@.len() >= 2 && data@[0] == 0xFFu8 && data@[1] == 0xFEu8 && bmp_units(data@, true)
            ==> r.0@ == bmp_text(data@, true) && !r.1,
{
    let (text, _, had_errors) = encoding_rs::UTF_16LE.decode(data);
    (text.into_owned(), had_errors)
}

/// `encoding_rs::UTF_16BE.decode` (with BOM sniffing); after the UTF-16BE
/// byte-order mark, code units that are not surrogates decode as for
/// `decode_utf16le`.
#[verifier::external_body]
fn decode_utf16be(data: &[u8]) -> (r: (String, bool))
    requires
        decodable_len(data@.len() as int),
    ensures
        (r.0@, r.1) == utf16be_decoding(data@),
        data@.len() >= 2 && data@[0] == 0xFEu8 && data@[1] == 0xFFu8 && bmp_units(data@, false)
            ==> r.0@ == bmp_text(data@, false) && !r.1,
{
    let (text, _, had_errors) = encoding_rs::UTF_16BE.decode(data);
    (text.into_owned(), had_errors)
}

/// `encoding_rs::GBK.decode` (with BOM sniffing).
#[verifier::external_body]
fn decode_gbk(data: &[u8]) -> (r: (String, bool))
    requires
        decodable_len(data@.len() as int),
    ensures
        (r.0@, r.1) == gbk_decoding(data@),
{
    let (text, _, had_errors) = encoding_rs::GBK.decode(data);
    (text.into_owned(), had_errors)
}

/// `encoding_rs::SHIFT_JIS.decode` (with BOM sniffing).
#[verifier::external_body]
fn decode_shift_jis(data: &[u8]) -> (r: (String, bool))
    requires
        decodable_len(data@.len() as int),
    ensures
        (r.0@, r.1) == shift_jis_decoding(data@),
{
    let (text, _, had_errors) = encoding_rs::SHIFT_JIS.decode(data);
    (text.into_owned(), had_errors)
}

/// `encoding_rs::EUC_KR.decode` (with BOM sniffing).
#[verifier::external_body]
fn decode_euc_kr(data: &[u8]) -> (r: (String, bool))
    requires
        decodable_len(data@.len() as int),
    ensures
        (r.0@, r.1) == euc_kr_decoding(data@),
{
    let (text, _, had_errors) = encoding_rs::EUC_KR.decode(data);
    (text.into_owned(), had_errors)
}

/// The text the viewer shows for a run of bytes: a UTF-8 BOM is dropped and
/// the rest decoded leniently; a UTF-16 BOM selects UTF-16 (code units that
/// are not surrogates give one character each); otherwise valid
/// UTF-8 is taken as is, else the first of GBK, Shift_JIS, EUC-KR that
/// decodes without errors, else GBK with replacements.
pub open spec fn decoded_text(data: Seq<u8>) -> Seq<char> {
    if data.len() == 0 {
        Seq::empty()
    } else if data.len() >= 3 && data[0] == 0xEFu8 && data[1] == 0xBBu8 && data[2] == 0xBFu8 {
        let rest = data.subrange(3, data.len() as int);
        if valid_utf8(rest) {
            decode_utf8(rest)
        } else {
            utf8_lossy_text(rest)
        }
    } else if data.len() >= 2 && data[0] == 0xFFu8 && data[1] == 0xFEu8 {
        if bmp_units(data, true) {
            bmp_text(data, true)
        } else {
            utf16le_decoding(data).0
        }
    } else if data.len() >= 2 && data[0] == 0xFEu8 && data[1] == 0xFFu8 {
        if bmp_units(data, false) {
            bmp_text(data, false)
        } else {
            utf16be_decoding(data).0
        }
    } else if valid_utf8(data) {
        decode_utf8(data)
    } else if !gbk_decoding(data).1 {
        gbk_decoding(data).0
    } else if !shift_jis_decoding(data).1 {
        shift_jis_decoding(data).0
    } else if !euc_kr_decoding(data).1 {
        euc_kr_decoding(data).0
    } else {
        gbk_decoding(data).0
    }
}

/// Whether `data` starts with the UTF-8 byte-order mark.
pub open spec fn starts_with_utf8_bom(data: Seq<u8>) -> bool {
    data.len() >= 3 && data[0] == 0xEFu8 && data[1] == 0xBBu8 && data[2] == 0xBFu8
}

/// Whether `data` starts with a UTF-16 byte-order mark (either order).
pub open spec fn starts_with_utf16_bom(data: Seq<u8>) -> bool {
    data.len() >= 2 && ((data[0] == 0xFFu8 && data[1] == 0xFEu8) || (data[0] == 0xFEu8 && data[1]
        == 0xFFu8))
}

/// Bytes without a byte-order mark that are not UTF-8 fall back to the
/// legacy encodings in a fixed order: GBK when it decodes them without
/// errors, else Shift_JIS when it does, else EUC-KR when it does, else GBK
/// with replacement characters.
pub proof fn law_legacy_fallback_order(data: Seq<u8>)
    requires
        !starts_with_utf8_bom(data),
        !starts_with_utf16_bom(data),
        !valid_utf8(data),
    ensures
        !gbk_decoding(data).1 ==> decoded_text(data) == gbk_decoding(data).0,
        gbk_decoding(data).1 && !shift_jis_decoding(data).1 ==> decoded_text(data)
            == shift_jis_decoding(data).0,
        gbk_decoding(data).1 && shift_jis_decoding(data).1 && !euc_kr_decoding(data).1
            ==> decoded_text(data) == euc_kr_decoding(data).0,
        gbk_decoding(data).1 && shift_jis_decoding(data).1 && euc_kr_decoding(data).1
            ==> decoded_text(data) == gbk_decoding(data).0,
{
    assert(data.len() > 0) by {
        if data.len() == 0 {
            assert(valid_utf8(data)) by {
                assert(data =~= encode_utf8(Seq::<char>::empty()));
                vstd::utf8::encode_utf8_valid_utf8(Seq::<char>::empty());
            }
        }
    }
}

/// Valid UTF-8 that does not start with a byte-order mark decodes to the
/// text it encodes.
pub proof fn law_utf8_decodes_to_itself(data: Seq<u8>)
    requires
        valid_utf8(data),
        !starts_with_utf8_bom(data),
    ensures
        decoded_text(data) == decode_utf8(data),
{
    if data.len() > 0 {
        assert(valid_first_scalar(data));
        assert(data[0] <= 0xf7u8);
    }
}

/// Text that does not start with U+FEFF, written as UTF-8, decodes back to
/// itself.
pub proof fn law_text_round_trip(s: Seq<char>)
    requires
        s.len() == 0 || s[0] != '\u{FEFF}',
    ensures
        decoded_text(encode_utf8(s)) == s,
{
    broadcast use vstd::utf8::encode_utf8_valid_utf8, vstd::utf8::encode_utf8_decode_utf8;

    let d = encode_utf8(s);
    if s.len() > 0 {
        let v = s[0] as u32;
        assert(d == encode_scalar(v) + encode_utf8(s.drop_first()));
        vstd::utf8::char_is_scalar(s[0]);
        if starts_with_utf8_bom(d) {
            let e = encode_scalar(v);
            assert(d[0] == e[0]);
            if has_width_1_encoding(v) {
                assert((v & 0x7F) as u8 != 0xEFu8) by (bit_vector)
                    requires
                        v <= 0x7F,
                ;
            } else if has_width_2_encoding(v) {
                assert((0xC0u8 | ((v >> 6) & 0x1F) as u8) != 0xEFu8) by (bit_vector);
            } else if has_width_3_encoding(v) {
                assert(d[1] == e[1] && d[2] == e[2]);
                assert(v == 0xFEFFu32) by (bit_vector)
                    requires
                        v <= 0xFFFF,
                        (0xE0u8 | ((v >> 12) & 0x0F) as u8) == 0xEFu8,
                        (0x80u8 | ((v >> 6) & 0x3F) as u8) == 0xBBu8,
                        (0x80u8 | (v & 0x3F) as u8) == 0xBFu8,
                ;
                vstd::utf8::char_u32_cast(s[0], v);
                vstd::utf8::char_u32_cast('\u{FEFF}', 0xFEFFu32);
                assert(s[0] == '\u{FEFF}');
            } else {
                assert((0xF0u8 | ((v >> 18) & 0x7) as u8) != 0xEFu8) by (bit_vector);
            }
        }
    }
    law_utf8_decodes_to_itself(d);
}

/// Detect the encoding of `data` and convert it to text (see `decoded_text`).
pub fn bytes_to_string(data: &[u8]) -> (s: String)
    requires
        decodable_len(data@.len() as int),
    ensures
        s@ == decoded_text(data@),
{
    if data.len() == 0 {
        return String::new();
    }
    if data.len() >= 3 && data[0] == 0xEF && data[1] == 0xBB && data[2] == 0xBF {
        return utf8_lossy(&data[3..data.len()]);
    }
    if data.len() >= 2 {
        if data[0] == 0xFF && data[1] == 0xFE {
            return decode_utf16le(data).0;
        }
        if data[0] == 0xFE && data[1] == 0xFF {
            return decode_utf16be(data).0;
        }
    }
    if let Some(s) = utf8_text(data) {
        return s.to_owned();
    }
    let (text, had_errors) = decode_gbk(data);
    if !had_errors {
        return text;
    }
    let (text, had_errors) = decode_shift_jis(data);
    if !had_errors {
        return text;
    }
    let (text, had_errors) = decode_euc_kr(data);
    if !had_errors {
        return text;
    }
    decode_gbk(data).0
}

/// Decode a single line from bytes, handling the supported encodings.
pub fn decode_line(bytes: &[u8]) -> (s: String)
    requires
        decodable_len(bytes@.len() as int),
    ensures
        s@ == decoded_text(bytes@),
{
    bytes_to_string(bytes)
}

} // verus!
