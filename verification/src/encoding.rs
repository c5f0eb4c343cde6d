//! The text encoding of `desktop.ini` files: the system's ANSI code page.
use vstd::prelude::*;
use vstd::utf8::{decode_utf8, encode_utf8, is_ascii_chars, valid_utf8};
use encoding_rs::Encoding;

verus! {

/// The encodings that a Windows ANSI code page can select.
#[derive(Clone, Copy, Debug, PartialEq, Eq, Structural)]
pub enum SystemEncoding {
    Gbk,
    Big5,
    ShiftJis,
    Windows1250,
    Windows1251,
    Windows1252,
    Windows1253,
    Windows1254,
    Windows1255,
    Windows1256,
    Windows1257,
    Windows1258,
    Utf8,
}

/// The encoding that the ANSI code page `code_page` selects; UTF-8 for 65001
/// and for every code page that is not listed.
pub open spec fn spec_current_encoding(code_page: u32) -> SystemEncoding {
    if code_page == 936 {
        SystemEncoding::Gbk
    } else if code_page == 950 {
        SystemEncoding::Big5
    } else if code_page == 932 {
        SystemEncoding::ShiftJis
    } else if code_page == 1250 {
        SystemEncoding::Windows1250
    } else if code_page == 1251 {
        SystemEncoding::Windows1251
    } else if code_page == 1252 {
        SystemEncoding::Windows1252
    } else if code_page == 1253 {
        SystemEncoding::Windows1253
    } else if code_page == 1254 {
        SystemEncoding::Windows1254
    } else if code_page == 1255 {
        SystemEncoding::Windows1255
    } else if code_page == 1256 {
        SystemEncoding::Windows1256
    } else if code_page == 1257 {
        SystemEncoding::Windows1257
    } else if code_page == 1258 {
        SystemEncoding::Windows1258
    } else {
        SystemEncoding::Utf8
    }
}

/// The number of the Windows code page that is the encoding `e` (65001 for UTF-8).
pub open spec fn windows_code_page(e: SystemEncoding) -> u32 {
    match e {
        SystemEncoding::Gbk => 936,
        SystemEncoding::Big5 => 950,
        SystemEncoding::ShiftJis => 932,
        SystemEncoding::Windows1250 => 1250,
        SystemEncoding::Windows1251 => 1251,
        SystemEncoding::Windows1252 => 1252,
        SystemEncoding::Windows1253 => 1253,
        SystemEncoding::Windows1254 => 1254,
        SystemEncoding::Windows1255 => 1255,
        SystemEncoding::Windows1256 => 1256,
        SystemEncoding::Windows1257 => 1257,
        SystemEncoding::Windows1258 => 1258,
        SystemEncoding::Utf8 => 65001,
    }
}

/// A code page selects the encoding that is that very code page, where one
/// is; UTF-8 otherwise.
pub proof fn lemma_code_page_selects_itself(code_page: u32)
    ensures
        forall|e: SystemEncoding| windows_code_page(e) == code_page ==> spec_current_encoding(code_page) == e,
        (forall|e: SystemEncoding| windows_code_page(e) != code_page) ==> spec_current_encoding(code_page)
            == SystemEncoding::Utf8,
        windows_code_page(spec_current_encoding(code_page)) == code_page || spec_current_encoding(code_page)
            == SystemEncoding::Utf8,
{
    if code_page == 65001 {
        assert(windows_code_page(SystemEncoding::Utf8) == code_page);
    }
    let e0 = spec_current_encoding(code_page);
    if e0 != SystemEncoding::Utf8 {
        assert(windows_code_page(e0) == code_page);
    }
}

/// The encoding that the ANSI code page `code_page` selects.
pub fn current_encoding(code_page: u32) -> (enc: SystemEncoding)
    ensures
        enc == spec_current_encoding(code_page),
        forall|e: SystemEncoding| windows_code_page(e) == code_page ==> enc == e,
        windows_code_page(enc) == code_page || enc == SystemEncoding::Utf8,
{
    proof {
        lemma_code_page_selects_itself(code_page);
    }
    match code_page {
        936 => SystemEncoding::Gbk,
        950 => SystemEncoding::Big5,
        932 => SystemEncoding::ShiftJis,
        1250 => SystemEncoding::Windows1250,
        1251 => SystemEncoding::Windows1251,
        1252 => SystemEncoding::Windows1252,
        1253 => SystemEncoding::Windows1253,
        1254 => SystemEncoding::Windows1254,
        1255 => SystemEncoding::Windows1255,
        1256 => SystemEncoding::Windows1256,
        1257 => SystemEncoding::Windows1257,
        1258 => SystemEncoding::Windows1258,
        _ => SystemEncoding::Utf8,
    }
}

/// Whether every byte of `b` is ASCII.
pub open spec fn ascii_bytes(b: Seq<u8>) -> bool {
    forall|i: int| 0 <= i < b.len() ==> #[trigger] b[i] < 0x80
}

/// Whether `b` starts with the UTF-8 byte order mark.
pub open spec fn starts_with_utf8_bom(b: Seq<u8>) -> bool {
    b.len() >= 3 && b[0] == 0xEF && b[1] == 0xBB && b[2] == 0xBF
}

#[verifier::external_type_specification]
#[verifier::external_body]
pub struct ExEncoding(Encoding);

/// The `encoding_rs` encoding of the same name.
#[verifier::external_body]
fn to_encoding(enc: SystemEncoding) -> &'static Encoding {
    match enc {
        SystemEncoding::Gbk => encoding_rs::GBK,
        SystemEncoding::Big5 => encoding_rs::BIG5,
        SystemEncoding::ShiftJis => encoding_rs::SHIFT_JIS,
        SystemEncoding::Windows1250 => encoding_rs::WINDOWS_1250,
        SystemEncoding::Windows1251 => encoding_rs::WINDOWS_1251,
        SystemEncoding::Windows1252 => encoding_rs::WINDOWS_1252,
        SystemEncoding::Windows1253 => encoding_rs::WINDOWS_1253,
        SystemEncoding::Windows1254 => encoding_rs::WINDOWS_1254,
        SystemEncoding::Windows1255 => encoding_rs::WINDOWS_1255,
        SystemEncoding::Windows1256 => encoding_rs::WINDOWS_1256,
        SystemEncoding::Windows1257 => encoding_rs::WINDOWS_1257,
        SystemEncoding::Windows1258 => encoding_rs::WINDOWS_1258,
        SystemEncoding::Utf8 => encoding_rs::UTF_8,
    }
}

/// What `Encoding::decode` of `encoding_rs` gives for `bytes` in `enc`.
pub uninterp spec fn decoded(enc: SystemEncoding, bytes: Seq<u8>) -> Seq<char>;

/// What `Encoding::encode` of `encoding_rs` gives for `text` in `enc`.
pub uninterp spec fn encoded(enc: SystemEncoding, text: Seq<char>) -> Seq<u8>;

/// Decodes `bytes` with `Encoding::decode` of `encoding_rs` (byte order marks
/// are sniffed; malformed sequences become U+FFFD). Claimed of it: the result is
/// a function of the encoding and the bytes; bytes that are all ASCII decode to
/// the same characters in each of these encodings, which all agree with ASCII;
/// in UTF-8, valid bytes that do not start with a byte order mark decode as
/// UTF-8. Not claimed: what other bytes decode to.
#[verifier::external_body]
fn decode_with(enc: SystemEncoding, bytes: &[u8]) -> (text: String)
    ensures
        text@ == decoded(enc, bytes@),
        ascii_bytes(bytes@) ==> text@ == decode_utf8(bytes@),
        enc == SystemEncoding::Utf8 && valid_utf8(bytes@) && !starts_with_utf8_bom(bytes@)
            ==> text@ == decode_utf8(bytes@),
{
    to_encoding(enc).decode(bytes).0.into_owned()
}

/// Encodes `text` with `Encoding::encode` of `encoding_rs` (characters that the
/// encoding lacks become numeric character references). Claimed of it: the
/// result is a function of the encoding and the text; in UTF-8 it is the UTF-8
/// form of the text, and so it is for ASCII text in each of these encodings.
/// Not claimed: what other text encodes to.
#[verifier::external_body]
fn encode_with(enc: SystemEncoding, text: &str) -> (bytes: Vec<u8>)
    ensures
        bytes@ == encoded(enc, text@),
        enc == SystemEncoding::Utf8 ==> bytes@ == encode_utf8(text@),
        is_ascii_chars(text@) ==> bytes@ == encode_utf8(text@),
{
    to_encoding(enc).encode(text).0.into_owned()
}

/// Decodes the bytes of a file written in the ANSI code page `code_page`.
pub fn decode_system(code_page: u32, bytes: &[u8]) -> (text: String)
    ensures
        text@ == decoded(spec_current_encoding(code_page), bytes@),
        ascii_bytes(bytes@) ==> text@ == decode_utf8(bytes@),
        spec_current_encoding(code_page) == SystemEncoding::Utf8 && valid_utf8(bytes@)
            && !starts_with_utf8_bom(bytes@) ==> text@ == decode_utf8(bytes@),
{
    decode_with(current_encoding(code_page), bytes)
}

/// Encodes text for a file written in the ANSI code page `code_page`.
pub fn encode_system(code_page: u32, text: &str) -> (bytes: Vec<u8>)
    ensures
        bytes@ == encoded(spec_current_encoding(code_page), text@),
        spec_current_encoding(code_page) == SystemEncoding::Utf8 ==> bytes@ == encode_utf8(text@),
        is_ascii_chars(text@) ==> bytes@ == encode_utf8(text@),
{
    encode_with(current_encoding(code_page), text)
}

} // verus!
