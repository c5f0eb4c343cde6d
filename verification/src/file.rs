//! The bytes of a `desktop.ini` file: its text in the system's ANSI code page.
use vstd::prelude::*;
use vstd::utf8::{decode_utf8, encode_utf8, encode_utf8_decode_utf8, encode_utf8_valid_utf8, valid_utf8};
use crate::encoding::{
    ascii_bytes, decode_system, decoded, encode_system, encoded, spec_current_encoding,
    starts_with_utf8_bom, SystemEncoding,
};
use crate::format::{render, render_section, section_order, spec_parse_text};
use crate::ini::{model_wf, spec_get, Ini, IniModel};
use crate::readback::{clean_model, lemma_read_back};

verus! {

impl Ini {
    /// Reads the bytes of a `desktop.ini` file written in the ANSI code page
    /// `code_page`: they are decoded, then read as `Ini::parse` reads text.
    pub fn read_from(bytes: &[u8], code_page: u32) -> (ini: Ini)
        ensures
            ini.wf(),
            ini@ == spec_parse_text(decoded(spec_current_encoding(code_page), bytes@)),
            ascii_bytes(bytes@) ==> ini@ == spec_parse_text(decode_utf8(bytes@)),
            spec_current_encoding(code_page) == SystemEncoding::Utf8 && valid_utf8(bytes@)
                && !starts_with_utf8_bom(bytes@) ==> ini@ == spec_parse_text(decode_utf8(bytes@)),
    {
        let text = decode_system(code_page, bytes);
        Ini::parse(text.as_str())
    }

    /// The bytes that the file receives: the text that `to_text` gives,
    /// encoded in the ANSI code page `code_page`.
    pub fn write_to(&self, code_page: u32) -> (bytes: Vec<u8>)
        requires
            self.wf(),
        ensures
            exists|order: Seq<Seq<char>>|
                {
                    &&& section_order(self@, order)
                    &&& bytes@ == encoded(spec_current_encoding(code_page), render(self@, order))
                    &&& spec_current_encoding(code_page) == SystemEncoding::Utf8 ==> bytes@
                        == encode_utf8(render(self@, order))
                    &&& vstd::utf8::is_ascii_chars(render(self@, order)) ==> bytes@ == encode_utf8(
                        render(self@, order),
                    )
                },
    {
        let text = self.to_text();
        let bytes = encode_system(code_page, text.as_str());
        proof {
            let order = choose|order: Seq<Seq<char>>|
                section_order(self@, order) && text@ == render(self@, order);
            assert(section_order(self@, order));
        }
        bytes
    }
}

proof fn lemma_render_start(m: IniModel, order: Seq<Seq<char>>)
    ensures
        render(m, order).len() == 0 || render(m, order)[0] == '\n',
    decreases order.len(),
{
    if order.len() > 0 {
        lemma_render_start(m, order.drop_last());
        let a = render(m, order.drop_last());
        let b = render_section(order.last(), crate::format::entries_of(m, order.last()));
        if a.len() == 0 && b.len() > 0 {
            assert((a + b)[0] == b[0]);
        } else if a.len() > 0 {
            assert((a + b)[0] == a[0]);
        }
    }
}

/// What reading gives back of the bytes that were written, in UTF-8 (and in
/// any of these encodings where the text is ASCII, whose bytes are the same):
/// the UTF-8 form of a written text is valid, starts with no byte order mark,
/// and reads back with every key of every section as it was, where the contents
/// read back as themselves (`clean_model`).
pub proof fn lemma_read_back_bytes(m: IniModel, order: Seq<Seq<char>>, s: Seq<char>, k: Seq<char>)
    requires
        model_wf(m),
        clean_model(m),
        section_order(m, order),
    ensures
        valid_utf8(encode_utf8(render(m, order))),
        !starts_with_utf8_bom(encode_utf8(render(m, order))),
        spec_get(spec_parse_text(decode_utf8(encode_utf8(render(m, order)))), s, k) == spec_get(m, s, k),
{
    let text = render(m, order);
    encode_utf8_valid_utf8(text);
    encode_utf8_decode_utf8(text);
    lemma_render_start(m, order);
    if text.len() > 0 {
        assert(text[0] == '\n');
        let c = text[0];
        assert(c as u32 == 10u32);
        assert(((10u32 & 0x7F) as u8) == 10u8) by (bit_vector);
        assert(vstd::utf8::encode_scalar(10u32) == seq![10u8]);
        assert(encode_utf8(text) == vstd::utf8::encode_scalar(c as u32) + encode_utf8(text.drop_first()));
        assert(encode_utf8(text)[0] == 10u8);
    }
    lemma_read_back(m, order, s, k);
}

} // verus!
