//! Building one rendered block from one named input: classify the payload,
//! decode or hex-dump it, and place the result under a title line and a
//! separator.

use crate::classify::{classify, spec_classify, Classification};
use crate::escape::{escape_typst, spec_escape};
use crate::hex::{spec_hex_view, to_hex_view};
use crate::strutil::decode_utf8_vec;
use vstd::prelude::*;
use vstd::string::StringExecFns;
use vstd::utf8::{decode_utf8, valid_utf8};

verus! {

/// One named input: a display name (a forward-slash file path, or a synthetic
/// label such as a command line) and the raw bytes of its payload.
pub struct InputItem {
    pub display_name: String,
    pub payload: Vec<u8>,
}

/// One rendered unit of output, ready to be wrapped in a code block.
pub struct RenderedBlock {
    pub title: String,
    pub body: String,
    pub numbered: bool,
}

/// The mathematical content of a rendered block.
#[verifier::ext_equal]
pub ghost struct BlockView {
    pub title: Seq<char>,
    pub body: Seq<char>,
    pub numbered: bool,
}

impl View for RenderedBlock {
    type V = BlockView;

    open spec fn view(&self) -> BlockView {
        BlockView { title: self.title@, body: self.body@, numbered: self.numbered }
    }
}

/// The separator line between a block's title and its rendered payload.
pub open spec fn separator() -> Seq<char> {
    "----------------"@
}

/// The block title: the display name, with a marker appended when the payload
/// is rendered as a hex dump — "(binary)" after a binary verdict, "(non-UTF8)"
/// after a text verdict whose bytes do not decode.
pub open spec fn spec_title(name: Seq<char>, payload: Seq<u8>) -> Seq<char> {
    if spec_classify(payload) == Classification::Binary {
        name + " (binary)"@
    } else if !valid_utf8(payload) {
        name + " (non-UTF8)"@
    } else {
        name
    }
}

/// The rendered payload: the escaped decoded text when the verdict is text
/// and the bytes decode, otherwise the hex dump.
pub open spec fn spec_rendered(payload: Seq<u8>) -> Seq<char> {
    if spec_classify(payload) == Classification::Text && valid_utf8(payload) {
        spec_escape(decode_utf8(payload))
    } else {
        spec_hex_view(payload)
    }
}

/// Whether the block carries line numbers: only requested numbering on a
/// successfully decoded text payload; hex-rendered blocks never do.
pub open spec fn spec_numbered(payload: Seq<u8>, numbering: bool) -> bool {
    numbering && spec_classify(payload) == Classification::Text && valid_utf8(payload)
}

/// The block body: the title line, the separator line, and the rendered
/// payload, in that order.
pub open spec fn spec_body(name: Seq<char>, payload: Seq<u8>) -> Seq<char> {
    spec_title(name, payload) + seq!['\n'] + separator() + seq!['\n'] + spec_rendered(payload)
}

/// The block an input renders to.
pub open spec fn spec_block(name: Seq<char>, payload: Seq<u8>, numbering: bool) -> BlockView {
    BlockView {
        title: spec_title(name, payload),
        body: spec_body(name, payload),
        numbered: spec_numbered(payload, numbering),
    }
}

/// Renders one input into its block. A text verdict whose payload is not
/// valid UTF-8 falls back to the hex dump with the "(non-UTF8)" marker.
pub fn build_block(item: &InputItem, numbering: bool) -> (r: RenderedBlock)
    ensures
        r@ == spec_block(item.display_name@, item.payload@, numbering),
{
    let verdict = classify(item.payload.as_slice());
    let mut title = item.display_name.clone();
    let rendered: String;
    let mut numbered: bool = false;
    match verdict {
        Classification::Binary => {
            title.append(" (binary)");
            rendered = to_hex_view(item.payload.as_slice());
        },
        Classification::Text => {
            match decode_utf8_vec(&item.payload) {
                Some(text) => {
                    rendered = escape_typst(text.as_str());
                    numbered = numbering;
                },
                None => {
                    title.append(" (non-UTF8)");
                    rendered = to_hex_view(item.payload.as_slice());
                },
            }
        },
    }
    let mut body = title.clone();
    body.append("\n");
    body.append("----------------");
    body.append("\n");
    body.append(rendered.as_str());
    proof {
        reveal_strlit("\n");
        assert(body@ =~= spec_body(item.display_name@, item.payload@));
    }
    let r = RenderedBlock { title, body, numbered };
    proof {
        assert(r@ =~= spec_block(item.display_name@, item.payload@, numbering));
    }
    r
}

/// For every text payload that decodes successfully, the block body is
/// exactly the display name, the separator line, and the escaped original
/// content, in that order, newline-joined.
pub proof fn lemma_text_block_content(name: Seq<char>, payload: Seq<u8>)
    requires
        spec_classify(payload) == Classification::Text,
        valid_utf8(payload),
    ensures
        spec_body(name, payload) == name + seq!['\n'] + separator() + seq!['\n'] + spec_escape(
            decode_utf8(payload),
        ),
{
}

} // verus!
