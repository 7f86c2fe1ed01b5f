//! What the terminal answers the queries a program sends it, and the title
//! a program sets.

use vstd::prelude::*;
use vstd::utf8::*;
use crate::harness_wire::{lossy_text, utf8_lossy};
use crate::host_rules::{trim, trimmed};
use crate::text::{decimal, decimal_chars, push_str};

verus! {

/// The reply to a CSI query, as characters: Primary Device Attributes
/// (`CSI c`) is answered "VT100 with Advanced Video Option"; Device Status
/// Report 6 (`CSI 6 n`) with the cursor position, counted from one; Device
/// Status Report 5 with "terminal OK". Anything with an intermediate byte,
/// and every other query, gets no reply.
pub open spec fn csi_reply_text(intermediate: Option<u8>, first_param: Option<u16>, final_byte: char, row: u16, col: u16) -> Seq<char> {
    if intermediate is Some {
        Seq::empty()
    } else if final_byte == 'c' {
        "\x1b[?1;2c"@
    } else if final_byte == 'n' && first_param == Some(6u16) {
        "\x1b["@ + decimal_chars(row as nat + 1) + ";"@ + decimal_chars(col as nat + 1) + "R"@
    } else if final_byte == 'n' && first_param == Some(5u16) {
        "\x1b[0n"@
    } else {
        Seq::empty()
    }
}

/// The first value of the first parameter.
pub open spec fn first_param_of(params: Seq<&[u16]>) -> Option<u16> {
    if params.len() > 0 && params[0]@.len() > 0 {
        Some(params[0]@[0])
    } else {
        None
    }
}

/// The bytes to write back to the program for one CSI sequence the screen
/// model leaves unhandled, with the cursor at (`row`, `col`) counted from
/// zero.
pub fn csi_reply(intermediate: Option<u8>, params: &[&[u16]], final_byte: char, row: u16, col: u16) -> (reply: Vec<u8>)
    ensures
        reply@ == encode_utf8(csi_reply_text(intermediate, first_param_of(params@), final_byte, row, col)),
{
    let first: Option<u16> = if params.len() > 0 && params[0].len() > 0 {
        Some(params[0][0])
    } else {
        None
    };
    let mut text = String::new();
    if intermediate.is_none() {
        if final_byte == 'c' {
            push_str(&mut text, "\x1b[?1;2c");
        } else if final_byte == 'n' {
            match first {
                Some(6) => {
                    push_str(&mut text, "\x1b[");
                    push_str(&mut text, decimal(row as u64 + 1).as_str());
                    push_str(&mut text, ";");
                    push_str(&mut text, decimal(col as u64 + 1).as_str());
                    push_str(&mut text, "R");
                },
                Some(5) => {
                    push_str(&mut text, "\x1b[0n");
                },
                _ => {},
            }
        }
    }
    assert(text@ =~= csi_reply_text(intermediate, first_param_of(params@), final_byte, row, col));
    let bytes = text.as_str().as_bytes();
    let mut reply: Vec<u8> = Vec::new();
    let mut i: usize = 0;
    while i < bytes.len()
        invariant
            i <= bytes@.len(),
            reply@ == bytes@.take(i as int),
        decreases bytes@.len() - i,
    {
        reply.push(bytes[i]);
        i = i + 1;
        assert(reply@ =~= bytes@.take(i as int));
    }
    assert(bytes@.take(i as int) =~= bytes@);
    reply
}

/// The title a program set, from its raw bytes: invalid UTF-8 replaced,
/// surrounding whitespace trimmed.
pub fn window_title(title: &[u8]) -> (text: String)
    ensures
        text@ == trimmed(utf8_lossy(title@)),
        valid_utf8(title@) ==> text@ == trimmed(decode_utf8(title@)),
{
    let raw = lossy_text(title);
    trim(raw.as_str())
}

} // verus!
