//! The control encoding is unambiguous: two carried commands with the same
//! bytes are the same command, so what the window decodes is what the client
//! sent.

use vstd::prelude::*;
use vstd::utf8::*;
use crate::bytes::{le_bytes, pow256};
use crate::command::{utf8_len, views_of, CliCommand, ImeEvent};
use crate::tab::TabId;
use crate::wire::{
    command_carried, command_sized, enc_bool, encode_error, is_request_encoding, enc_i16, enc_ime, enc_key_list, enc_opt_tab,
    enc_string, enc_strings, enc_tab, enc_u16, enc_u64, encode_command, encode_fields,
    lemma_enc_string_len, lemma_enc_strings_len, lemma_enc_strings_step, lemma_fixed_width,
    lemma_pow_values, lemma_split, opcode, string_views, REQUEST_MAX_BYTES,
};

verus! {

/// Two splits of one sequence at the same length agree on both parts.
proof fn lemma_same_split(p1: Seq<u8>, t1: Seq<u8>, p2: Seq<u8>, t2: Seq<u8>)
    requires
        p1 + t1 == p2 + t2,
        p1.len() == p2.len(),
    ensures
        p1 == p2,
        t1 == t2,
{
    lemma_split(p1 + t1, p1, t1);
    lemma_split(p2 + t2, p2, t2);
}

proof fn lemma_fixed_prefix(a: nat, b: nat, n: nat, t1: Seq<u8>, t2: Seq<u8>)
    requires
        n <= 8,
        a < pow256(n),
        b < pow256(n),
        le_bytes(a, n) + t1 == le_bytes(b, n) + t2,
    ensures
        a == b,
        t1 == t2,
{
    lemma_fixed_width(a, n);
    lemma_fixed_width(b, n);
    lemma_same_split(le_bytes(a, n), t1, le_bytes(b, n), t2);
}

proof fn lemma_string_prefix(s1: Seq<char>, s2: Seq<char>, t1: Seq<u8>, t2: Seq<u8>)
    requires
        utf8_len(s1) < pow256(4),
        utf8_len(s2) < pow256(4),
        enc_string(s1) + t1 == enc_string(s2) + t2,
    ensures
        s1 == s2,
        t1 == t2,
{
    let e1 = encode_utf8(s1);
    let e2 = encode_utf8(s2);
    assert(enc_string(s1) + t1 =~= le_bytes(utf8_len(s1), 4) + (e1 + t1));
    assert(enc_string(s2) + t2 =~= le_bytes(utf8_len(s2), 4) + (e2 + t2));
    lemma_fixed_prefix(utf8_len(s1), utf8_len(s2), 4, e1 + t1, e2 + t2);
    lemma_same_split(e1, t1, e2, t2);
    encode_utf8_decode_utf8(s1);
    encode_utf8_decode_utf8(s2);
}

proof fn lemma_opt_tab_prefix(a: Option<TabId>, b: Option<TabId>, t1: Seq<u8>, t2: Seq<u8>)
    requires
        enc_opt_tab(a) + t1 == enc_opt_tab(b) + t2,
    ensures
        a == b,
        t1 == t2,
{
    lemma_pow_values();
    let x = enc_opt_tab(a) + t1;
    assert(x[0] == enc_opt_tab(a)[0]);
    assert((enc_opt_tab(b) + t2)[0] == enc_opt_tab(b)[0]);
    match a {
        None => {
            match b {
                None => {
                    lemma_same_split(enc_opt_tab(a), t1, enc_opt_tab(b), t2);
                },
                Some(_) => {},
            }
        },
        Some(ta) => {
            match b {
                None => {},
                Some(tb) => {
                    assert(enc_opt_tab(a) + t1 =~= seq![1u8] + (le_bytes(ta.0 as nat, 8) + t1));
                    assert(enc_opt_tab(b) + t2 =~= seq![1u8] + (le_bytes(tb.0 as nat, 8) + t2));
                    lemma_same_split(
                        seq![1u8],
                        le_bytes(ta.0 as nat, 8) + t1,
                        seq![1u8],
                        le_bytes(tb.0 as nat, 8) + t2,
                    );
                    lemma_fixed_prefix(ta.0 as nat, tb.0 as nat, 8, t1, t2);
                },
            }
        },
    }
}

pub open spec fn strings_bounded(ks: Seq<Seq<char>>) -> bool {
    forall|i: int| 0 <= i < ks.len() ==> utf8_len(#[trigger] ks[i]) < pow256(4)
}

proof fn lemma_strings_prefix(k1: Seq<Seq<char>>, k2: Seq<Seq<char>>, t1: Seq<u8>, t2: Seq<u8>)
    requires
        k1.len() == k2.len(),
        strings_bounded(k1),
        strings_bounded(k2),
        enc_strings(k1) + t1 == enc_strings(k2) + t2,
    ensures
        k1 == k2,
        t1 == t2,
    decreases k1.len(),
{
    if k1.len() == 0 {
        assert(enc_strings(k1) + t1 =~= t1);
        assert(enc_strings(k2) + t2 =~= t2);
        assert(k1 =~= k2);
    } else {
        lemma_enc_strings_step(k1, 0);
        lemma_enc_strings_step(k2, 0);
        assert(k1.skip(0) =~= k1);
        assert(k2.skip(0) =~= k2);
        let r1 = k1.skip(1);
        let r2 = k2.skip(1);
        assert(enc_strings(k1) + t1 =~= enc_string(k1[0]) + (enc_strings(r1) + t1));
        assert(enc_strings(k2) + t2 =~= enc_string(k2[0]) + (enc_strings(r2) + t2));
        lemma_string_prefix(k1[0], k2[0], enc_strings(r1) + t1, enc_strings(r2) + t2);
        assert forall|i: int| 0 <= i < r1.len() implies utf8_len(#[trigger] r1[i]) < pow256(4) by {
            assert(r1[i] == k1[i + 1]);
        }
        assert forall|i: int| 0 <= i < r2.len() implies utf8_len(#[trigger] r2[i]) < pow256(4) by {
            assert(r2[i] == k2[i + 1]);
        }
        lemma_strings_prefix(r1, r2, t1, t2);
        assert(k1 =~= seq![k1[0]] + r1);
        assert(k2 =~= seq![k2[0]] + r2);
    }
}

proof fn lemma_key_list_prefix(k1: Seq<Seq<char>>, k2: Seq<Seq<char>>, t1: Seq<u8>, t2: Seq<u8>)
    requires
        k1.len() < pow256(4),
        k2.len() < pow256(4),
        strings_bounded(k1),
        strings_bounded(k2),
        enc_key_list(k1) + t1 == enc_key_list(k2) + t2,
    ensures
        k1 == k2,
        t1 == t2,
{
    assert(enc_key_list(k1) + t1 =~= le_bytes(k1.len() as nat, 4) + (enc_strings(k1) + t1));
    assert(enc_key_list(k2) + t2 =~= le_bytes(k2.len() as nat, 4) + (enc_strings(k2) + t2));
    lemma_fixed_prefix(k1.len() as nat, k2.len() as nat, 4, enc_strings(k1) + t1, enc_strings(k2) + t2);
    lemma_strings_prefix(k1, k2, t1, t2);
}

/// The strings of an encoding fit its length prefixes.
proof fn lemma_bounded_by_total(ks: Seq<Seq<char>>, total: nat)
    requires
        enc_strings(ks).len() <= total,
        total < pow256(4),
    ensures
        strings_bounded(ks),
        ks.len() < pow256(4),
{
    lemma_enc_strings_len(ks);
}

proof fn lemma_views(ks: Seq<String>)
    ensures
        string_views(ks) == views_of(ks),
{
    assert(string_views(ks) =~= views_of(ks));
}

#[verifier::spinoff_prover]
#[verifier::rlimit(50)]
proof fn lemma_unambiguous_fixed(a: CliCommand, b: CliCommand, ta: Seq<u8>, tb: Seq<u8>)
    requires
        a is ResizeWindow || a is NewTab || a is SelectTab || a is CloseTab || a is CapturePane || a is WaitTabExit
            || a is SetWindowAttached,
        command_sized(a),
        command_sized(b),
        opcode(a) == opcode(b),
        encode_fields(a) + ta == encode_fields(b) + tb,
    ensures
        a@ == b@,
        ta == tb,
{
    lemma_pow_values();
    match a {
        CliCommand::ResizeWindow { width: w1, height: h1 } => {
            if let CliCommand::ResizeWindow { width: w2, height: h2 } = b {
                assert(encode_fields(a) + ta =~= enc_u16(w1) + (enc_u16(h1) + ta));
                assert(encode_fields(b) + tb =~= enc_u16(w2) + (enc_u16(h2) + tb));
                lemma_fixed_prefix(w1 as nat, w2 as nat, 2, enc_u16(h1) + ta, enc_u16(h2) + tb);
                lemma_fixed_prefix(h1 as nat, h2 as nat, 2, ta, tb);
            }
        },
        CliCommand::NewTab { parent: p1 } => {
            if let CliCommand::NewTab { parent: p2 } = b {
                lemma_opt_tab_prefix(p1, p2, ta, tb);
            }
        },
        CliCommand::SelectTab { target: t1 } => {
            if let CliCommand::SelectTab { target: t2 } = b {
                lemma_fixed_prefix(t1.0 as nat, t2.0 as nat, 8, ta, tb);
            }
        },
        CliCommand::CloseTab { target: t1 } => {
            if let CliCommand::CloseTab { target: t2 } = b {
                lemma_fixed_prefix(t1.0 as nat, t2.0 as nat, 8, ta, tb);
            }
        },
        CliCommand::CapturePane { target: t1, max_bytes: m1 } => {
            if let CliCommand::CapturePane { target: t2, max_bytes: m2 } = b {
                assert(encode_fields(a) + ta =~= enc_opt_tab(t1) + (enc_u64(m1 as nat) + ta));
                assert(encode_fields(b) + tb =~= enc_opt_tab(t2) + (enc_u64(m2 as nat) + tb));
                lemma_opt_tab_prefix(t1, t2, enc_u64(m1 as nat) + ta, enc_u64(m2 as nat) + tb);
                lemma_fixed_prefix(m1 as nat, m2 as nat, 8, ta, tb);
            }
        },
        CliCommand::WaitTabExit { target: t1, timeout_ms: m1 } => {
            if let CliCommand::WaitTabExit { target: t2, timeout_ms: m2 } = b {
                assert(encode_fields(a) + ta =~= enc_tab(t1) + (enc_u64(m1 as nat) + ta));
                assert(encode_fields(b) + tb =~= enc_tab(t2) + (enc_u64(m2 as nat) + tb));
                lemma_fixed_prefix(t1.0 as nat, t2.0 as nat, 8, enc_u64(m1 as nat) + ta, enc_u64(m2 as nat) + tb);
                lemma_fixed_prefix(m1 as nat, m2 as nat, 8, ta, tb);
            }
        },
        CliCommand::SetWindowAttached { attached: x1 } => {
            if let CliCommand::SetWindowAttached { attached: x2 } = b {
                assert((encode_fields(a) + ta)[0] == enc_bool(x1)[0]);
                assert((encode_fields(b) + tb)[0] == enc_bool(x2)[0]);
                assert(x1 == x2);
                assert(ta =~= (encode_fields(a) + ta).skip(1));
                assert(tb =~= (encode_fields(b) + tb).skip(1));
            }
        },
        _ => {},
    }
}

#[verifier::spinoff_prover]
#[verifier::rlimit(100)]
proof fn lemma_unambiguous_text(a: CliCommand, b: CliCommand, ta: Seq<u8>, tb: Seq<u8>)
    requires
        a is ScreenshotPane || a is SendText || a is SendPaste || a is WaitText,
        command_sized(a),
        command_sized(b),
        opcode(a) == opcode(b),
        encode_fields(a) + ta == encode_fields(b) + tb,
    ensures
        a@ == b@,
        ta == tb,
{
    lemma_pow_values();
    assert(REQUEST_MAX_BYTES < pow256(4));
    match a {
        CliCommand::ScreenshotPane { target: t1, output: o1 } => {
            if let CliCommand::ScreenshotPane { target: t2, output: o2 } = b {
                assert(encode_fields(a) + ta =~= enc_opt_tab(t1) + (enc_string(o1@) + ta));
                assert(encode_fields(b) + tb =~= enc_opt_tab(t2) + (enc_string(o2@) + tb));
                lemma_opt_tab_prefix(t1, t2, enc_string(o1@) + ta, enc_string(o2@) + tb);
                lemma_enc_string_len(o1@);
                lemma_enc_string_len(o2@);
                lemma_string_prefix(o1@, o2@, ta, tb);
            }
        },
        CliCommand::SendText { target: t1, text: x1 } => {
            if let CliCommand::SendText { target: t2, text: x2 } = b {
                assert(encode_fields(a) + ta =~= enc_opt_tab(t1) + (enc_string(x1@) + ta));
                assert(encode_fields(b) + tb =~= enc_opt_tab(t2) + (enc_string(x2@) + tb));
                lemma_opt_tab_prefix(t1, t2, enc_string(x1@) + ta, enc_string(x2@) + tb);
                lemma_enc_string_len(x1@);
                lemma_enc_string_len(x2@);
                lemma_string_prefix(x1@, x2@, ta, tb);
            }
        },
        CliCommand::SendPaste { target: t1, text: x1 } => {
            if let CliCommand::SendPaste { target: t2, text: x2 } = b {
                assert(encode_fields(a) + ta =~= enc_opt_tab(t1) + (enc_string(x1@) + ta));
                assert(encode_fields(b) + tb =~= enc_opt_tab(t2) + (enc_string(x2@) + tb));
                lemma_opt_tab_prefix(t1, t2, enc_string(x1@) + ta, enc_string(x2@) + tb);
                lemma_enc_string_len(x1@);
                lemma_enc_string_len(x2@);
                lemma_string_prefix(x1@, x2@, ta, tb);
            }
        },
        CliCommand::WaitText { target: t1, text: x1, timeout_ms: m1 } => {
            if let CliCommand::WaitText { target: t2, text: x2, timeout_ms: m2 } = b {
                let r1 = enc_string(x1@) + (enc_u64(m1 as nat) + ta);
                let r2 = enc_string(x2@) + (enc_u64(m2 as nat) + tb);
                assert(encode_fields(a) + ta =~= enc_opt_tab(t1) + r1);
                assert(encode_fields(b) + tb =~= enc_opt_tab(t2) + r2);
                lemma_opt_tab_prefix(t1, t2, r1, r2);
                lemma_enc_string_len(x1@);
                lemma_enc_string_len(x2@);
                lemma_string_prefix(x1@, x2@, enc_u64(m1 as nat) + ta, enc_u64(m2 as nat) + tb);
                lemma_fixed_prefix(m1 as nat, m2 as nat, 8, ta, tb);
            }
        },
        _ => {},
    }
}

#[verifier::spinoff_prover]
#[verifier::rlimit(50)]
proof fn lemma_unambiguous_keys(a: CliCommand, b: CliCommand, ta: Seq<u8>, tb: Seq<u8>)
    requires
        a is SendKeys || a is SendUiKeys || a is SendUiIme,
        command_sized(a),
        command_sized(b),
        opcode(a) == opcode(b),
        encode_fields(a) + ta == encode_fields(b) + tb,
    ensures
        a@ == b@,
        ta == tb,
{
    lemma_pow_values();
    assert(REQUEST_MAX_BYTES < pow256(4));
    match a {
        CliCommand::SendKeys { target: t1, keys: k1 } => {
            if let CliCommand::SendKeys { target: t2, keys: k2 } = b {
                let v1 = string_views(k1@);
                let v2 = string_views(k2@);
                assert(encode_fields(a) + ta =~= enc_opt_tab(t1) + (enc_key_list(v1) + ta));
                assert(encode_fields(b) + tb =~= enc_opt_tab(t2) + (enc_key_list(v2) + tb));
                lemma_opt_tab_prefix(t1, t2, enc_key_list(v1) + ta, enc_key_list(v2) + tb);
                lemma_bounded_by_total(v1, REQUEST_MAX_BYTES as nat);
                lemma_bounded_by_total(v2, REQUEST_MAX_BYTES as nat);
                lemma_key_list_prefix(v1, v2, ta, tb);
                lemma_views(k1@);
                lemma_views(k2@);
            }
        },
        CliCommand::SendUiKeys { keys: k1 } => {
            if let CliCommand::SendUiKeys { keys: k2 } = b {
                let v1 = string_views(k1@);
                let v2 = string_views(k2@);
                lemma_bounded_by_total(v1, REQUEST_MAX_BYTES as nat);
                lemma_bounded_by_total(v2, REQUEST_MAX_BYTES as nat);
                lemma_key_list_prefix(v1, v2, ta, tb);
                lemma_views(k1@);
                lemma_views(k2@);
            }
        },
        CliCommand::SendUiIme { event: e1 } => {
            if let CliCommand::SendUiIme { event: e2 } = b {
                lemma_ime_unambiguous(e1, e2, ta, tb);
            }
        },
        _ => {},
    }
}

#[verifier::spinoff_prover]
#[verifier::rlimit(50)]
proof fn lemma_unambiguous_mouse(a: CliCommand, b: CliCommand, ta: Seq<u8>, tb: Seq<u8>)
    requires
        a is SendMouse,
        command_sized(a),
        command_sized(b),
        opcode(a) == opcode(b),
        encode_fields(a) + ta == encode_fields(b) + tb,
    ensures
        a@ == b@,
        ta == tb,
{
    lemma_pow_values();
    match a {
        CliCommand::SendMouse { target: t1, action: a1, button: b1, column: c1, row: r1 } => {
            if let CliCommand::SendMouse { target: t2, action: a2, button: b2, column: c2, row: r2 } = b {
                let g1 = seq![a1.spec_wire_tag(), b1.spec_wire_tag()];
                let g2 = seq![a2.spec_wire_tag(), b2.spec_wire_tag()];
                let rest1 = enc_u16(c1) + (enc_u16(r1) + ta);
                let rest2 = enc_u16(c2) + (enc_u16(r2) + tb);
                assert(encode_fields(a) + ta =~= enc_opt_tab(t1) + (g1 + rest1));
                assert(encode_fields(b) + tb =~= enc_opt_tab(t2) + (g2 + rest2));
                lemma_opt_tab_prefix(t1, t2, g1 + rest1, g2 + rest2);
                lemma_same_split(g1, rest1, g2, rest2);
                assert(g1[0] == a1.spec_wire_tag() && g1[1] == b1.spec_wire_tag());
                assert(g2[0] == a2.spec_wire_tag() && g2[1] == b2.spec_wire_tag());
                lemma_fixed_prefix(c1 as nat, c2 as nat, 2, enc_u16(r1) + ta, enc_u16(r2) + tb);
                lemma_fixed_prefix(r1 as nat, r2 as nat, 2, ta, tb);
            }
        },
        _ => {},
    }
}

#[verifier::spinoff_prover]
#[verifier::rlimit(50)]
proof fn lemma_unambiguous_wheel(a: CliCommand, b: CliCommand, ta: Seq<u8>, tb: Seq<u8>)
    requires
        a is SendWheel,
        command_sized(a),
        command_sized(b),
        opcode(a) == opcode(b),
        encode_fields(a) + ta == encode_fields(b) + tb,
    ensures
        a@ == b@,
        ta == tb,
{
    lemma_pow_values();
    match a {
        CliCommand::SendWheel { target: t1, column: c1, row: r1, notches: n1, ctrl: x1 } => {
            if let CliCommand::SendWheel { target: t2, column: c2, row: r2, notches: n2, ctrl: x2 } = b {
                let k1 = enc_bool(x1) + ta;
                let k2 = enc_bool(x2) + tb;
                let rest1 = enc_u16(c1) + (enc_u16(r1) + (enc_i16(n1) + k1));
                let rest2 = enc_u16(c2) + (enc_u16(r2) + (enc_i16(n2) + k2));
                assert(encode_fields(a) + ta =~= enc_opt_tab(t1) + rest1);
                assert(encode_fields(b) + tb =~= enc_opt_tab(t2) + rest2);
                lemma_opt_tab_prefix(t1, t2, rest1, rest2);
                lemma_fixed_prefix(c1 as nat, c2 as nat, 2, enc_u16(r1) + (enc_i16(n1) + k1), enc_u16(r2) + (enc_i16(n2) + k2));
                lemma_fixed_prefix(r1 as nat, r2 as nat, 2, enc_i16(n1) + k1, enc_i16(n2) + k2);
                lemma_fixed_prefix((n1 as u16) as nat, (n2 as u16) as nat, 2, k1, k2);
                assert(n1 == n2) by (bit_vector)
                    requires
                        n1 as u16 == n2 as u16,
                ;
                lemma_same_split(enc_bool(x1), ta, enc_bool(x2), tb);
                assert(enc_bool(x1)[0] == enc_bool(x2)[0]);
            }
        },
        _ => {},
    }
}

/// No carried command's encoding is a proper prefix of another's: where two
/// encodings followed by anything agree, the commands and what follows them
/// are the same. A reader therefore knows where a command ends.
pub proof fn law_encoding_is_prefix_free(a: CliCommand, b: CliCommand, ta: Seq<u8>, tb: Seq<u8>)
    requires
        command_sized(a),
        command_sized(b),
        encode_command(a) + ta == encode_command(b) + tb,
    ensures
        a@ == b@,
        ta == tb,
{
    let x = encode_command(a) + ta;
    assert(x[0] == opcode(a));
    assert((encode_command(b) + tb)[0] == opcode(b));
    assert(encode_command(a) + ta =~= seq![opcode(a)] + (encode_fields(a) + ta));
    assert(encode_command(b) + tb =~= seq![opcode(b)] + (encode_fields(b) + tb));
    lemma_same_split(seq![opcode(a)], encode_fields(a) + ta, seq![opcode(b)], encode_fields(b) + tb);
    if a is ResizeWindow || a is NewTab || a is SelectTab || a is CloseTab || a is CapturePane
        || a is WaitTabExit || a is SetWindowAttached {
        lemma_unambiguous_fixed(a, b, ta, tb);
    } else if a is ScreenshotPane || a is SendText || a is SendPaste || a is WaitText {
        lemma_unambiguous_text(a, b, ta, tb);
    } else if a is SendKeys || a is SendUiKeys || a is SendUiIme {
        lemma_unambiguous_keys(a, b, ta, tb);
    } else if a is SendMouse {
        lemma_unambiguous_mouse(a, b, ta, tb);
    } else if a is SendWheel {
        lemma_unambiguous_wheel(a, b, ta, tb);
    } else {
        assert(encode_fields(a) + ta =~= ta);
        assert(encode_fields(b) + tb =~= tb);
    }
}

/// Two carried commands with the same encoding are the same command.
pub proof fn law_encoding_is_unambiguous(a: CliCommand, b: CliCommand)
    requires
        command_sized(a),
        command_sized(b),
        encode_command(a) == encode_command(b),
    ensures
        a@ == b@,
{
    let empty = Seq::<u8>::empty();
    assert(encode_command(a) + empty =~= encode_command(a));
    assert(encode_command(b) + empty =~= encode_command(b));
    law_encoding_is_prefix_free(a, b, empty, empty);
}

proof fn lemma_ime_tag(e: ImeEvent)
    ensures
        enc_ime(e).len() > 0,
        enc_ime(e)[0] == match e {
            ImeEvent::Enabled => 0u8,
            ImeEvent::Preedit { .. } => 1u8,
            ImeEvent::Commit(_) => 2u8,
            ImeEvent::Disabled => 3u8,
        },
{
    match e {
        ImeEvent::Preedit { text, cursor } => {
            let k = match cursor {
                None => seq![0u8],
                Some((s, f)) => seq![1u8] + enc_u64(s as nat) + enc_u64(f as nat),
            };
            assert(enc_ime(e) =~= seq![1u8] + (enc_string(text@) + k));
        },
        ImeEvent::Commit(text) => {
            assert(enc_ime(e) =~= seq![2u8] + enc_string(text@));
        },
        _ => {},
    }
}

/// The cursor part of an encoded preedit.
pub open spec fn enc_cursor(cursor: Option<(usize, usize)>) -> Seq<u8> {
    match cursor {
        None => seq![0u8],
        Some((s, e)) => seq![1u8] + enc_u64(s as nat) + enc_u64(e as nat),
    }
}

#[verifier::spinoff_prover]
#[verifier::rlimit(50)]
proof fn lemma_cursor_prefix(c1: Option<(usize, usize)>, c2: Option<(usize, usize)>, t1: Seq<u8>, t2: Seq<u8>)
    requires
        enc_cursor(c1) + t1 == enc_cursor(c2) + t2,
    ensures
        c1 == c2,
        t1 == t2,
{
    lemma_pow_values();
    assert((enc_cursor(c1) + t1)[0] == if c1 is Some { 1u8 } else { 0u8 });
    assert((enc_cursor(c2) + t2)[0] == if c2 is Some { 1u8 } else { 0u8 });
    match c1 {
        None => {
            if c2 is None {
                lemma_same_split(enc_cursor(c1), t1, enc_cursor(c2), t2);
            }
        },
        Some((s1, f1)) => {
            if let Some((s2, f2)) = c2 {
                assert(enc_cursor(c1) + t1 =~= seq![1u8] + (enc_u64(s1 as nat) + (enc_u64(f1 as nat) + t1)));
                assert(enc_cursor(c2) + t2 =~= seq![1u8] + (enc_u64(s2 as nat) + (enc_u64(f2 as nat) + t2)));
                lemma_same_split(seq![1u8], enc_u64(s1 as nat) + (enc_u64(f1 as nat) + t1), seq![1u8], enc_u64(s2 as nat) + (enc_u64(f2 as nat) + t2));
                lemma_fixed_prefix(s1 as nat, s2 as nat, 8, enc_u64(f1 as nat) + t1, enc_u64(f2 as nat) + t2);
                lemma_fixed_prefix(f1 as nat, f2 as nat, 8, t1, t2);
            }
        },
    }
}

#[verifier::spinoff_prover]
#[verifier::rlimit(50)]
proof fn lemma_preedit_unambiguous(e1: ImeEvent, e2: ImeEvent, t1: Seq<u8>, t2: Seq<u8>)
    requires
        e1 is Preedit,
        e2 is Preedit,
        enc_ime(e1) + t1 == enc_ime(e2) + t2,
        enc_ime(e1).len() <= REQUEST_MAX_BYTES,
        enc_ime(e2).len() <= REQUEST_MAX_BYTES,
    ensures
        e1@ == e2@,
        t1 == t2,
{
    lemma_pow_values();
    assert(REQUEST_MAX_BYTES < pow256(4));
    if let ImeEvent::Preedit { text: x1, cursor: c1 } = e1 {
        if let ImeEvent::Preedit { text: x2, cursor: c2 } = e2 {
            let k1 = enc_cursor(c1);
            let k2 = enc_cursor(c2);
            assert(enc_ime(e1) =~= seq![1u8] + (enc_string(x1@) + k1));
            assert(enc_ime(e2) =~= seq![1u8] + (enc_string(x2@) + k2));
            assert(enc_ime(e1) + t1 =~= seq![1u8] + (enc_string(x1@) + (k1 + t1)));
            assert(enc_ime(e2) + t2 =~= seq![1u8] + (enc_string(x2@) + (k2 + t2)));
            lemma_same_split(seq![1u8], enc_string(x1@) + (k1 + t1), seq![1u8], enc_string(x2@) + (k2 + t2));
            lemma_enc_string_len(x1@);
            lemma_enc_string_len(x2@);
            lemma_string_prefix(x1@, x2@, k1 + t1, k2 + t2);
            lemma_cursor_prefix(c1, c2, t1, t2);
        }
    }
}

#[verifier::spinoff_prover]
#[verifier::rlimit(50)]
proof fn lemma_ime_unambiguous(e1: ImeEvent, e2: ImeEvent, t1: Seq<u8>, t2: Seq<u8>)
    requires
        enc_ime(e1) + t1 == enc_ime(e2) + t2,
        enc_ime(e1).len() <= REQUEST_MAX_BYTES,
        enc_ime(e2).len() <= REQUEST_MAX_BYTES,
    ensures
        e1@ == e2@,
        t1 == t2,
{
    lemma_pow_values();
    lemma_ime_tag(e1);
    lemma_ime_tag(e2);
    assert((enc_ime(e1) + t1)[0] == enc_ime(e1)[0]);
    assert((enc_ime(e2) + t2)[0] == enc_ime(e2)[0]);
    assert(REQUEST_MAX_BYTES < pow256(4));
    match e1 {
        ImeEvent::Preedit { text: x1, cursor: c1 } => {
            if let ImeEvent::Preedit { text: x2, cursor: c2 } = e2 {
                lemma_preedit_unambiguous(e1, e2, t1, t2);
            }
        },
        ImeEvent::Commit(x1) => {
            if let ImeEvent::Commit(x2) = e2 {
                assert(enc_ime(e1) + t1 =~= seq![2u8] + (enc_string(x1@) + t1));
                assert(enc_ime(e2) + t2 =~= seq![2u8] + (enc_string(x2@) + t2));
                assert(enc_ime(e1) =~= seq![2u8] + enc_string(x1@));
                assert(enc_ime(e2) =~= seq![2u8] + enc_string(x2@));
                lemma_same_split(seq![2u8], enc_string(x1@) + t1, seq![2u8], enc_string(x2@) + t2);
                lemma_enc_string_len(x1@);
                lemma_enc_string_len(x2@);
                lemma_string_prefix(x1@, x2@, t1, t2);
            }
        },
        _ => {
            lemma_same_split(enc_ime(e1), t1, enc_ime(e2), t2);
        },
    }
}

/// Every carried command survives the wire: it encodes without error, its
/// bytes are a request encoding, and any carried command with the same bytes
/// is that command, so decoding gives it back.
pub proof fn law_request_round_trip(command: CliCommand)
    requires
        command_carried(command),
    ensures
        encode_error(command) is None,
        is_request_encoding(encode_command(command)),
        forall|other: CliCommand|
            command_carried(other) && #[trigger] encode_command(other) == encode_command(command)
                ==> other@ == command@,
{
    crate::wire::law_carried_commands_encode(command);
    assert forall|other: CliCommand|
        command_carried(other) && #[trigger] encode_command(other) == encode_command(command)
            implies other@ == command@ by {
        law_encoding_is_unambiguous(other, command);
    }
}

} // verus!
