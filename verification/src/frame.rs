//! Frames on the control connection: a magic tag, a little-endian 32-bit
//! length, then that many payload bytes.

use vstd::prelude::*;
use crate::bytes::{le_bytes, le_value, lemma_le_roundtrip, lemma_le_value_bound, pow256, push_le, read_le};

verus! {

/// Largest request payload.
pub const REQUEST_MAX_BYTES: usize = 1048576;

/// Largest response payload.
pub const RESPONSE_MAX_BYTES: usize = 2097152;

/// How many times a request whose reply was lost is sent again, in all.
pub const LOST_REPLY_ATTEMPTS: usize = 3;

/// The tag every frame starts with: `ATC1`.
pub open spec fn wire_magic() -> Seq<u8> {
    seq![65u8, 84u8, 67u8, 49u8]
}

pub open spec fn frame_size_error() -> Seq<char> {
    "control frame payload is empty or oversized"@
}

pub open spec fn frame_version_error() -> Seq<char> {
    "unsupported control frame version"@
}

/// The header of a frame carrying `length` payload bytes.
pub open spec fn frame_header_of(length: nat) -> Seq<u8> {
    wire_magic() + le_bytes(length, 4)
}

/// The header for a payload of `length` bytes, refused when the payload is
/// empty or longer than `max_bytes` (which fits in 32 bits).
pub fn frame_header(length: usize, max_bytes: usize) -> (result: Result<Vec<u8>, String>)
    requires
        max_bytes <= u32::MAX,
    ensures
        0 < length <= max_bytes ==> (result matches Ok(h) && h@ == frame_header_of(length as nat)),
        !(0 < length <= max_bytes) ==> (result matches Err(e) && e@ == frame_size_error()),
{
    if length == 0 || length > max_bytes {
        return Err("control frame payload is empty or oversized".to_owned());
    }
    let mut header: Vec<u8> = Vec::new();
    header.push(65);
    header.push(84);
    header.push(67);
    header.push(49);
    push_le(&mut header, length as u128, 4);
    assert(header@ =~= frame_header_of(length as nat));
    Ok(header)
}

/// The payload length a frame header announces, checked against the magic
/// tag and against `max_bytes`.
pub open spec fn frame_length_of(header: Seq<u8>, max_bytes: nat) -> Result<nat, Seq<char>> {
    if header.take(4) != wire_magic() {
        Err(frame_version_error())
    } else {
        let length = le_value(header.subrange(4, 8));
        if length == 0 || length > max_bytes {
            Err(frame_size_error())
        } else {
            Ok(length)
        }
    }
}

/// Reads a frame header.
pub fn parse_frame_header(header: &[u8; 8], max_bytes: usize) -> (result: Result<usize, String>)
    ensures
        match frame_length_of(header@, max_bytes as nat) {
            Ok(n) => result matches Ok(r) && r as nat == n,
            Err(m) => result matches Err(e) && e@ == m,
        },
{
    let h = header.as_slice();
    if !(h[0] == 65 && h[1] == 84 && h[2] == 67 && h[3] == 49) {
        proof {
            if header@.take(4) == wire_magic() {
                assert(header@.take(4)[0] == 65u8);
                assert(header@.take(4)[1] == 84u8);
                assert(header@.take(4)[2] == 67u8);
                assert(header@.take(4)[3] == 49u8);
            }
        }
        return Err("unsupported control frame version".to_owned());
    }
    assert(header@.take(4) =~= wire_magic());
    let mut length_bytes: Vec<u8> = Vec::new();
    length_bytes.push(h[4]);
    length_bytes.push(h[5]);
    length_bytes.push(h[6]);
    length_bytes.push(h[7]);
    assert(length_bytes@ =~= header@.subrange(4, 8));
    let value = read_le(length_bytes.as_slice());
    proof {
        lemma_le_value_bound(length_bytes@);
        reveal_with_fuel(pow256, 5);
    }
    let length = value as usize;
    if length == 0 || length > max_bytes {
        return Err("control frame payload is empty or oversized".to_owned());
    }
    Ok(length)
}

/// A header written for an accepted length reads back as that length.
pub proof fn law_frame_header_round_trip(length: nat, max_bytes: nat)
    requires
        0 < length <= max_bytes <= u32::MAX,
    ensures
        frame_length_of(frame_header_of(length), max_bytes) == Ok::<nat, Seq<char>>(length),
{
    reveal_with_fuel(pow256, 5);
    lemma_le_roundtrip(length, 4);
    let h = frame_header_of(length);
    assert(h.take(4) =~= wire_magic());
    assert(h.subrange(4, 8) =~= le_bytes(length, 4));
}

/// What `minicon cli list-commands` prints.
pub open spec fn command_catalog() -> Seq<char> {
    "attach-gui\ncancel-pointer\ncapture-pane\nclose-tab\nclose-window\ndetach-gui\nlist-commands\nlist-tabs\nnew-tab\nperf-stats\nreset-perf-stats\nresize-window\nscreenshot-pane\nselect-tab\nsend-keys\nsend-mouse\nsend-paste\nsend-text\nsend-ui-ime\nsend-ui-keys\nsend-wheel\nui-snapshot\nwait-tab-exit\nwait-text\n"@
}

/// The catalog of `minicon cli` commands, one per line.
pub fn cli_command_catalog() -> (text: String)
    ensures
        text@ == command_catalog(),
{
    "attach-gui\ncancel-pointer\ncapture-pane\nclose-tab\nclose-window\ndetach-gui\nlist-commands\nlist-tabs\nnew-tab\nperf-stats\nreset-perf-stats\nresize-window\nscreenshot-pane\nselect-tab\nsend-keys\nsend-mouse\nsend-paste\nsend-text\nsend-ui-ime\nsend-ui-keys\nsend-wheel\nui-snapshot\nwait-tab-exit\nwait-text\n".to_owned()
}

/// What the client does after exchange number `attempt` (from 0) failed,
/// where `lost_reply` says whether the connection dropped with the reply
/// lost: send the same request again while attempts remain, else give up.
pub fn retry_after_failure(attempt: usize, lost_reply: bool) -> (again: bool)
    ensures
        again == (lost_reply && attempt + 1 < LOST_REPLY_ATTEMPTS),
{
    lost_reply && attempt < LOST_REPLY_ATTEMPTS - 1
}

} // verus!
