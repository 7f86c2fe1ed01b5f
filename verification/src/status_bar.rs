//! What the status bar and the host's buttons show: the clipboard readout,
//! and where a label sits inside its button.

use vstd::prelude::*;
use crate::a11y::Rect;
use crate::text::{chars_of, decimal, decimal_chars, push_char, push_str};

verus! {

/// The most the status bar reads of the clipboard to measure it.
pub const MEASURE_LIMIT_BYTES: usize = 8388608;

/// What the clipboard readout shows.
#[derive(Clone, Copy, Debug, PartialEq, Eq, Structural)]
pub enum ClipboardLength {
    /// Not known yet, or the clipboard holds no text.
    NoText,
    /// The text's length in characters.
    Chars(usize),
    /// More than `MEASURE_LIMIT_BYTES` of text.
    Over,
}

/// The clipboard length a read gives: its text's characters (none for empty
/// text), `Over` for a read refused as too large (failure code
/// `clipboard_too_large`), nothing for any other failure.
pub open spec fn length_of_read(result: Result<Seq<char>, Seq<char>>) -> ClipboardLength {
    match result {
        Ok(text) => if text.len() == 0 {
            ClipboardLength::NoText
        } else {
            ClipboardLength::Chars(text.len() as usize)
        },
        Err(code) => if code == "clipboard_too_large"@ {
            ClipboardLength::Over
        } else {
            ClipboardLength::NoText
        },
    }
}

/// The length to show for one clipboard read; a failed read is given by its
/// failure code.
pub fn length_of(result: Result<String, String>) -> (length: ClipboardLength)
    ensures
        length == length_of_read(
            match result {
                Ok(t) => Ok(t@),
                Err(c) => Err(c@),
            },
        ),
{
    match result {
        Ok(text) => {
            let chars = chars_of(text.as_str());
            if chars.len() == 0 {
                ClipboardLength::NoText
            } else {
                ClipboardLength::Chars(chars.len())
            }
        },
        Err(code) => if crate::text::str_eq(code.as_str(), "clipboard_too_large") {
            ClipboardLength::Over
        } else {
            ClipboardLength::NoText
        },
    }
}

/// `text` right-aligned in a field of `width` characters.
pub open spec fn right_aligned(text: Seq<char>, width: nat) -> Seq<char> {
    Seq::new((width - text.len()) as nat, |i: int| ' ') + text
}

/// The readout label in the chosen language.
pub open spec fn readout_label(chinese: bool) -> Seq<char> {
    if chinese {
        "剪贴板"@
    } else {
        "Clip"@
    }
}

/// The status bar's text for a clipboard length, fixed-width so the bar does
/// not reflow as it changes.
pub open spec fn readout_text(length: ClipboardLength, chinese: bool) -> Option<Seq<char>> {
    match length {
        ClipboardLength::NoText => None,
        ClipboardLength::Chars(n) => if n > 999999 {
            Some(readout_label(chinese) + " >999999"@)
        } else {
            Some(readout_label(chinese) + " "@ + right_aligned(decimal_chars(n as nat), 7))
        },
        ClipboardLength::Over => Some(readout_label(chinese) + " "@ + right_aligned(">8MB"@, 7)),
    }
}

pub open spec fn pow10(k: nat) -> nat
    decreases k,
{
    if k == 0 {
        1
    } else {
        10 * pow10((k - 1) as nat)
    }
}

proof fn lemma_decimal_len(n: nat, k: nat)
    requires
        1 <= k,
        n < pow10(k),
    ensures
        1 <= decimal_chars(n).len() <= k,
    decreases k,
{
    if n >= 10 {
        let p = pow10((k - 1) as nat);
        assert(k >= 2) by {
            if k == 1 {
                assert(pow10(1) == 10 * pow10(0));
            }
        }
        assert(n / 10 < p) by (nonlinear_arith)
            requires
                n < 10 * p,
        ;
        lemma_decimal_len(n / 10, (k - 1) as nat);
    }
}

fn push_right_aligned(out: &mut String, text: &str, width: usize)
    requires
        text@.len() <= width,
    ensures
        final(out)@ == old(out)@ + right_aligned(text@, width as nat),
{
    let n = chars_of(text).len();
    let ghost start = out@;
    let mut i: usize = 0;
    while i + n < width
        invariant
            n == text@.len(),
            n <= width,
            i + n <= width,
            out@ == start + Seq::new(i as nat, |j: int| ' '),
        decreases width - i,
    {
        push_char(out, ' ');
        i = i + 1;
        assert(out@ =~= start + Seq::new(i as nat, |j: int| ' '));
    }
    push_str(out, text);
    assert(out@ =~= start + right_aligned(text@, width as nat));
}

/// The clipboard readout, or `None` when there is nothing to show. Every
/// readout a language shows has the same number of characters.
pub fn readout(length: ClipboardLength, chinese: bool) -> (text: Option<String>)
    ensures
        match readout_text(length, chinese) {
            Some(t) => text matches Some(s) && s@ == t,
            None => text is None,
        },
        text matches Some(s) ==> s@.len() == readout_label(chinese).len() + 8,
{
    let label = if chinese { "剪贴板" } else { "Clip" };
    proof {
        reveal_strlit(">8MB");
        reveal_strlit(" >999999");
        reveal_strlit(" ");
    }
    match length {
        ClipboardLength::NoText => None,
        ClipboardLength::Chars(n) => {
            let mut s = label.to_owned();
            if n > 999999 {
                push_str(&mut s, " >999999");
            } else {
                push_str(&mut s, " ");
                let digits = decimal(n as u64);
                proof {
                    reveal_with_fuel(pow10, 7);
                    assert(pow10(6) == 1000000);
                    lemma_decimal_len(n as nat, 6);
                }
                push_right_aligned(&mut s, digits.as_str(), 7);
            }
            Some(s)
        },
        ClipboardLength::Over => {
            let mut s = label.to_owned();
            push_str(&mut s, " ");
            push_right_aligned(&mut s, ">8MB", 7);
            Some(s)
        },
    }
}

/// Where a label of `label_width` by `label_height` sits inside `button`:
/// centred where it fits (an odd pixel of slack going to the right and
/// bottom), and pinned to the button's origin where it does not, so it never
/// starts before the button.
pub fn centered_label_origin(button: Rect, label_width: u32, label_height: u32) -> (origin: (u32, u32))
    ensures
        origin.0 == if button.x + (if button.width >= label_width {
            button.width - label_width
        } else {
            0
        }) / 2 <= u32::MAX {
            button.x + (if button.width >= label_width {
                button.width - label_width
            } else {
                0
            }) / 2
        } else {
            u32::MAX as int
        },
        origin.1 == if button.y + (if button.height >= label_height {
            button.height - label_height
        } else {
            0
        }) / 2 <= u32::MAX {
            button.y + (if button.height >= label_height {
                button.height - label_height
            } else {
                0
            }) / 2
        } else {
            u32::MAX as int
        },
        origin.0 >= button.x && origin.1 >= button.y,
        label_width <= button.width && button.x + button.width <= u32::MAX ==> origin.0
            + label_width <= button.x + button.width,
        label_height <= button.height && button.y + button.height <= u32::MAX ==> origin.1
            + label_height <= button.y + button.height,
{
    let x = button.x.saturating_add(button.width.saturating_sub(label_width) / 2);
    let y = button.y.saturating_add(button.height.saturating_sub(label_height) / 2);
    (x, y)
}

/// What the clipboard readout observed this frame: the generation counter of
/// the host's own clipboard writes and the length of the last one, the
/// platform's change counter where it has one, and the outcome of the read
/// in flight.
pub struct ClipboardObservation {
    pub own_write_generation: u64,
    pub own_write_chars: Option<usize>,
    pub change_count: Option<u64>,
    /// `None` while the read in flight has not finished (or none is in
    /// flight); the length it measured once it has.
    pub read_result: Option<ClipboardLength>,
}

/// What a poll asks of its caller.
#[derive(Clone, Copy, Debug, PartialEq, Eq, Structural)]
pub struct ClipboardPoll {
    /// What the readout shows changed: repaint.
    pub changed: bool,
    /// Start a read of at most `MEASURE_LIMIT_BYTES` and hand it to
    /// `read_started`.
    pub start_read: bool,
}

/// When the status bar re-reads the clipboard's length: on the host's own
/// writes (whose length is known without reading), when the platform's change
/// counter moves, and when a refresh is asked for. `R` is a read in flight.
pub struct ClipboardStatus<R> {
    length: ClipboardLength,
    seen_change: Option<u64>,
    seen_own_write: u64,
    pending: Option<R>,
    refresh_requested: bool,
}

impl<R> ClipboardStatus<R> {
    pub closed spec fn spec_length(&self) -> ClipboardLength {
        self.length
    }

    pub closed spec fn spec_seen_change(&self) -> Option<u64> {
        self.seen_change
    }

    pub closed spec fn spec_seen_own_write(&self) -> u64 {
        self.seen_own_write
    }

    pub closed spec fn spec_pending(&self) -> Option<R> {
        self.pending
    }

    pub closed spec fn spec_refresh_requested(&self) -> bool {
        self.refresh_requested
    }

    /// Nothing known yet; the first poll reads.
    pub fn new(own_write_generation: u64) -> (status: Self)
        ensures
            status.spec_length() == ClipboardLength::NoText,
            status.spec_seen_change() is None,
            status.spec_seen_own_write() == own_write_generation,
            status.spec_pending() is None,
            status.spec_refresh_requested(),
    {
        ClipboardStatus {
            length: ClipboardLength::NoText,
            seen_change: None,
            seen_own_write: own_write_generation,
            pending: None,
            refresh_requested: true,
        }
    }

    pub fn length(&self) -> (length: ClipboardLength)
        ensures
            length == self.spec_length(),
    {
        self.length
    }

    /// Re-read on the next poll even if no counter moved.
    pub fn request_refresh(&mut self)
        ensures
            final(self).spec_refresh_requested(),
            final(self).spec_length() == old(self).spec_length(),
            final(self).spec_seen_change() == old(self).spec_seen_change(),
            final(self).spec_seen_own_write() == old(self).spec_seen_own_write(),
            final(self).spec_pending() == old(self).spec_pending(),
    {
        self.refresh_requested = true;
    }

    /// Whether a read is in flight, so the caller can poll it.
    pub fn has_pending_read(&self) -> (pending: bool)
        ensures
            pending == self.spec_pending() is Some,
    {
        self.pending.is_some()
    }

    /// Records the read the caller started, if it could start one.
    pub fn read_started(&mut self, read: Option<R>)
        ensures
            final(self).spec_pending() == read,
            final(self).spec_length() == old(self).spec_length(),
            final(self).spec_seen_change() == old(self).spec_seen_change(),
            final(self).spec_seen_own_write() == old(self).spec_seen_own_write(),
            final(self).spec_refresh_requested() == old(self).spec_refresh_requested(),
    {
        self.pending = read;
    }

    /// Advances the readout. A write of the host's own is shown at once with
    /// its known length and cancels any read; else a finished read is shown;
    /// else a moved change counter or a requested refresh starts a read.
    pub fn poll(&mut self, seen: &ClipboardObservation) -> (outcome: ClipboardPoll)
        ensures
            seen.own_write_generation != old(self).spec_seen_own_write() ==> {
                &&& final(self).spec_seen_own_write() == seen.own_write_generation
                &&& final(self).spec_length() == match seen.own_write_chars {
                    Some(n) => ClipboardLength::Chars(n),
                    None => old(self).spec_length(),
                }
                &&& final(self).spec_seen_change() == seen.change_count
                &&& final(self).spec_pending() is None
                &&& !final(self).spec_refresh_requested()
                &&& !outcome.start_read
            },
            seen.own_write_generation == old(self).spec_seen_own_write() && old(self).spec_pending() is Some ==> {
                &&& !outcome.start_read
                &&& final(self).spec_seen_change() == old(self).spec_seen_change()
                &&& final(self).spec_refresh_requested() == old(self).spec_refresh_requested()
                &&& match seen.read_result {
                    Some(length) => final(self).spec_length() == length && final(self).spec_pending() is None,
                    None => final(self).spec_length() == old(self).spec_length() && final(self).spec_pending() == old(self).spec_pending(),
                }
            },
            seen.own_write_generation == old(self).spec_seen_own_write() && old(self).spec_pending() is None ==> {
                let moved = seen.change_count is Some && seen.change_count != old(self).spec_seen_change();
                &&& outcome.start_read == (moved || old(self).spec_refresh_requested())
                &&& final(self).spec_length() == old(self).spec_length()
                &&& final(self).spec_pending() is None
                &&& outcome.start_read ==> final(self).spec_seen_change() == seen.change_count && !final(self).spec_refresh_requested()
                &&& !outcome.start_read ==> final(self).spec_seen_change() == old(self).spec_seen_change() && final(self).spec_refresh_requested() == old(self).spec_refresh_requested()
            },
            final(self).spec_seen_own_write() == seen.own_write_generation,
            outcome.changed == (final(self).spec_length() != old(self).spec_length()),
    {
        let before = self.length;
        if seen.own_write_generation != self.seen_own_write {
            self.seen_own_write = seen.own_write_generation;
            if let Some(chars) = seen.own_write_chars {
                self.length = ClipboardLength::Chars(chars);
            }
            self.seen_change = seen.change_count;
            self.pending = None;
            self.refresh_requested = false;
            return ClipboardPoll { changed: !same_length(self.length, before), start_read: false };
        }
        if self.pending.is_some() {
            match seen.read_result {
                Some(length) => {
                    self.pending = None;
                    self.length = length;
                },
                None => {},
            }
            return ClipboardPoll { changed: !same_length(self.length, before), start_read: false };
        }
        let moved = match seen.change_count {
            Some(count) => match self.seen_change {
                Some(old_count) => count != old_count,
                None => true,
            },
            None => false,
        };
        let start_read = moved || self.refresh_requested;
        if start_read {
            self.seen_change = seen.change_count;
            self.refresh_requested = false;
        }
        ClipboardPoll { changed: !same_length(self.length, before), start_read }
    }
}

fn same_length(a: ClipboardLength, b: ClipboardLength) -> (same: bool)
    ensures
        same == (a == b),
{
    match (a, b) {
        (ClipboardLength::NoText, ClipboardLength::NoText) => true,
        (ClipboardLength::Over, ClipboardLength::Over) => true,
        (ClipboardLength::Chars(x), ClipboardLength::Chars(y)) => x == y,
        _ => false,
    }
}

} // verus!
