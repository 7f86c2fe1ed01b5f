//! Single-line composer editing rules: text and selection changes, and the
//! window of the line that fits the box it is painted in.

use vstd::prelude::*;
use vstd::utf8::*;
use crate::text::{
    byte_len, char_len_utf8, chars_of, lemma_utf8_len_at_least, lemma_utf8_len_push, push_char,
    utf8_width,
};

verus! {

/// Bytes a paste may add at most.
pub const PASTE_LIMIT_BYTES: usize = 65536;

/// Bytes the composer holds at most.
pub const COMPOSER_LIMIT_BYTES: usize = 65536;

/// Bytes in the UTF-8 encoding of `s`.
pub open spec fn utf8_bytes(s: Seq<char>) -> nat {
    encode_utf8(s).len()
}

/// What `unicode_width::UnicodeWidthChar::width` gives for `c`: its display
/// width in columns, or `None` for a control character.
pub uninterp spec fn unicode_char_width(c: char) -> Option<usize>;

/// `unicode_width::UnicodeWidthChar::width`. Its tables are named, not
/// restated; the crate's source answers ASCII directly: `None` below U+0020
/// and one column from U+0020 up to U+007E.
#[verifier::external_body]
fn unicode_width_of(c: char) -> (width: Option<usize>)
    ensures
        width == unicode_char_width(c),
        (c as u32) < 0x20 ==> width is None,
        0x20 <= (c as u32) < 0x7f ==> width == Some(1usize),
{
    unicode_width::UnicodeWidthChar::width(c)
}

/// Cells a character owns when painted: two when it is wide, else one.
/// Printable ASCII is one column wide, so it owns one cell.
pub open spec fn char_cells(c: char) -> nat {
    if 0x20 <= (c as u32) < 0x7f {
        1
    } else if unicode_char_width(c) matches Some(w) && w > 1 {
        2
    } else {
        1
    }
}

/// Painted width of `s`, in cells.
pub open spec fn cells_of(s: Seq<char>) -> nat
    decreases s.len(),
{
    if s.len() == 0 {
        0
    } else {
        char_cells(s[0]) + cells_of(s.drop_first())
    }
}

/// The painter's own width rule, so the measurement here and the advance
/// there cannot disagree: a double-width character owns two cells.
pub fn character_cells(c: char) -> (n: usize)
    ensures
        n == char_cells(c),
        0x20 <= (c as u32) < 0x7f ==> n == 1,
{
    match unicode_width_of(c) {
        Some(w) => if w > 1 { 2 } else { 1 },
        None => 1,
    }
}

proof fn lemma_cells_step(s: Seq<char>, i: int)
    requires
        0 < i <= s.len(),
    ensures
        cells_of(s.skip(i - 1)) == char_cells(s[i - 1]) + cells_of(s.skip(i)),
{
    assert(s.skip(i - 1).drop_first() =~= s.skip(i));
}

/// Total painted width of `text`, in cells.
pub fn cells(text: &str) -> (n: usize)
    ensures
        n == cells_of(text@),
{
    let total_bytes = byte_len(text);
    let chars = chars_of(text);
    proof {
        lemma_utf8_len_at_least(text@);
    }
    let mut i: usize = chars.len();
    let mut total: usize = 0;
    assert(text@.skip(i as int) =~= Seq::<char>::empty());
    while i > 0
        invariant
            chars@ == text@,
            i <= chars@.len(),
            chars@.len() <= total_bytes,
            total_bytes as int <= isize::MAX as int,
            total == cells_of(text@.skip(i as int)),
            total <= 2 * (chars@.len() - i),
        decreases i,
    {
        proof {
            lemma_cells_step(text@, i as int);
        }
        total = total + character_cells(chars[i - 1]);
        i = i - 1;
    }
    assert(text@.skip(0) =~= text@);
    total
}

/// How many characters at the end of `s` fit in `budget` cells, taken from
/// the end until the first one that does not fit.
pub open spec fn tail_fit(s: Seq<char>, budget: nat) -> nat
    decreases s.len(),
{
    if s.len() == 0 || char_cells(s.last()) > budget {
        0
    } else {
        1 + tail_fit(s.drop_last(), (budget - char_cells(s.last())) as nat)
    }
}

proof fn lemma_tail_fit_bound(s: Seq<char>, budget: nat)
    ensures
        tail_fit(s, budget) <= s.len(),
    decreases s.len(),
{
    if s.len() > 0 && char_cells(s.last()) <= budget {
        lemma_tail_fit_bound(s.drop_last(), (budget - char_cells(s.last())) as nat);
    }
}

/// Walks backwards from the end of `text`, returning the byte offset of the
/// first character that still fits in `budget` and charging what it consumed.
fn tail_offset(text: &str, budget: &mut usize) -> (offset: usize)
    ensures
        tail_fit(text@, *old(budget) as nat) <= text@.len(),
        offset == utf8_bytes(text@.take(text@.len() - tail_fit(text@, *old(budget) as nat))),
        *final(budget) + cells_of(text@.skip(text@.len() - tail_fit(text@, *old(budget) as nat)))
            == *old(budget),
{
    let ghost s = text@;
    let ghost b0 = *budget as nat;
    let chars = chars_of(text);
    let mut offset = byte_len(text);
    let mut i: usize = chars.len();
    let mut done = false;
    assert(s.take(i as int) =~= s);
    assert(s.skip(i as int) =~= Seq::<char>::empty());
    while i > 0 && !done
        invariant
            chars@ == s,
            i <= s.len(),
            offset == utf8_bytes(s.take(i as int)),
            tail_fit(s, b0) == (s.len() - i) + if done {
                0
            } else {
                tail_fit(s.take(i as int), *budget as nat)
            },
            *budget + cells_of(s.skip(i as int)) == b0,
        decreases i + if done { 0int } else { 1int },
    {
        let c = chars[i - 1];
        let n = character_cells(c);
        assert(s.take(i as int).drop_last() =~= s.take(i - 1));
        assert(s.take(i as int).last() == c);
        if n > *budget {
            done = true;
        } else {
            proof {
                lemma_cells_step(s, i as int);
                lemma_utf8_len_push(s.take(i - 1), c);
                assert(s.take(i - 1).push(c) =~= s.take(i as int));
            }
            *budget = *budget - n;
            offset = offset - char_len_utf8(c);
            i = i - 1;
        }
    }
    proof {
        if !done {
            assert(s.take(0) =~= Seq::<char>::empty());
        }
    }
    offset
}

proof fn lemma_cells_push(s: Seq<char>, c: char)
    ensures
        cells_of(s.push(c)) == cells_of(s) + char_cells(c),
    decreases s.len(),
{
    assert(s.push(c)[0] == if s.len() == 0 { c } else { s[0] });
    if s.len() == 0 {
        assert(s.push(c).drop_first() =~= Seq::<char>::empty());
        assert(cells_of(Seq::<char>::empty()) == 0);
    } else {
        lemma_cells_push(s.drop_first(), c);
        assert(s.push(c).drop_first() =~= s.drop_first().push(c));
    }
}

/// The window shows the end of the text, as much of it as fits: the shown
/// tail fits the budget, and one character more would not.
pub proof fn law_shown_tail_is_the_longest_that_fits(s: Seq<char>, budget: nat)
    ensures
        tail_fit(s, budget) <= s.len(),
        cells_of(s.skip(s.len() - tail_fit(s, budget))) <= budget,
        tail_fit(s, budget) < s.len() ==> cells_of(s.skip(s.len() - tail_fit(s, budget) - 1))
            > budget,
    decreases s.len(),
{
    let k = tail_fit(s, budget);
    if s.len() == 0 {
        assert(s.skip(0) =~= Seq::<char>::empty());
    } else {
        let front = s.drop_last();
        let c = s.last();
        if char_cells(c) > budget {
            assert(s.skip(s.len() - 0) =~= Seq::<char>::empty());
            assert(s.skip(s.len() - 1) =~= seq![c]);
            assert(seq![c].drop_first() =~= Seq::<char>::empty());
        } else {
            let b2 = (budget - char_cells(c)) as nat;
            law_shown_tail_is_the_longest_that_fits(front, b2);
            let k2 = tail_fit(front, b2);
            assert(s.skip(s.len() - k) =~= front.skip(front.len() - k2).push(c));
            lemma_cells_push(front.skip(front.len() - k2), c);
            if k < s.len() {
                assert(s.skip(s.len() - k - 1) =~= front.skip(front.len() - k2 - 1).push(c));
                lemma_cells_push(front.skip(front.len() - k2 - 1), c);
            }
        }
    }
}

/// Where the painted window into a single-line composer begins.
///
/// Every edit happens at the end, so the end is the span worth showing: the
/// offsets slide the window to keep it in the box.
#[derive(Clone, Copy, Debug, PartialEq, Eq, Structural)]
pub struct VisibleWindow {
    /// Byte offset into the committed text where painting starts.
    pub text: usize,
    /// Byte offset into the IME preedit where painting starts. Nonzero only
    /// when the preedit alone already fills the box.
    pub preedit: usize,
    /// Whether anything was scrolled out of view.
    pub truncated: bool,
}

impl Default for VisibleWindow {
    fn default() -> (window: VisibleWindow)
        ensures
            window == (VisibleWindow { text: 0, preedit: 0, truncated: false }),
    {
        VisibleWindow { text: 0, preedit: 0, truncated: false }
    }
}

pub open spec fn sat_sub(a: nat, b: nat) -> nat {
    if a >= b {
        (a - b) as nat
    } else {
        0
    }
}

/// Characters of the preedit that stay visible in `budget` cells.
pub open spec fn shown_preedit(preedit: Seq<char>, budget: nat) -> nat {
    tail_fit(preedit, budget)
}

/// Characters of the committed text that stay visible: none once the preedit
/// did not fit whole, else those that fit in what the preedit left.
pub open spec fn shown_text(text: Seq<char>, preedit: Seq<char>, budget: nat) -> nat {
    if shown_preedit(preedit, budget) < preedit.len() {
        0
    } else {
        tail_fit(text, sat_sub(budget, cells_of(preedit)))
    }
}

/// Whether a window measured with `budget` cells hides anything.
pub open spec fn hides(text: Seq<char>, preedit: Seq<char>, budget: nat) -> bool {
    shown_preedit(preedit, budget) < preedit.len() || shown_text(text, preedit, budget) < text.len()
}

/// The cells the window is finally measured with: what `reserved` leaves of
/// `cells`, less one for the marker when something is hidden.
pub open spec fn window_budget(text: Seq<char>, preedit: Seq<char>, reserved: nat, cells: nat) -> nat {
    let whole = sat_sub(cells, reserved);
    if hides(text, preedit, whole) {
        sat_sub(whole, 1)
    } else {
        whole
    }
}

/// The window measured with `budget` cells.
pub open spec fn window_with(text: Seq<char>, preedit: Seq<char>, budget: nat) -> (nat, nat, bool) {
    let pk = shown_preedit(preedit, budget);
    let tk = shown_text(text, preedit, budget);
    (
        utf8_bytes(text.take(text.len() - tk)),
        utf8_bytes(preedit.take(preedit.len() - pk)),
        hides(text, preedit, budget),
    )
}

proof fn lemma_tail_cells(s: Seq<char>, k: nat)
    requires
        k == s.len(),
    ensures
        s.skip(s.len() - k) =~= s,
        s.take(s.len() - k) =~= Seq::<char>::empty(),
{
}

fn measure(text: &str, preedit: &str, budget: usize) -> (window: VisibleWindow)
    ensures
        (window.text as nat, window.preedit as nat, window.truncated) == window_with(
            text@,
            preedit@,
            budget as nat,
        ),
        cells_of(text@.skip(text@.len() - shown_text(text@, preedit@, budget as nat)))
            + cells_of(preedit@.skip(preedit@.len() - shown_preedit(preedit@, budget as nat)))
            <= budget,
        window.truncated == (window.text > 0 || window.preedit > 0),
        window.preedit > 0 ==> window.text == utf8_bytes(text@),
{
    let mut left = budget;
    let preedit_offset = tail_offset(preedit, &mut left);
    let ghost pk = tail_fit(preedit@, budget as nat);
    proof {
        lemma_utf8_len_at_least(preedit@.take(preedit@.len() - pk));
        lemma_utf8_len_at_least(text@);
        if pk == preedit@.len() {
            lemma_tail_cells(preedit@, pk);
        }
    }
    let text_offset = if preedit_offset > 0 {
        proof {
            assert(text@.skip(text@.len() as int) =~= Seq::<char>::empty());
            assert(text@.take(text@.len() as int) =~= text@);
        }
        byte_len(text)
    } else {
        tail_offset(text, &mut left)
    };
    proof {
        let tk = shown_text(text@, preedit@, budget as nat);
        lemma_utf8_len_at_least(text@.take(text@.len() - tk));
    }
    VisibleWindow {
        text: text_offset,
        preedit: preedit_offset,
        truncated: text_offset > 0 || preedit_offset > 0,
    }
}

/// The window of `text` followed by `preedit` that fits a box `cells` wide,
/// of which `reserved` cells are already claimed (the caret, decoration).
///
/// A truncated window is measured twice: the first pass discovers that
/// something was hidden, the second pays a cell for the marker that says so.
pub fn visible_window(text: &str, preedit: &str, reserved: usize, cells: usize) -> (window:
    VisibleWindow)
    ensures
        ({
            let budget = window_budget(text@, preedit@, reserved as nat, cells as nat);
            (window.text as nat, window.preedit as nat, window.truncated) == window_with(
                text@,
                preedit@,
                budget,
            )
        }),
        window.truncated == (window.text > 0 || window.preedit > 0),
        window.preedit > 0 ==> window.text == utf8_bytes(text@),
        ({
            let budget = window_budget(text@, preedit@, reserved as nat, cells as nat);
            let shown = cells_of(
                text@.skip(text@.len() - shown_text(text@, preedit@, budget)),
            ) + cells_of(preedit@.skip(preedit@.len() - shown_preedit(preedit@, budget)));
            &&& shown <= sat_sub(cells as nat, reserved as nat)
            &&& reserved < cells ==> (if window.truncated { 1nat } else { 0nat }) + shown
                + reserved <= cells
        }),
{
    let whole = cells.saturating_sub(reserved);
    let window = measure(text, preedit, whole);
    if window.truncated {
        measure(text, preedit, whole.saturating_sub(1))
    } else {
        window
    }
}

/// How many leading characters of `t` fit in `room` bytes.
pub open spec fn fit_prefix(t: Seq<char>, room: nat) -> nat
    decreases t.len(),
{
    if t.len() == 0 || utf8_width(t[0]) > room {
        0
    } else {
        1 + fit_prefix(t.drop_first(), (room - utf8_width(t[0])) as nat)
    }
}

/// The buffer an edit starts from: empty when the whole buffer was selected.
pub open spec fn edit_base(buffer: Seq<char>, selected: bool) -> Seq<char> {
    if selected {
        Seq::empty()
    } else {
        buffer
    }
}

/// The buffer after inserting `t`: as much of `t` as the byte limit leaves
/// room for, cut at a character boundary.
pub open spec fn inserted(buffer: Seq<char>, selected: bool, t: Seq<char>) -> Seq<char> {
    let base = edit_base(buffer, selected);
    base + t.take(fit_prefix(t, sat_sub(COMPOSER_LIMIT_BYTES as nat, utf8_bytes(base))) as int)
}

proof fn lemma_fit_prefix_step(t: Seq<char>, i: int, room: nat, used: nat)
    requires
        0 <= i < t.len(),
        used + utf8_width(t[i]) <= room,
    ensures
        fit_prefix(t.skip(i), (room - used) as nat) == 1 + fit_prefix(
            t.skip(i + 1),
            (room - used - utf8_width(t[i])) as nat,
        ),
{
    assert(t.skip(i).drop_first() =~= t.skip(i + 1));
}

/// The longest prefix of `t` that fits in `room` bytes: none longer fits.
pub proof fn lemma_fit_prefix_longest(t: Seq<char>, room: nat)
    ensures
        fit_prefix(t, room) <= t.len(),
        utf8_bytes(t.take(fit_prefix(t, room) as int)) <= room,
        fit_prefix(t, room) < t.len() ==> utf8_bytes(t.take(fit_prefix(t, room) + 1int)) > room,
    decreases t.len(),
{
    let k = fit_prefix(t, room);
    if t.len() == 0 {
        assert(t.take(0) =~= Seq::<char>::empty());
    } else if utf8_width(t[0]) > room {
        assert(t.take(0) =~= Seq::<char>::empty());
        assert(t.take(1) =~= seq![t[0]]);
        crate::text::lemma_utf8_width_single(t[0]);
    } else {
        let rest = t.drop_first();
        let r2 = (room - utf8_width(t[0])) as nat;
        lemma_fit_prefix_longest(rest, r2);
        crate::text::lemma_utf8_width_single(t[0]);
        crate::text::lemma_encode_utf8_concat(seq![t[0]], rest.take(k - 1));
        assert(t.take(k as int) =~= seq![t[0]] + rest.take(k - 1));
        if k < t.len() {
            crate::text::lemma_encode_utf8_concat(seq![t[0]], rest.take(k as int));
            assert(t.take(k + 1int) =~= seq![t[0]] + rest.take(k as int));
        }
    }
}

/// Clears a selected buffer before an edit; true when it did.
fn prepare_edit(buffer: &mut String, selected: &mut bool) -> (cleared: bool)
    ensures
        cleared == *old(selected),
        final(buffer)@ == edit_base(old(buffer)@, *old(selected)),
        *final(selected) == false,
{
    if *selected {
        *buffer = String::new();
        *selected = false;
        true
    } else {
        false
    }
}

/// Appends as much of `text` as the composer's byte limit leaves room for,
/// never splitting a character; a selection is replaced.
pub fn insert(buffer: &mut String, selected: &mut bool, text: &str)
    ensures
        final(buffer)@ == inserted(old(buffer)@, *old(selected), text@),
        *final(selected) == false,
        utf8_bytes(edit_base(old(buffer)@, *old(selected))) <= COMPOSER_LIMIT_BYTES ==> utf8_bytes(
            final(buffer)@,
        ) <= COMPOSER_LIMIT_BYTES,
{
    prepare_edit(buffer, selected);
    let ghost base = buffer@;
    let used = byte_len(buffer.as_str());
    let remaining = COMPOSER_LIMIT_BYTES.saturating_sub(used);
    let ghost room = remaining as nat;
    let chars = chars_of(text);
    let ghost t = text@;
    let mut i: usize = 0;
    let mut taken: usize = 0;
    let mut done = false;
    assert(t.skip(0) =~= t);
    assert(t.take(0) =~= Seq::<char>::empty());
    assert(base + t.take(0) =~= base);
    while i < chars.len() && !done
        invariant
            chars@ == t,
            room == remaining as nat,
            i <= t.len(),
            taken == utf8_bytes(t.take(i as int)),
            taken <= remaining,
            buffer@ == base + t.take(i as int),
            fit_prefix(t, room) == i + if done {
                0
            } else {
                fit_prefix(t.skip(i as int), (room - taken) as nat)
            },
        decreases t.len() - i + if done { 0int } else { 1int },
    {
        let c = chars[i];
        let w = char_len_utf8(c);
        assert(c == t[i as int]);
        if w > remaining - taken {
            assert(t.skip(i as int)[0] == c);
            assert(utf8_width(c) > (room - taken) as nat);
            assert(fit_prefix(t.skip(i as int), (room - taken) as nat) == 0);
            done = true;
        } else {
            proof {
                lemma_fit_prefix_step(t, i as int, room, taken as nat);
                lemma_utf8_len_push(t.take(i as int), c);
                assert(t.take(i as int).push(c) =~= t.take(i + 1));
            }
            push_char(buffer, c);
            taken = taken + w;
            i = i + 1;
        }
    }
    proof {
        if !done {
            assert(t.skip(i as int) =~= Seq::<char>::empty());
        }
        crate::text::lemma_encode_utf8_concat(base, t.take(i as int));
    }
}

/// Deletes the selection, or else the last character.
pub fn backspace(buffer: &mut String, selected: &mut bool)
    ensures
        *final(selected) == false,
        final(buffer)@ == if *old(selected) {
            Seq::empty()
        } else if old(buffer)@.len() == 0 {
            old(buffer)@
        } else {
            old(buffer)@.drop_last()
        },
{
    if !prepare_edit(buffer, selected) {
        crate::text::pop_char(buffer);
    }
}

/// Selects the whole buffer, which only a non-empty buffer can be.
pub fn select_all(buffer: &str, selected: &mut bool)
    ensures
        *final(selected) == (buffer@.len() > 0),
{
    *selected = !buffer.is_empty();
}

/// The selected text, when there is a selection to copy.
pub fn selected_text<'a>(buffer: &'a str, selected: &bool) -> (text: Option<&'a str>)
    ensures
        text == if *selected && buffer@.len() > 0 {
            Some(buffer)
        } else {
            None
        },
{
    if *selected && !buffer.is_empty() {
        Some(buffer)
    } else {
        None
    }
}

/// Takes the selected buffer out, leaving it empty.
pub fn cut(buffer: &mut String, selected: &mut bool) -> (taken: Option<String>)
    ensures
        taken is Some <==> (*old(selected) && old(buffer)@.len() > 0),
        taken matches Some(t) ==> t@ == old(buffer)@ && final(buffer)@.len() == 0
            && *final(selected) == false,
        taken is None ==> final(buffer)@ == old(buffer)@ && *final(selected) == *old(selected),
{
    if *selected && !buffer.as_str().is_empty() {
        *selected = false;
        let mut out = String::new();
        std::mem::swap(buffer, &mut out);
        Some(out)
    } else {
        None
    }
}

/// `char::is_control`: the general category Cc, which is U+0000..=U+001F and
/// U+007F..=U+009F.
pub open spec fn is_control(c: char) -> bool {
    (c as u32) <= 0x1f || (0x7f <= (c as u32) && (c as u32) <= 0x9f)
}

/// Line breaks and tabs, which a single line shows as one space.
pub open spec fn is_line_break_or_tab(c: char) -> bool {
    c == '\r' || c == '\n' || c == '\t'
}

/// Normalises `rest` onto `out`, where `after_space` says whether `out` ends
/// in a space.
pub open spec fn normalize_from(rest: Seq<char>, out: Seq<char>, after_space: bool) -> Seq<char>
    decreases rest.len(),
{
    if rest.len() == 0 {
        out
    } else {
        let c = rest[0];
        let tail = rest.drop_first();
        if utf8_bytes(out) + utf8_width(c) > PASTE_LIMIT_BYTES {
            out
        } else if is_line_break_or_tab(c) || c == ' ' {
            if after_space {
                normalize_from(tail, out, true)
            } else {
                normalize_from(tail, out.push(' '), true)
            }
        } else if is_control(c) {
            normalize_from(tail, out, after_space)
        } else {
            normalize_from(tail, out.push(c), false)
        }
    }
}

/// `t` as one line: line breaks and tabs become spaces, runs of spaces
/// collapse to one, other control characters go, and the result stops before
/// the first character that would take it past the paste limit.
pub open spec fn normalized(t: Seq<char>) -> Seq<char> {
    normalize_from(t, Seq::empty(), false)
}

/// What one line may hold: no control character, no two spaces in a row, and
/// no more bytes than the paste limit.
pub open spec fn is_single_line(s: Seq<char>) -> bool {
    &&& forall|i: int| 0 <= i < s.len() ==> !is_control(#[trigger] s[i])
    &&& forall|i: int| 0 <= i < s.len() - 1 ==> !(#[trigger] s[i] == ' ' && s[i + 1] == ' ')
    &&& utf8_bytes(s) <= PASTE_LIMIT_BYTES
}

proof fn lemma_normalize_from_single_line(rest: Seq<char>, out: Seq<char>, after_space: bool)
    requires
        is_single_line(out),
        after_space == (out.len() > 0 && out.last() == ' '),
    ensures
        is_single_line(normalize_from(rest, out, after_space)),
    decreases rest.len(),
{
    if rest.len() > 0 {
        let c = rest[0];
        let tail = rest.drop_first();
        if utf8_bytes(out) + utf8_width(c) > PASTE_LIMIT_BYTES {
        } else if is_line_break_or_tab(c) || c == ' ' {
            if after_space {
                lemma_normalize_from_single_line(tail, out, true);
            } else {
                lemma_utf8_len_push(out, ' ');
                let next = out.push(' ');
                assert forall|i: int| 0 <= i < next.len() - 1 implies !(#[trigger] next[i] == ' '
                    && next[i + 1] == ' ') by {
                    if i == out.len() - 1 {
                        assert(next[i] == out.last());
                    } else {
                        assert(next[i] == out[i] && next[i + 1] == out[i + 1]);
                    }
                }
                assert(forall|i: int| 0 <= i < out.len() ==> next[i] == out[i]);
                lemma_normalize_from_single_line(tail, next, true);
            }
        } else if is_control(c) {
            lemma_normalize_from_single_line(tail, out, after_space);
        } else {
            lemma_utf8_len_push(out, c);
            let next = out.push(c);
            assert(forall|i: int| 0 <= i < out.len() ==> next[i] == out[i]);
            assert forall|i: int| 0 <= i < next.len() - 1 implies !(#[trigger] next[i] == ' '
                && next[i + 1] == ' ') by {
                if i < out.len() - 1 {
                    assert(next[i] == out[i] && next[i + 1] == out[i + 1]);
                }
            }
            lemma_normalize_from_single_line(tail, next, false);
        }
    }
}

/// Whatever goes in, normalising yields a single line.
pub proof fn law_normalized_is_single_line(t: Seq<char>)
    ensures
        is_single_line(normalized(t)),
{
    assert(utf8_bytes(Seq::<char>::empty()) == 0) by {
        lemma_utf8_len_at_least(Seq::<char>::empty());
    }
    lemma_normalize_from_single_line(t, Seq::empty(), false);
}

proof fn lemma_normalize_keeps_single_line(rest: Seq<char>, out: Seq<char>, after_space: bool)
    requires
        is_single_line(out + rest),
        after_space == (out.len() > 0 && out.last() == ' '),
    ensures
        normalize_from(rest, out, after_space) == out + rest,
    decreases rest.len(),
{
    let whole = out + rest;
    if rest.len() == 0 {
        assert(whole =~= out);
    } else {
        let c = rest[0];
        let tail = rest.drop_first();
        let next = out.push(c);
        assert(next + tail =~= whole);
        assert(whole[out.len() as int] == c);
        crate::text::lemma_encode_utf8_concat(next, tail);
        lemma_utf8_len_push(out, c);
        assert(!is_control(c));
        if c == ' ' && after_space {
            assert(whole[out.len() - 1] == out.last());
            assert(whole[out.len() - 1] == ' ' && whole[out.len() - 1 + 1] == ' ');
        }
        lemma_normalize_keeps_single_line(tail, next, c == ' ');
    }
}

/// A line that is already single-line normalises to itself.
pub proof fn law_single_line_is_normalized(s: Seq<char>)
    requires
        is_single_line(s),
    ensures
        normalized(s) == s,
{
    assert(Seq::<char>::empty() + s =~= s);
    lemma_normalize_keeps_single_line(s, Seq::empty(), false);
}

/// Normalising twice changes nothing: writing back what `replace_text`
/// left in the buffer leaves it as it is.
pub proof fn law_normalizing_twice_changes_nothing(t: Seq<char>)
    ensures
        normalized(normalized(t)) == normalized(t),
{
    law_normalized_is_single_line(t);
    law_single_line_is_normalized(normalized(t));
}

fn is_control_char(c: char) -> (b: bool)
    ensures
        b == is_control(c),
{
    let v = c as u32;
    v <= 0x1f || (0x7f <= v && v <= 0x9f)
}

/// Makes pasted or bus-written text fit the single-line composer.
pub fn normalize_single_line(text: &str) -> (normalized_text: String)
    ensures
        normalized_text@ == normalized(text@),
        is_single_line(normalized_text@),
{
    let chars = chars_of(text);
    let ghost t = text@;
    let mut out = String::new();
    let mut out_bytes: usize = 0;
    let mut after_space = false;
    let mut i: usize = 0;
    let mut done = false;
    proof {
        lemma_utf8_len_at_least(Seq::<char>::empty());
        assert(t.skip(0) =~= t);
    }
    while i < chars.len() && !done
        invariant
            chars@ == t,
            i <= t.len(),
            out_bytes == utf8_bytes(out@),
            out_bytes <= PASTE_LIMIT_BYTES,
            normalized(t) == if done {
                out@
            } else {
                normalize_from(t.skip(i as int), out@, after_space)
            },
        decreases t.len() - i + if done { 0int } else { 1int },
    {
        let c = chars[i];
        let ghost rest = t.skip(i as int);
        assert(rest[0] == c);
        assert(rest.drop_first() =~= t.skip(i + 1));
        let w = char_len_utf8(c);
        if out_bytes + w > PASTE_LIMIT_BYTES {
            done = true;
        } else {
            if c == '\r' || c == '\n' || c == '\t' || c == ' ' {
                if !after_space {
                    proof {
                        lemma_utf8_len_push(out@, ' ');
                    }
                    push_char(&mut out, ' ');
                    out_bytes = out_bytes + 1;
                    after_space = true;
                }
            } else if !is_control_char(c) {
                proof {
                    lemma_utf8_len_push(out@, c);
                }
                push_char(&mut out, c);
                out_bytes = out_bytes + w;
                after_space = false;
            }
            i = i + 1;
        }
    }
    proof {
        if !done {
            assert(t.skip(i as int) =~= Seq::<char>::empty());
        }
        law_normalized_is_single_line(t);
    }
    out
}

/// Pastes `text` as one line; a paste that normalises to nothing changes
/// nothing.
pub fn paste(buffer: &mut String, selected: &mut bool, text: &str)
    ensures
        normalized(text@).len() == 0 ==> final(buffer)@ == old(buffer)@ && *final(selected)
            == *old(selected),
        normalized(text@).len() > 0 ==> final(buffer)@ == inserted(
            old(buffer)@,
            *old(selected),
            normalized(text@),
        ) && *final(selected) == false,
{
    let normalized_text = normalize_single_line(text);
    if !normalized_text.as_str().is_empty() {
        insert(buffer, selected, normalized_text.as_str());
    }
}

/// Replaces the buffer with `text` made single-line, so a bus write cannot
/// inject newlines into the painted input.
pub fn replace_text(buffer: &mut String, selected: &mut bool, text: &str)
    ensures
        final(buffer)@ == normalized(text@),
        is_single_line(final(buffer)@),
        *final(selected) == false,
{
    *selected = false;
    *buffer = normalize_single_line(text);
}

/// Complete state of the external single-line input surface.
#[derive(Debug, PartialEq, Eq)]
pub struct ComposerState {
    pub text: String,
    pub preedit: String,
    pub focused: bool,
    pub select_all: bool,
    pub submit_error: Option<String>,
}

impl Default for ComposerState {
    fn default() -> (state: ComposerState)
        ensures
            state.text@.len() == 0,
            state.preedit@.len() == 0,
            !state.focused,
            !state.select_all,
            state.submit_error is None,
    {
        ComposerState {
            text: String::new(),
            preedit: String::new(),
            focused: false,
            select_all: false,
            submit_error: None,
        }
    }
}

/// What a submission of `text` sends: the line and a carriage return, or
/// nothing for an empty line.
pub open spec fn submission_of(text: Seq<char>) -> Option<Seq<char>> {
    if text.len() == 0 {
        None
    } else {
        Some(text.push('\r'))
    }
}

/// The line a failed submission gives back: without its carriage return.
pub open spec fn restored_text(submission: Seq<char>) -> Seq<char> {
    if submission.len() > 0 && submission.last() == '\r' {
        submission.drop_last()
    } else {
        submission
    }
}

impl ComposerState {
    /// Leaves the composer: focus, preedit, selection and error all go.
    pub fn cancel_focus(&mut self)
        ensures
            final(self).text == old(self).text,
            !final(self).focused,
            final(self).preedit@.len() == 0,
            !final(self).select_all,
            final(self).submit_error is None,
    {
        self.focused = false;
        self.preedit = String::new();
        self.select_all = false;
        self.submit_error = None;
    }

    /// Returns one terminal submission and resets all transient edit state.
    pub fn take_submission(&mut self) -> (submission: Option<String>)
        ensures
            submission is Some <==> submission_of(old(self).text@) is Some,
            submission matches Some(s) ==> submission_of(old(self).text@) == Some(s@),
            final(self).text@.len() == 0,
            final(self).preedit@.len() == 0,
            !final(self).select_all,
            final(self).submit_error is None,
            final(self).focused == old(self).focused,
    {
        let submission = if !self.text.as_str().is_empty() {
            let mut taken = String::new();
            std::mem::swap(&mut self.text, &mut taken);
            push_char(&mut taken, '\r');
            Some(taken)
        } else {
            None
        };
        self.text = String::new();
        self.preedit = String::new();
        self.select_all = false;
        self.submit_error = None;
        submission
    }

    /// Puts back a submission the terminal refused, with the reason, so the
    /// user can retry it.
    pub fn restore_failed_submission(&mut self, submission: String, error: String)
        ensures
            final(self).text@ == restored_text(submission@),
            final(self).preedit@.len() == 0,
            !final(self).select_all,
            final(self).focused,
            final(self).submit_error == Some(error),
    {
        let mut submission = submission;
        let chars = chars_of(submission.as_str());
        if chars.len() > 0 && chars[chars.len() - 1] == '\r' {
            crate::text::pop_char(&mut submission);
        }
        self.text = submission;
        self.preedit = String::new();
        self.select_all = false;
        self.focused = true;
        self.submit_error = Some(error);
    }
}

/// A submission that fails and is restored gives the line back as it was.
pub proof fn law_restore_undoes_submission(text: Seq<char>)
    requires
        text.len() > 0,
    ensures
        submission_of(text) matches Some(sent) && restored_text(sent) == text,
{
    assert(text.push('\r').drop_last() =~= text);
}

} // verus!
