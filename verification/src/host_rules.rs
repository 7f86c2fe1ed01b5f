//! Small rules of the terminal host: what a tab is called, how a child's exit
//! code travels as one integer, and which message the status strip shows.

use vstd::prelude::*;
use crate::mux::{ascii_lower, to_ascii_lower};
use crate::tab::TabId;
use crate::text::{chars_of, concat, decimal, decimal_chars, push_str, str_eq, string_from_chars};

verus! {

/// `char::is_whitespace`: the Unicode White_Space property.
pub open spec fn is_whitespace(c: char) -> bool {
    let v = c as u32;
    (0x09 <= v && v <= 0x0d) || v == 0x20 || v == 0x85 || v == 0xa0 || v == 0x1680 || (0x2000 <= v
        && v <= 0x200a) || v == 0x2028 || v == 0x2029 || v == 0x202f || v == 0x205f || v == 0x3000
}

fn is_whitespace_char(c: char) -> (b: bool)
    ensures
        b == is_whitespace(c),
{
    let v = c as u32;
    (0x09 <= v && v <= 0x0d) || v == 0x20 || v == 0x85 || v == 0xa0 || v == 0x1680 || (0x2000 <= v
        && v <= 0x200a) || v == 0x2028 || v == 0x2029 || v == 0x202f || v == 0x205f || v == 0x3000
}

/// Leading whitespace characters of `s`.
pub open spec fn leading_ws(s: Seq<char>) -> nat
    decreases s.len(),
{
    if s.len() > 0 && is_whitespace(s[0]) {
        1 + leading_ws(s.drop_first())
    } else {
        0
    }
}

/// Trailing whitespace characters of `s`.
pub open spec fn trailing_ws(s: Seq<char>) -> nat
    decreases s.len(),
{
    if s.len() > 0 && is_whitespace(s.last()) {
        1 + trailing_ws(s.drop_last())
    } else {
        0
    }
}

/// `str::trim`: `s` without its leading and trailing whitespace.
pub open spec fn trimmed(s: Seq<char>) -> Seq<char> {
    let front = s.skip(leading_ws(s) as int);
    front.take(front.len() - trailing_ws(front))
}

proof fn lemma_leading_ws(s: Seq<char>, i: int)
    requires
        0 <= i <= s.len(),
        forall|j: int| 0 <= j < i ==> is_whitespace(#[trigger] s[j]),
        i < s.len() ==> !is_whitespace(s[i]),
    ensures
        leading_ws(s) == i,
    decreases i,
{
    if i > 0 {
        let rest = s.drop_first();
        assert forall|j: int| 0 <= j < i - 1 implies is_whitespace(#[trigger] rest[j]) by {
            assert(rest[j] == s[j + 1]);
        }
        lemma_leading_ws(rest, i - 1);
    }
}

proof fn lemma_trailing_ws(s: Seq<char>, k: int)
    requires
        0 <= k <= s.len(),
        forall|j: int| k <= j < s.len() ==> is_whitespace(#[trigger] s[j]),
        k > 0 ==> !is_whitespace(s[k - 1]),
    ensures
        trailing_ws(s) == s.len() - k,
    decreases s.len() - k,
{
    if k < s.len() {
        let front = s.drop_last();
        assert forall|j: int| k <= j < front.len() implies is_whitespace(#[trigger] front[j]) by {
            assert(front[j] == s[j]);
        }
        lemma_trailing_ws(front, k);
    }
}

/// `s` trimmed, as `str::trim` does.
pub fn trim(s: &str) -> (t: String)
    ensures
        t@ == trimmed(s@),
{
    let chars = chars_of(s);
    let n = chars.len();
    let mut start: usize = 0;
    while start < n && is_whitespace_char(chars[start])
        invariant
            n == chars@.len(),
            chars@ == s@,
            start <= n,
            forall|j: int| 0 <= j < start ==> is_whitespace(#[trigger] chars@[j]),
        decreases n - start,
    {
        start = start + 1;
    }
    proof {
        lemma_leading_ws(s@, start as int);
    }
    let ghost front = s@.skip(start as int);
    let mut end: usize = n;
    while end > start && is_whitespace_char(chars[end - 1])
        invariant
            n == chars@.len(),
            chars@ == s@,
            start <= end <= n,
            forall|j: int| end <= j < n ==> is_whitespace(#[trigger] chars@[j]),
        decreases end,
    {
        end = end - 1;
    }
    proof {
        assert forall|j: int| end - start <= j < front.len() implies is_whitespace(
            #[trigger] front[j],
        ) by {
            assert(front[j] == chars@[start + j]);
        }
        if end > start {
            assert(front[end - start - 1] == chars@[end - 1]);
        }
        lemma_trailing_ws(front, end - start);
    }
    let mut part: Vec<char> = Vec::new();
    let mut i = start;
    while i < end
        invariant
            start <= i <= end,
            end <= n,
            n == chars@.len(),
            part@ == chars@.subrange(start as int, i as int),
        decreases end - i,
    {
        part.push(chars[i]);
        i = i + 1;
        assert(part@ =~= chars@.subrange(start as int, i as int));
    }
    assert(part@ =~= front.take(front.len() - trailing_ws(front)));
    string_from_chars(&part)
}

/// Index of the last `/` or `\` in `s`, or -1.
pub open spec fn last_separator(s: Seq<char>) -> int
    decreases s.len(),
{
    if s.len() == 0 {
        -1
    } else if s.last() == '/' || s.last() == '\\' {
        s.len() - 1
    } else {
        last_separator(s.drop_last())
    }
}

/// The short name a program is known by: what follows its last path
/// separator, either separator on every platform.
pub open spec fn leaf_of(program: Seq<char>) -> Seq<char> {
    program.skip(last_separator(program) + 1)
}

/// Index of the last `.` in `s`, or -1.
pub open spec fn last_dot(s: Seq<char>) -> int
    decreases s.len(),
{
    if s.len() == 0 {
        -1
    } else if s.last() == '.' {
        s.len() - 1
    } else {
        last_dot(s.drop_last())
    }
}

/// The program's leaf without its extension; never empty.
pub open spec fn stem_of(program: Seq<char>) -> Seq<char> {
    let leaf = leaf_of(program);
    let dot = last_dot(leaf);
    let stem = if dot > 0 {
        leaf.take(dot)
    } else {
        leaf
    };
    if stem.len() == 0 {
        "terminal"@
    } else {
        stem
    }
}

proof fn lemma_last_separator(s: Seq<char>, i: int)
    requires
        0 <= i <= s.len(),
        forall|j: int| i <= j < s.len() ==> (#[trigger] s[j]) != '/' && s[j] != '\\',
        i > 0 ==> s[i - 1] == '/' || s[i - 1] == '\\',
    ensures
        last_separator(s) == i - 1,
    decreases s.len(),
{
    if s.len() > 0 && i < s.len() {
        let front = s.drop_last();
        assert forall|j: int| i <= j < front.len() implies (#[trigger] front[j]) != '/' && front[j]
            != '\\' by {
            assert(front[j] == s[j]);
        }
        lemma_last_separator(front, i);
    }
}

proof fn lemma_last_dot(s: Seq<char>, i: int)
    requires
        0 <= i <= s.len(),
        forall|j: int| i <= j < s.len() ==> (#[trigger] s[j]) != '.',
        i > 0 ==> s[i - 1] == '.',
    ensures
        last_dot(s) == i - 1,
    decreases s.len(),
{
    if s.len() > 0 && i < s.len() {
        let front = s.drop_last();
        assert forall|j: int| i <= j < front.len() implies (#[trigger] front[j]) != '.' by {
            assert(front[j] == s[j]);
        }
        lemma_last_dot(front, i);
    }
}

fn leaf_chars(program: &str) -> (leaf: Vec<char>)
    ensures
        leaf@ == leaf_of(program@),
{
    let chars = chars_of(program);
    let n = chars.len();
    let mut i: usize = n;
    while i > 0 && chars[i - 1] != '/' && chars[i - 1] != '\\'
        invariant
            n == chars@.len(),
            chars@ == program@,
            i <= n,
            forall|j: int| i <= j < n ==> (#[trigger] chars@[j]) != '/' && chars@[j] != '\\',
        decreases i,
    {
        i = i - 1;
    }
    proof {
        lemma_last_separator(program@, i as int);
    }
    let mut leaf: Vec<char> = Vec::new();
    let mut k = i;
    while k < n
        invariant
            i <= k <= n,
            n == chars@.len(),
            leaf@ == chars@.subrange(i as int, k as int),
        decreases n - k,
    {
        leaf.push(chars[k]);
        k = k + 1;
        assert(leaf@ =~= chars@.subrange(i as int, k as int));
    }
    assert(leaf@ =~= program@.skip(i as int));
    leaf
}

/// The short name a program is known by: `C:\Windows\system32\cmd.exe` is
/// known as `cmd.exe`.
pub fn program_leaf(program: &str) -> (leaf: String)
    ensures
        leaf@ == leaf_of(program@),
{
    string_from_chars(&leaf_chars(program))
}

/// The name a tab running `program` gets when it names nothing better: the
/// leaf without its extension, or `terminal`.
pub fn program_stem(program: &str) -> (stem: String)
    ensures
        stem@ == stem_of(program@),
{
    let leaf = leaf_chars(program);
    let n = leaf.len();
    let mut d: usize = n;
    while d > 0 && leaf[d - 1] != '.'
        invariant
            n == leaf@.len(),
            d <= n,
            forall|j: int| d <= j < n ==> (#[trigger] leaf@[j]) != '.',
        decreases d,
    {
        d = d - 1;
    }
    proof {
        lemma_last_dot(leaf@, d as int);
    }
    let mut end = n;
    if d > 1 {
        end = d - 1;
    }
    if end == 0 {
        return "terminal".to_owned();
    }
    let mut part: Vec<char> = Vec::new();
    let mut k: usize = 0;
    while k < end
        invariant
            k <= end,
            end <= n,
            n == leaf@.len(),
            part@ == leaf@.take(k as int),
        decreases end - k,
    {
        part.push(leaf[k]);
        k = k + 1;
        assert(part@ =~= leaf@.take(k as int));
    }
    proof {
        if end == n {
            assert(leaf@.take(n as int) =~= leaf@);
        }
    }
    string_from_chars(&part)
}

/// What a tab is called, given the title the child reported: a title that
/// only repeats the program (its path or leaf, ignoring ASCII case) or is
/// blank is no title, and the program's label stands instead.
pub open spec fn session_label_of(reported: Seq<char>, program_path: Seq<char>, program_label: Seq<char>) -> Seq<char> {
    let t = trimmed(reported);
    if t.len() == 0 || ascii_lower(t) == ascii_lower(program_path) || ascii_lower(t)
        == ascii_lower(leaf_of(program_path)) {
        program_label
    } else {
        t
    }
}

/// What a tab should be called, given what the child said about itself.
pub fn session_label(reported: &str, program_path: &str, program_label: &str) -> (label: String)
    ensures
        label@ == session_label_of(reported@, program_path@, program_label@),
{
    let t = trim(reported);
    if t.as_str().is_empty() {
        return program_label.to_owned();
    }
    let lowered = to_ascii_lower(t.as_str());
    let leaf = program_leaf(program_path);
    let names_itself = str_eq(lowered.as_str(), to_ascii_lower(program_path).as_str()) || str_eq(
        lowered.as_str(),
        to_ascii_lower(leaf.as_str()).as_str(),
    );
    if names_itself {
        return program_label.to_owned();
    }
    t
}

/// A child's exit code as one integer: 0 while it runs, else its code's bits
/// plus one.
pub open spec fn exit_code_encoding(code: Option<i32>) -> u64 {
    match code {
        None => 0,
        Some(c) => ((c as u32) as u64 + 1) as u64,
    }
}

pub fn encode_child_exit_code(code: Option<i32>) -> (encoded: u64)
    ensures
        encoded == exit_code_encoding(code),
{
    match code {
        None => 0,
        Some(c) => (c as u32) as u64 + 1,
    }
}

/// The exit code an integer carries: none for 0 or a value past 32 bits,
/// else the bits of the value less one.
pub open spec fn exit_code_decoding(encoded: u64) -> Option<i32> {
    if encoded == 0 || encoded - 1 > u32::MAX {
        None
    } else {
        Some(((encoded - 1) as u32) as i32)
    }
}

pub fn decode_child_exit_code(encoded: u64) -> (code: Option<i32>)
    ensures
        code == exit_code_decoding(encoded),
{
    if encoded == 0 {
        return None;
    }
    let bits = encoded - 1;
    if bits > u32::MAX as u64 {
        None
    } else {
        Some((bits as u32) as i32)
    }
}

/// Decoding gives back every exit code, the whole signed range included.
pub proof fn law_exit_code_round_trip(code: Option<i32>)
    ensures
        exit_code_decoding(exit_code_encoding(code)) == code,
{
    if let Some(c) = code {
        assert(((c as u32) as i32) == c) by (bit_vector);
    }
}

/// Whether a clipboard read for `target` may still land: only in the same
/// active terminal, and not while the composer has focus.
pub fn terminal_clipboard_target_is_current(target: TabId, active: Option<TabId>, composer_focused: bool) -> (current: bool)
    ensures
        current == (active == Some(target) && !composer_focused),
{
    let same = match active {
        Some(a) => a.0 == target.0,
        None => false,
    };
    same && !composer_focused
}

/// The one message the status strip shows: a host notice outranks a
/// clipboard refusal; with neither, none.
pub fn status_strip_notice<'a>(host_notice: Option<&'a str>, clipboard_error: Option<&'a str>) -> (notice: Option<&'a str>)
    ensures
        notice == match host_notice {
            Some(n) => Some(n),
            None => clipboard_error,
        },
{
    match host_notice {
        Some(n) => Some(n),
        None => clipboard_error,
    }
}

/// Refuses a mouse cell outside a `rows` by `cols` terminal.
pub fn validate_control_cell(rows: u16, cols: u16, row: u16, column: u16) -> (result: Result<(), String>)
    ensures
        row < rows && column < cols ==> result is Ok,
        !(row < rows && column < cols) ==> (result matches Err(e) && e@ == "mouse cell "@
            + decimal_chars(row as nat) + ","@ + decimal_chars(column as nat) + " is outside "@
            + decimal_chars(rows as nat) + "x"@ + decimal_chars(cols as nat)),
{
    if row >= rows || column >= cols {
        let mut m = concat("mouse cell ", decimal(row as u64).as_str());
        push_str(&mut m, ",");
        push_str(&mut m, decimal(column as u64).as_str());
        push_str(&mut m, " is outside ");
        push_str(&mut m, decimal(rows as u64).as_str());
        push_str(&mut m, "x");
        push_str(&mut m, decimal(cols as u64).as_str());
        return Err(m);
    }
    Ok(())
}

} // verus!
