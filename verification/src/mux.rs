//! `mux`: a tmux-compatible verb surface over the control endpoint. Each verb
//! becomes a control command; this module holds the rules for formats,
//! targets, keys and the tab list, and the caller runs the commands.

use vstd::prelude::*;
use crate::json::{as_array, as_bool, as_str, as_u64, is_absent, json_array, json_bool, json_get, json_is_absent, json_str, json_u64, JsonValue};
use crate::cli::{all_digits, decimal_u64, is_digit, parse_u64_decimal};
use crate::text::{chars_of, concat, starts_with, string_from_chars, debug_quote, debug_text, decimal, decimal_chars, push_char, push_str, str_eq};

verus! {

/// The `#{var}`s `list-windows -F` accepts.
pub const KNOWN_FORMAT_VARS: [&'static str; 4] = ["window_id", "window_index", "window_name", "window_active"];

/// What `list-windows` prints when no `-F` is given.
pub const DEFAULT_FORMAT: &'static str = "#{window_index}: #{window_name}#{window_active}";

/// The `#{var}`s `list-panes -F` accepts.
pub const KNOWN_PANE_FORMAT_VARS: [&'static str; 5] = [
    "pane_id",
    "pane_width",
    "pane_height",
    "pane_active",
    "pane_dead",
];

/// What `list-panes` prints when no `-F` is given.
pub const DEFAULT_PANE_FORMAT: &'static str = "#{pane_id} #{pane_width} #{pane_height} #{pane_active} #{pane_dead}";

/// The views of a list of string slices.
pub open spec fn strs_view(v: Seq<&str>) -> Seq<Seq<char>> {
    v.map_values(|s: &str| s@)
}

/// `items` joined with `sep` between each two.
pub open spec fn joined(items: Seq<Seq<char>>, sep: Seq<char>) -> Seq<char>
    decreases items.len(),
{
    if items.len() == 0 {
        Seq::empty()
    } else if items.len() == 1 {
        items[0]
    } else {
        joined(items.drop_last(), sep) + sep + items.last()
    }
}

/// `items` joined with `sep`, as `[&str]::join` does.
pub fn join_strs(items: &[&str], sep: &str) -> (text: String)
    ensures
        text@ == joined(strs_view(items@), sep@),
{
    let mut text = String::new();
    let mut i: usize = 0;
    while i < items.len()
        invariant
            i <= items@.len(),
            text@ == joined(strs_view(items@.take(i as int)), sep@),
        decreases items@.len() - i,
    {
        let ghost before = strs_view(items@.take(i as int));
        proof {
            assert(strs_view(items@.take(i + 1)).drop_last() =~= before);
        }
        if i > 0 {
            push_str(&mut text, sep);
        }
        push_str(&mut text, items[i]);
        i = i + 1;
        proof {
            if i == 1 {
                assert(text@ =~= strs_view(items@.take(1))[0]);
            }
        }
    }
    assert(items@.take(i as int) =~= items@);
    text
}

// ---------------------------------------------------------------------------
// `#{var}` substitutions
// ---------------------------------------------------------------------------

pub open spec fn unterminated_error(format: Seq<char>) -> Seq<char> {
    "-F "@ + debug_text(format) + ": unterminated #{...} substitution"@
}

pub open spec fn unknown_var_error(format: Seq<char>, var: Seq<char>, known: Seq<Seq<char>>) -> Seq<char> {
    "-F "@ + debug_text(format) + ": unknown substitution #{"@ + var + "}; known: "@ + joined(
        known,
        ", "@,
    )
}

/// Whether `#{` opens a substitution at `i`.
pub open spec fn opens_at(s: Seq<char>, i: int) -> bool {
    0 <= i && i + 1 < s.len() && s[i] == '#' && s[i + 1] == '{'
}

/// The first fault in `s` from `i` on, scanning outside a substitution
/// (`var_start` is `None`) or inside one that began at `var_start`: a
/// substitution that never closes, or one that names no known variable.
pub open spec fn format_error_from(
    s: Seq<char>,
    i: int,
    var_start: Option<int>,
    known: Seq<Seq<char>>,
) -> Option<Seq<char>>
    decreases s.len() - i,
{
    if i < 0 || i >= s.len() {
        match var_start {
            Some(_) => Some(unterminated_error(s)),
            None => None,
        }
    } else {
        match var_start {
            None => if opens_at(s, i) {
                format_error_from(s, i + 2, Some(i + 2), known)
            } else {
                format_error_from(s, i + 1, None, known)
            },
            Some(start) => if s[i] == '}' {
                if known.contains(s.subrange(start, i)) {
                    format_error_from(s, i + 1, None, known)
                } else {
                    Some(unknown_var_error(s, s.subrange(start, i), known))
                }
            } else {
                format_error_from(s, i + 1, Some(start), known)
            },
        }
    }
}

/// Where a format goes wrong, if it does.
pub open spec fn format_error(format: Seq<char>, known: Seq<Seq<char>>) -> Option<Seq<char>> {
    format_error_from(format, 0, None, known)
}

/// The value given for `var`: that of the first name equal to it.
pub open spec fn lookup(names: Seq<Seq<char>>, values: Seq<Seq<char>>, var: Seq<char>) -> Seq<char>
    decreases names.len(),
{
    if names.len() == 0 || values.len() == 0 {
        Seq::empty()
    } else if names[0] == var {
        values[0]
    } else {
        lookup(names.drop_first(), values.drop_first(), var)
    }
}

/// `s` from `i` on with every substitution replaced by its value.
pub open spec fn render_from(
    s: Seq<char>,
    i: int,
    var_start: Option<int>,
    names: Seq<Seq<char>>,
    values: Seq<Seq<char>>,
) -> Seq<char>
    decreases s.len() - i,
{
    if i < 0 || i >= s.len() {
        Seq::empty()
    } else {
        match var_start {
            None => if opens_at(s, i) {
                render_from(s, i + 2, Some(i + 2), names, values)
            } else {
                seq![s[i]] + render_from(s, i + 1, None, names, values)
            },
            Some(start) => if s[i] == '}' {
                lookup(names, values, s.subrange(start, i)) + render_from(
                    s,
                    i + 1,
                    None,
                    names,
                    values,
                )
            } else {
                render_from(s, i + 1, Some(start), names, values)
            },
        }
    }
}

/// `format` with every substitution replaced by its value.
pub open spec fn rendered(format: Seq<char>, names: Seq<Seq<char>>, values: Seq<Seq<char>>) -> Seq<char> {
    render_from(format, 0, None, names, values)
}

/// The characters `chars[start..end]` as a string.
fn substring(chars: &Vec<char>, start: usize, end: usize) -> (s: String)
    requires
        start <= end <= chars@.len(),
    ensures
        s@ == chars@.subrange(start as int, end as int),
{
    let mut s = String::new();
    let mut i = start;
    while i < end
        invariant
            start <= i <= end,
            end <= chars@.len(),
            s@ == chars@.subrange(start as int, i as int),
        decreases end - i,
    {
        push_char(&mut s, chars[i]);
        i = i + 1;
        assert(s@ =~= chars@.subrange(start as int, i as int));
    }
    s
}

/// Whether `known` holds `var`.
fn is_known(known: &[&str], var: &str) -> (found: bool)
    ensures
        found == strs_view(known@).contains(var@),
{
    let mut i: usize = 0;
    while i < known.len()
        invariant
            i <= known@.len(),
            forall|j: int| 0 <= j < i ==> known@[j]@ != var@,
        decreases known@.len() - i,
    {
        if str_eq(known[i], var) {
            assert(strs_view(known@)[i as int] == var@);
            return true;
        }
        i = i + 1;
    }
    proof {
        if strs_view(known@).contains(var@) {
            let j = choose|j: int| 0 <= j < strs_view(known@).len() && strs_view(known@)[j] == var@;
            assert(known@[j]@ == var@);
        }
    }
    false
}

/// Checks every `#{var}` in `format`: each must close and name a variable of
/// `known_vars`. An unknown variable is an error rather than a blank field,
/// so a script never silently trusts empty output.
pub fn validate_format(format: &str, known_vars: &[&str]) -> (result: Result<(), String>)
    ensures
        match format_error(format@, strs_view(known_vars@)) {
            None => result is Ok,
            Some(m) => result matches Err(e) && e@ == m,
        },
{
    let chars = crate::text::chars_of(format);
    let ghost s = format@;
    let ghost known = strs_view(known_vars@);
    let mut i: usize = 0;
    let mut var_start: Option<usize> = None;
    while i < chars.len()
        invariant
            chars@ == s,
            s == format@,
            known == strs_view(known_vars@),
            i <= s.len(),
            var_start matches Some(st) ==> st <= i,
            format_error(s, known) == format_error_from(
                s,
                i as int,
                match var_start {
                    Some(st) => Some(st as int),
                    None => None,
                },
                known,
            ),
        decreases s.len() - i,
    {
        match var_start {
            None => {
                if i + 1 < chars.len() && chars[i] == '#' && chars[i + 1] == '{' {
                    i = i + 2;
                    var_start = Some(i);
                } else {
                    i = i + 1;
                }
            },
            Some(start) => {
                if chars[i] == '}' {
                    let var = substring(&chars, start, i);
                    assert(var@ == s.subrange(start as int, i as int));
                    if !is_known(known_vars, var.as_str()) {
                        assert(format_error_from(s, i as int, Some(start as int), known) == Some(
                            unknown_var_error(s, var@, known),
                        ));
                        let mut m = concat("-F ", debug_quote(format).as_str());
                        push_str(&mut m, ": unknown substitution #{");
                        push_str(&mut m, var.as_str());
                        push_str(&mut m, "}; known: ");
                        push_str(&mut m, join_strs(known_vars, ", ").as_str());
                        return Err(m);
                    }
                    var_start = None;
                }
                i = i + 1;
            },
        }
    }
    match var_start {
        Some(_) => {
            let mut m = concat("-F ", debug_quote(format).as_str());
            push_str(&mut m, ": unterminated #{...} substitution");
            Err(m)
        },
        None => Ok(()),
    }
}

/// The value of `var`, whose name is among `names`.
fn lookup_value(names: &[&str], values: &Vec<String>, var: &str) -> (value: String)
    requires
        names@.len() == values@.len(),
        strs_view(names@).contains(var@),
    ensures
        value@ == lookup(strs_view(names@), values@.map_values(|v: String| v@), var@),
{
    let ghost all_names = strs_view(names@);
    let ghost all_values = values@.map_values(|v: String| v@);
    let mut i: usize = 0;
    assert(all_names.skip(0) =~= all_names);
    assert(all_values.skip(0) =~= all_values);
    while i < names.len()
        invariant
            i <= names@.len(),
            names@.len() == values@.len(),
            all_names == strs_view(names@),
            all_values == values@.map_values(|v: String| v@),
            forall|j: int| 0 <= j < i ==> names@[j]@ != var@,
            lookup(all_names, all_values, var@) == lookup(
                all_names.skip(i as int),
                all_values.skip(i as int),
                var@,
            ),
        decreases names@.len() - i,
    {
        let ghost rest_names = all_names.skip(i as int);
        let ghost rest_values = all_values.skip(i as int);
        assert(rest_names[0] == names@[i as int]@);
        assert(rest_values[0] == values@[i as int]@);
        if str_eq(names[i], var) {
            return values[i].clone();
        }
        assert(rest_names.drop_first() =~= all_names.skip(i + 1));
        assert(rest_values.drop_first() =~= all_values.skip(i + 1));
        i = i + 1;
    }
    proof {
        let j = choose|j: int| 0 <= j < all_names.len() && all_names[j] == var@;
        assert(names@[j]@ == var@);
    }
    String::new()
}

/// `format` with each `#{name}` replaced by the matching entry of
/// `values`. The format must have been checked against `names`.
pub fn render_with(format: &str, names: &[&str], values: &Vec<String>) -> (out: String)
    requires
        names@.len() == values@.len(),
        format_error(format@, strs_view(names@)) is None,
    ensures
        out@ == rendered(format@, strs_view(names@), values@.map_values(|v: String| v@)),
{
    let chars = crate::text::chars_of(format);
    let ghost s = format@;
    let ghost known = strs_view(names@);
    let ghost vals = values@.map_values(|v: String| v@);
    let mut out = String::new();
    let mut i: usize = 0;
    let mut var_start: Option<usize> = None;
    while i < chars.len()
        invariant
            chars@ == s,
            s == format@,
            known == strs_view(names@),
            vals == values@.map_values(|v: String| v@),
            names@.len() == values@.len(),
            i <= s.len(),
            var_start matches Some(st) ==> st <= i,
            format_error_from(
                s,
                i as int,
                match var_start {
                    Some(st) => Some(st as int),
                    None => None,
                },
                known,
            ) is None,
            rendered(s, known, vals) == out@ + render_from(
                s,
                i as int,
                match var_start {
                    Some(st) => Some(st as int),
                    None => None,
                },
                known,
                vals,
            ),
        decreases s.len() - i,
    {
        match var_start {
            None => {
                if i + 1 < chars.len() && chars[i] == '#' && chars[i + 1] == '{' {
                    i = i + 2;
                    var_start = Some(i);
                } else {
                    let ghost before = out@;
                    push_char(&mut out, chars[i]);
                    assert(out@ =~= before + seq![s[i as int]]);
                    i = i + 1;
                    assert(rendered(s, known, vals) =~= out@ + render_from(s, i as int, None, known, vals));
                }
            },
            Some(start) => {
                if chars[i] == '}' {
                    let var = substring(&chars, start, i);
                    let value = lookup_value(names, values, var.as_str());
                    let ghost before = out@;
                    push_str(&mut out, value.as_str());
                    var_start = None;
                    i = i + 1;
                    assert(rendered(s, known, vals) =~= out@ + render_from(s, i as int, None, known, vals));
                } else {
                    i = i + 1;
                }
            },
        }
    }
    proof {
        assert(render_from(
            s,
            i as int,
            match var_start {
                Some(st) => Some(st as int),
                None => None,
            },
            known,
            vals,
        ) =~= Seq::<char>::empty());
    }
    out
}

/// One tab as `list-tabs` reports it, narrowed to what `mux` shows.
pub struct TabRow {
    pub id: String,
    pub name: String,
    pub active: bool,
    pub dead: bool,
    pub width: u16,
    pub height: u16,
}

/// What the `window_*` variables stand for, in the order of
/// `KNOWN_FORMAT_VARS`.
pub open spec fn window_values(index: usize, tab: TabRow) -> Seq<Seq<char>> {
    seq![
        tab.id@,
        decimal_chars(index as nat),
        tab.name@,
        if tab.active {
            "*"@
        } else {
            ""@
        },
    ]
}

/// What the `pane_*` variables stand for, in the order of
/// `KNOWN_PANE_FORMAT_VARS`.
pub open spec fn pane_values(tab: TabRow) -> Seq<Seq<char>> {
    seq![
        tab.id@,
        decimal_chars(tab.width as nat),
        decimal_chars(tab.height as nat),
        if tab.active {
            "1"@
        } else {
            "0"@
        },
        if tab.dead {
            "1"@
        } else {
            "0"@
        },
    ]
}

/// One `list-windows` line for the tab at `index`.
pub fn render_window_format(format: &str, index: usize, tab: &TabRow) -> (line: String)
    requires
        format_error(format@, strs_view(KNOWN_FORMAT_VARS@)) is None,
    ensures
        line@ == rendered(format@, strs_view(KNOWN_FORMAT_VARS@), window_values(index, *tab)),
{
    let mut values: Vec<String> = Vec::new();
    values.push(tab.id.clone());
    values.push(decimal(index as u64));
    values.push(tab.name.clone());
    values.push(if tab.active { "*".to_owned() } else { "".to_owned() });
    assert(values@.map_values(|v: String| v@) =~= window_values(index, *tab));
    render_with(format, &KNOWN_FORMAT_VARS, &values)
}

/// One `list-panes` line for `tab`.
pub fn render_pane_format(format: &str, tab: &TabRow) -> (line: String)
    requires
        format_error(format@, strs_view(KNOWN_PANE_FORMAT_VARS@)) is None,
    ensures
        line@ == rendered(format@, strs_view(KNOWN_PANE_FORMAT_VARS@), pane_values(*tab)),
{
    let mut values: Vec<String> = Vec::new();
    values.push(tab.id.clone());
    values.push(decimal(tab.width as u64));
    values.push(decimal(tab.height as u64));
    values.push(if tab.active { "1".to_owned() } else { "0".to_owned() });
    values.push(if tab.dead { "1".to_owned() } else { "0".to_owned() });
    assert(values@.map_values(|v: String| v@) =~= pane_values(*tab));
    render_with(format, &KNOWN_PANE_FORMAT_VARS, &values)
}

// ---------------------------------------------------------------------------
// Targets
// ---------------------------------------------------------------------------

/// A window a `-t` target names: MiniCon's own `@ID` handle, passed through
/// as written, or a tmux window index into the tab list.
#[derive(Debug, PartialEq, Eq)]
pub enum MuxTarget {
    Handle(String),
    Index(usize),
}

pub enum MuxTargetView {
    Handle(Seq<char>),
    Index(usize),
}

impl View for MuxTarget {
    type V = MuxTargetView;

    open spec fn view(&self) -> MuxTargetView {
        match self {
            MuxTarget::Handle(h) => MuxTargetView::Handle(h@),
            MuxTarget::Index(i) => MuxTargetView::Index(*i),
        }
    }
}

/// Index of the first `c` in `s`, or -1.
pub open spec fn index_of(s: Seq<char>, c: char) -> int
    decreases s.len(),
{
    if s.len() == 0 {
        -1
    } else if s[0] == c {
        0
    } else if index_of(s.drop_first(), c) < 0 {
        -1
    } else {
        index_of(s.drop_first(), c) + 1
    }
}

pub open spec fn session_error(value: Seq<char>, session: Seq<char>) -> Seq<char> {
    "target "@ + debug_text(value) + ": no session named "@ + debug_text(session)
        + "; a MiniCon instance IS its one session (write it as minicon or 0, or leave the session off), and MiniCon implements no lookup among several sessions"@
}

pub open spec fn pane_error(value: Seq<char>, pane: Seq<char>) -> Seq<char> {
    "target "@ + debug_text(value) + ": no pane "@ + debug_text(pane)
        + "; a MiniCon window has exactly one pane (index 0, the tab's own terminal area) because `split-window` is not implemented"@
}

pub open spec fn no_window_error(value: Seq<char>) -> Seq<char> {
    "target "@ + debug_text(value) + ": names no window"@
}

pub open spec fn bad_handle_error(value: Seq<char>, window: Seq<char>) -> Seq<char> {
    "target "@ + debug_text(value) + ": "@ + debug_text(window) + " is not a valid @ID handle"@
}

pub open spec fn not_a_window_error(value: Seq<char>, window: Seq<char>) -> Seq<char> {
    "target "@ + debug_text(value) + ": "@ + debug_text(window)
        + " is neither a MiniCon @ID handle nor a tmux window index"@
}

/// What a `[session:]window[.pane]` target names, or why it names nothing.
pub open spec fn target_of(value: Seq<char>) -> Result<MuxTargetView, Seq<char>> {
    let colon = index_of(value, ':');
    let window_pane = if colon >= 0 {
        value.skip(colon + 1)
    } else {
        value
    };
    let dot = index_of(window_pane, '.');
    let window = if dot >= 0 {
        window_pane.take(dot)
    } else {
        window_pane
    };
    if colon >= 0 && value.take(colon) != "minicon"@ && value.take(colon) != "0"@ {
        Err(session_error(value, value.take(colon)))
    } else if dot >= 0 && window_pane.skip(dot + 1) != "0"@ {
        Err(pane_error(value, window_pane.skip(dot + 1)))
    } else if window.len() == 0 {
        Err(no_window_error(value))
    } else if window[0] == '@' {
        if window.len() > 1 && all_digits(window.drop_first()) {
            Ok(MuxTargetView::Handle(window))
        } else {
            Err(bad_handle_error(value, window))
        }
    } else {
        match decimal_u64(window) {
            Some(n) => if n <= usize::MAX {
                Ok(MuxTargetView::Index(n as usize))
            } else {
                Err(not_a_window_error(value, window))
            },
            None => Err(not_a_window_error(value, window)),
        }
    }
}

proof fn lemma_index_of(s: Seq<char>, c: char)
    ensures
        -1 <= index_of(s, c) < s.len(),
        index_of(s, c) >= 0 ==> s[index_of(s, c)] == c,
    decreases s.len(),
{
    if s.len() > 0 {
        lemma_index_of(s.drop_first(), c);
    }
}

/// The first position of `c` in `chars`.
fn find_char(chars: &Vec<char>, c: char) -> (index: Option<usize>)
    ensures
        match index {
            Some(i) => i < chars@.len() && i as int == index_of(chars@, c),
            None => index_of(chars@, c) == -1,
        },
{
    let mut i: usize = 0;
    proof {
        lemma_index_of(chars@, c);
        assert(chars@.skip(0) =~= chars@);
    }
    while i < chars.len()
        invariant
            i <= chars@.len(),
            index_of(chars@, c) == if index_of(chars@.skip(i as int), c) < 0 {
                -1
            } else {
                index_of(chars@.skip(i as int), c) + i
            },
        decreases chars@.len() - i,
    {
        assert(chars@.skip(i as int)[0] == chars@[i as int]);
        if chars[i] == c {
            return Some(i);
        }
        assert(chars@.skip(i as int).drop_first() =~= chars@.skip(i + 1));
        i = i + 1;
    }
    assert(chars@.skip(i as int) =~= Seq::<char>::empty());
    None
}

/// A sub-vector of `chars`.
fn sub_chars(chars: &Vec<char>, start: usize, end: usize) -> (part: Vec<char>)
    requires
        start <= end <= chars@.len(),
    ensures
        part@ == chars@.subrange(start as int, end as int),
{
    let mut part: Vec<char> = Vec::new();
    let mut i = start;
    while i < end
        invariant
            start <= i <= end,
            end <= chars@.len(),
            part@ == chars@.subrange(start as int, i as int),
        decreases end - i,
    {
        part.push(chars[i]);
        i = i + 1;
        assert(part@ =~= chars@.subrange(start as int, i as int));
    }
    part
}

/// Whether every character from `start` on is an ASCII digit.
fn digits_from(chars: &Vec<char>, start: usize) -> (all: bool)
    requires
        start <= chars@.len(),
    ensures
        all == all_digits(chars@.skip(start as int)),
{
    let mut i = start;
    while i < chars.len()
        invariant
            start <= i <= chars@.len(),
            forall|j: int| start <= j < i ==> is_digit(#[trigger] chars@[j]),
        decreases chars@.len() - i,
    {
        if !(chars[i] >= '0' && chars[i] <= '9') {
            assert(chars@.skip(start as int)[i - start] == chars@[i as int]);
            return false;
        }
        i = i + 1;
    }
    assert forall|j: int| 0 <= j < chars@.skip(start as int).len() implies is_digit(
        #[trigger] chars@.skip(start as int)[j],
    ) by {
        assert(chars@.skip(start as int)[j] == chars@[start + j]);
    }
    true
}

fn target_message(value: &str, middle: &str, quoted: &str, tail: &str) -> (m: String)
    ensures
        m@ == "target "@ + debug_text(value@) + middle@ + debug_text(quoted@) + tail@,
{
    let mut m = concat("target ", debug_quote(value).as_str());
    push_str(&mut m, middle);
    push_str(&mut m, debug_quote(quoted).as_str());
    push_str(&mut m, tail);
    m
}

/// Resolves a tmux `[session:]window[.pane]` target as far as it can
/// without the tab list: an `@ID` handle is passed through unresolved, so a
/// stale handle is refused by the window with its own message; an index is
/// handed back for the caller to look up.
pub fn resolve_target(value: &str) -> (result: Result<MuxTarget, String>)
    ensures
        match target_of(value@) {
            Ok(t) => result matches Ok(r) && r@ == t,
            Err(m) => result matches Err(e) && e@ == m,
        },
{
    let chars = chars_of(value);
    let ghost v = value@;
    let colon = find_char(&chars, ':');
    let window_pane = match colon {
        Some(c) => {
            let session = string_from_chars(&sub_chars(&chars, 0, c));
            assert(session@ =~= v.take(c as int));
            if !str_eq(session.as_str(), "minicon") && !str_eq(session.as_str(), "0") {
                return Err(target_message(
                    value,
                    ": no session named ",
                    session.as_str(),
                    "; a MiniCon instance IS its one session (write it as minicon or 0, or leave the session off), and MiniCon implements no lookup among several sessions",
                ));
            }
            let n = chars.len();
            let rest = sub_chars(&chars, c + 1, n);
            assert(rest@ =~= v.skip(c + 1));
            rest
        },
        None => chars,
    };
    let ghost wp = window_pane@;
    let dot = find_char(&window_pane, '.');
    let window = match dot {
        Some(d) => {
            let pane = string_from_chars(&sub_chars(&window_pane, d + 1, window_pane.len()));
            assert(pane@ =~= wp.skip(d + 1));
            if !str_eq(pane.as_str(), "0") {
                return Err(target_message(
                    value,
                    ": no pane ",
                    pane.as_str(),
                    "; a MiniCon window has exactly one pane (index 0, the tab's own terminal area) because `split-window` is not implemented",
                ));
            }
            let w = sub_chars(&window_pane, 0, d);
            assert(w@ =~= wp.take(d as int));
            w
        },
        None => window_pane,
    };
    let window_text = string_from_chars(&window);
    if window.len() == 0 {
        let mut m = concat("target ", debug_quote(value).as_str());
        push_str(&mut m, ": names no window");
        return Err(m);
    }
    if window[0] == '@' {
        if window.len() > 1 && digits_from(&window, 1) {
            assert(window@.skip(1) =~= window@.drop_first());
            return Ok(MuxTarget::Handle(window_text));
        }
        assert(window@.skip(1) =~= window@.drop_first());
        return Err(target_message(value, ": ", window_text.as_str(), " is not a valid @ID handle"));
    }
    match parse_u64_decimal(window_text.as_str()) {
        Some(n) => if n as u128 <= usize::MAX as u128 {
            Ok(MuxTarget::Index(n as usize))
        } else {
            Err(target_message(
                value,
                ": ",
                window_text.as_str(),
                " is neither a MiniCon @ID handle nor a tmux window index",
            ))
        },
        None => Err(target_message(
            value,
            ": ",
            window_text.as_str(),
            " is neither a MiniCon @ID handle nor a tmux window index",
        )),
    }
}

pub open spec fn index_range_error(value: Seq<char>, index: usize, open: nat) -> Seq<char> {
    "target "@ + debug_text(value) + ": window index "@ + decimal_chars(index as nat)
        + " is out of range; "@ + decimal_chars(open) + " window(s) are open. Note that tmux-style indices renumber when a window closes, which is why @ID is MiniCon's canonical handle"@
}

/// The `@ID` of the tab at tmux window `index` in `tab_ids` (the tab list in
/// order), for the target `value` that named it.
pub fn window_for_index(value: &str, index: usize, tab_ids: &[String]) -> (result: Result<String, String>)
    ensures
        index < tab_ids@.len() ==> (result matches Ok(id) && id@ == tab_ids@[index as int]@),
        index >= tab_ids@.len() ==> (result matches Err(e) && e@ == index_range_error(
            value@,
            index,
            tab_ids@.len(),
        )),
{
    if index < tab_ids.len() {
        Ok(tab_ids[index].clone())
    } else {
        let mut m = concat("target ", debug_quote(value).as_str());
        push_str(&mut m, ": window index ");
        push_str(&mut m, decimal(index as u64).as_str());
        push_str(&mut m, " is out of range; ");
        push_str(&mut m, decimal(tab_ids.len() as u64).as_str());
        push_str(
            &mut m,
            " window(s) are open. Note that tmux-style indices renumber when a window closes, which is why @ID is MiniCon's canonical handle",
        );
        Err(m)
    }
}

// ---------------------------------------------------------------------------
// Keys
// ---------------------------------------------------------------------------

/// The modifier a tmux `C-`, `M-` or `S-` prefix stands for.
pub open spec fn modifier_of(rest: Seq<char>) -> Option<Seq<char>> {
    if starts_with(rest, "C-"@) {
        Some("ctrl"@)
    } else if starts_with(rest, "M-"@) {
        Some("alt"@)
    } else if starts_with(rest, "S-"@) {
        Some("shift"@)
    } else {
        None
    }
}

pub open spec fn modifier_error(key: Seq<char>) -> Seq<char> {
    "send-keys: "@ + debug_text(key) + " ends with a modifier and no key"@
}

pub open spec fn unknown_key_error(key: Seq<char>) -> Seq<char> {
    "send-keys: "@ + debug_text(key)
        + " is neither a tmux key name nor a single character. tmux would send an unknown name as literal text; MiniCon refuses it instead, so a script cannot mistype a key name and silently send it as characters -- pass -l to send text literally"@
}

/// Strips the modifier prefixes of `rest`, collecting each modifier once in
/// order of first appearance; gives the modifiers and the base name.
pub open spec fn strip_modifiers(key: Seq<char>, rest: Seq<char>, mods: Seq<Seq<char>>) -> Result<
    (Seq<Seq<char>>, Seq<char>),
    Seq<char>,
>
    decreases rest.len(),
{
    match modifier_of(rest) {
        Some(m) => if rest.len() <= 2 {
            Err(modifier_error(key))
        } else {
            strip_modifiers(
                key,
                rest.skip(2),
                if mods.contains(m) {
                    mods
                } else {
                    mods.push(m)
                },
            )
        },
        None => Ok((mods, rest)),
    }
}

/// ASCII letters lowered, as `str::to_ascii_lowercase` does.
pub open spec fn ascii_lower(s: Seq<char>) -> Seq<char> {
    s.map_values(|c: char| if 'A' <= c <= 'Z' { ((c as u32) + 32) as char } else { c })
}

/// tmux's own spellings of keys the control CLI names otherwise.
pub open spec fn tmux_alias(lower: Seq<char>) -> Option<Seq<char>> {
    if lower == "bspace"@ {
        Some("backspace"@)
    } else if lower == "dc"@ {
        Some("delete"@)
    } else if lower == "ic"@ {
        Some("insert"@)
    } else if lower == "npage"@ || lower == "pgdn"@ {
        Some("pagedown"@)
    } else if lower == "ppage"@ || lower == "pgup"@ {
        Some("pageup"@)
    } else {
        None
    }
}

/// The control CLI's name for the tmux key `name` of the key `whole`, where
/// `named` says whether `name` is a key name the control CLI knows.
pub open spec fn key_name_of(name: Seq<char>, whole: Seq<char>, named: bool) -> Result<Seq<char>, Seq<char>> {
    match tmux_alias(ascii_lower(name)) {
        Some(alias) => Ok(alias),
        None => if named || name.len() == 1 {
            Ok(name)
        } else {
            Err(unknown_key_error(whole))
        },
    }
}

/// The control CLI's spec of the tmux key `key`.
pub open spec fn key_spec_of(key: Seq<char>, named: bool) -> Result<Seq<char>, Seq<char>> {
    match strip_modifiers(key, key, Seq::empty()) {
        Err(m) => Err(m),
        Ok((mods, base)) => match key_name_of(base, key, named) {
            Ok(name) => Ok(joined(mods.push(name), "+"@)),
            Err(m) => Err(m),
        },
    }
}

fn contains_str(items: &Vec<&str>, value: &str) -> (found: bool)
    ensures
        found == strs_view(items@).contains(value@),
{
    let mut i: usize = 0;
    while i < items.len()
        invariant
            i <= items@.len(),
            forall|j: int| 0 <= j < i ==> items@[j]@ != value@,
        decreases items@.len() - i,
    {
        if str_eq(items[i], value) {
            assert(strs_view(items@)[i as int] == value@);
            return true;
        }
        i = i + 1;
    }
    proof {
        if strs_view(items@).contains(value@) {
            let j = choose|j: int| 0 <= j < strs_view(items@).len() && strs_view(items@)[j] == value@;
            assert(items@[j]@ == value@);
        }
    }
    false
}

/// The modifier whose prefix starts at `pos`.
fn modifier_at(chars: &Vec<char>, pos: usize) -> (modifier: Option<&'static str>)
    requires
        pos <= chars@.len(),
    ensures
        match modifier_of(chars@.skip(pos as int)) {
            Some(m) => modifier matches Some(x) && x@ == m,
            None => modifier is None,
        },
        modifier is Some ==> pos + 2 <= chars@.len(),
{
    let ghost rest = chars@.skip(pos as int);
    proof {
        reveal_strlit("C-");
        reveal_strlit("M-");
        reveal_strlit("S-");
    }
    if chars.len() - pos < 2 {
        return None;
    }
    let first = chars[pos];
    let second = chars[pos + 1];
    proof {
        assert(rest.take(2) =~= seq![first, second]);
        assert("C-"@ =~= seq!['C', '-']);
        assert("M-"@ =~= seq!['M', '-']);
        assert("S-"@ =~= seq!['S', '-']);
    }
    if second != '-' {
        proof {
            assert(rest.take(2)[1] != "C-"@[1]);
            assert(rest.take(2)[1] != "M-"@[1]);
            assert(rest.take(2)[1] != "S-"@[1]);
        }
        return None;
    }
    proof {
        if first != 'C' {
            assert(rest.take(2)[0] != "C-"@[0]);
        }
        if first != 'M' {
            assert(rest.take(2)[0] != "M-"@[0]);
        }
        if first != 'S' {
            assert(rest.take(2)[0] != "S-"@[0]);
        }
    }
    if first == 'C' {
        Some("ctrl")
    } else if first == 'M' {
        Some("alt")
    } else if first == 'S' {
        Some("shift")
    } else {
        None
    }
}

/// `key`'s modifiers and base name, as far as the prefixes can be stripped.
fn split_modifiers(key: &str) -> (result: Result<(Vec<&'static str>, String), String>)
    ensures
        match strip_modifiers(key@, key@, Seq::empty()) {
            Ok((mods, base)) => result matches Ok((m, b)) && strs_view(m@) == mods && b@ == base,
            Err(e) => result matches Err(x) && x@ == e,
        },
{
    let chars = chars_of(key);
    let ghost k = key@;
    let mut mods: Vec<&'static str> = Vec::new();
    let mut pos: usize = 0;
    assert(k.skip(0) =~= k);
    assert(strs_view(mods@) =~= Seq::<Seq<char>>::empty());
    loop
        invariant
            chars@ == k,
            k == key@,
            pos <= k.len(),
            strip_modifiers(k, k, Seq::empty()) == strip_modifiers(k, k.skip(pos as int), strs_view(mods@)),
        decreases k.len() - pos,
    {
        let ghost rest = k.skip(pos as int);
        let n = chars.len();
        let modifier = modifier_at(&chars, pos);
        match modifier {
            Some(m) => {
                if pos + 2 == n {
                    let mut e = concat("send-keys: ", debug_quote(key).as_str());
                    push_str(&mut e, " ends with a modifier and no key");
                    return Err(e);
                }
                let ghost before = strs_view(mods@);
                let ghost next = if before.contains(m@) { before } else { before.push(m@) };
                assert(strip_modifiers(k, rest, before) == strip_modifiers(k, rest.skip(2), next));
                if !contains_str(&mods, m) {
                    mods.push(m);
                    assert(strs_view(mods@) =~= before.push(m@));
                }
                assert(rest.skip(2) =~= k.skip(pos + 2));
                pos = pos + 2;
            },
            None => {
                let base = string_from_chars(&sub_chars(&chars, pos, chars.len()));
                assert(base@ =~= rest);
                return Ok((mods, base));
            },
        }
    }
}

/// The modifier-free base name of the tmux key `key`, whose standing as a
/// named key the caller decides; `None` when `key` ends in a modifier.
pub fn tmux_key_base(key: &str) -> (base: Option<String>)
    ensures
        match strip_modifiers(key@, key@, Seq::empty()) {
            Ok((_, b)) => base matches Some(x) && x@ == b,
            Err(_) => base is None,
        },
{
    match split_modifiers(key) {
        Ok((_, base)) => Some(base),
        Err(_) => None,
    }
}

pub(crate) fn to_ascii_lower(s: &str) -> (lower: String)
    ensures
        lower@ == ascii_lower(s@),
{
    let chars = chars_of(s);
    let mut lower = String::new();
    let mut i: usize = 0;
    while i < chars.len()
        invariant
            i <= chars@.len(),
            chars@ == s@,
            lower@ == ascii_lower(s@).take(i as int),
        decreases chars@.len() - i,
    {
        let c = chars[i];
        let l = if c >= 'A' && c <= 'Z' { ((c as u32) + 32) as u8 as char } else { c };
        assert(l == ascii_lower(s@)[i as int]) by {
            if 'A' <= c <= 'Z' {
                assert(((c as u32) + 32) < 256);
            }
        }
        push_char(&mut lower, l);
        i = i + 1;
        assert(lower@ =~= ascii_lower(s@).take(i as int));
    }
    assert(ascii_lower(s@).take(i as int) =~= ascii_lower(s@));
    lower
}

/// The control CLI's name for one tmux key name: tmux's own spellings are
/// translated, a named key or a single character passes as written, and
/// anything else is refused rather than sent as text.
pub fn tmux_key_name(name: &str, whole: &str, named: bool) -> (result: Result<String, String>)
    ensures
        match key_name_of(name@, whole@, named) {
            Ok(n) => result matches Ok(r) && r@ == n,
            Err(m) => result matches Err(e) && e@ == m,
        },
{
    let lower = to_ascii_lower(name);
    let l = lower.as_str();
    if str_eq(l, "bspace") {
        return Ok("backspace".to_owned());
    }
    if str_eq(l, "dc") {
        return Ok("delete".to_owned());
    }
    if str_eq(l, "ic") {
        return Ok("insert".to_owned());
    }
    if str_eq(l, "npage") || str_eq(l, "pgdn") {
        return Ok("pagedown".to_owned());
    }
    if str_eq(l, "ppage") || str_eq(l, "pgup") {
        return Ok("pageup".to_owned());
    }
    if named || chars_of(name).len() == 1 {
        return Ok(name.to_owned());
    }
    let mut e = concat("send-keys: ", debug_quote(whole).as_str());
    push_str(
        &mut e,
        " is neither a tmux key name nor a single character. tmux would send an unknown name as literal text; MiniCon refuses it instead, so a script cannot mistype a key name and silently send it as characters -- pass -l to send text literally",
    );
    Err(e)
}

/// Translates one tmux key (`C-`/`M-`/`S-` prefixes and a base name) into the
/// `ctrl+`/`alt+`/`shift+` spec the control CLI parses. `base_is_named` says
/// whether the base name, as `tmux_key_base` gives it, is a key name the
/// control CLI knows.
pub fn tmux_key_to_spec(key: &str, base_is_named: bool) -> (result: Result<String, String>)
    ensures
        match key_spec_of(key@, base_is_named) {
            Ok(spec) => result matches Ok(r) && r@ == spec,
            Err(m) => result matches Err(e) && e@ == m,
        },
{
    let (mut mods, base) = match split_modifiers(key) {
        Ok(parts) => parts,
        Err(e) => return Err(e),
    };
    let name = match tmux_key_name(base.as_str(), key, base_is_named) {
        Ok(n) => n,
        Err(e) => return Err(e),
    };
    let mut spec = String::new();
    let mut i: usize = 0;
    let ghost all = strs_view(mods@).push(name@);
    while i < mods.len()
        invariant
            i <= mods@.len(),
            all == strs_view(mods@).push(name@),
            spec@ == joined(all.take(i as int), "+"@),
        decreases mods@.len() - i,
    {
        assert(all.take(i + 1).drop_last() =~= all.take(i as int));
        assert(all.take(i + 1).last() == mods@[i as int]@);
        if i > 0 {
            push_str(&mut spec, "+");
        }
        push_str(&mut spec, mods[i]);
        i = i + 1;
        proof {
            if i == 1 {
                assert(spec@ =~= all.take(1)[0]);
            }
        }
    }
    assert(all.take(i + 1).drop_last() =~= all.take(i as int));
    assert(all.take(i + 1).last() == name@);
    if i > 0 {
        push_str(&mut spec, "+");
    }
    push_str(&mut spec, name.as_str());
    proof {
        if i == 0 {
            assert(spec@ =~= all.take(1)[0]);
        }
        assert(all.take(i + 1) =~= all);
    }
    Ok(spec)
}

// ---------------------------------------------------------------------------
// The tab list
// ---------------------------------------------------------------------------

/// A tab row as values.
pub struct TabRowView {
    pub id: Seq<char>,
    pub name: Seq<char>,
    pub active: bool,
    pub dead: bool,
    pub width: u16,
    pub height: u16,
}

impl View for TabRow {
    type V = TabRowView;

    open spec fn view(&self) -> TabRowView {
        TabRowView {
            id: self.id@,
            name: self.name@,
            active: self.active,
            dead: self.dead,
            width: self.width,
            height: self.height,
        }
    }
}

/// One tab of a `list-tabs` reply: its `id` is required; a missing title is
/// empty, a missing `active` false, a tab is dead once it has a non-null
/// `child_exit_code`, and a missing size is zero (sizes are cut to 16 bits).
pub open spec fn tab_row_of(tab: JsonValue) -> Result<TabRowView, Seq<char>> {
    match json_str(json_get(tab, "id"@)) {
        None => Err("list-tabs: tab missing \"id\""@),
        Some(id) => Ok(
            TabRowView {
                id,
                name: match json_str(json_get(tab, "title"@)) {
                    Some(t) => t,
                    None => ""@,
                },
                active: match json_bool(json_get(tab, "active"@)) {
                    Some(b) => b,
                    None => false,
                },
                dead: !json_is_absent(json_get(tab, "child_exit_code"@)),
                width: match json_u64(json_get(tab, "cols"@)) {
                    Some(n) => n as u16,
                    None => 0,
                },
                height: match json_u64(json_get(tab, "rows"@)) {
                    Some(n) => n as u16,
                    None => 0,
                },
            },
        ),
    }
}

/// The rows of `tabs` in order, or the fault of the first tab that has one.
pub open spec fn tab_rows_from(tabs: Seq<JsonValue>) -> Result<Seq<TabRowView>, Seq<char>>
    decreases tabs.len(),
{
    if tabs.len() == 0 {
        Ok(Seq::empty())
    } else {
        match tab_row_of(tabs[0]) {
            Err(e) => Err(e),
            Ok(row) => match tab_rows_from(tabs.drop_first()) {
                Err(e) => Err(e),
                Ok(rows) => Ok(seq![row] + rows),
            },
        }
    }
}

/// The rows of a whole `list-tabs` reply.
pub open spec fn tab_rows_of(reply: JsonValue) -> Result<Seq<TabRowView>, Seq<char>> {
    match json_array(json_get(reply, "tabs"@)) {
        None => Err("list-tabs: response missing \"tabs\" array"@),
        Some(tabs) => tab_rows_from(tabs),
    }
}

fn tab_row(tab: &JsonValue) -> (result: Result<TabRow, String>)
    ensures
        match tab_row_of(*tab) {
            Ok(v) => result matches Ok(r) && r@ == v,
            Err(m) => result matches Err(e) && e@ == m,
        },
{
    let id = match as_str(tab.get("id")) {
        Some(id) => id.to_owned(),
        None => return Err("list-tabs: tab missing \"id\"".to_owned()),
    };
    let name = match as_str(tab.get("title")) {
        Some(t) => t.to_owned(),
        None => "".to_owned(),
    };
    let active = match as_bool(tab.get("active")) {
        Some(b) => b,
        None => false,
    };
    let dead = !is_absent(tab.get("child_exit_code"));
    let width = match as_u64(tab.get("cols")) {
        Some(n) => n as u16,
        None => 0,
    };
    let height = match as_u64(tab.get("rows")) {
        Some(n) => n as u16,
        None => 0,
    };
    Ok(TabRow { id, name, active, dead, width, height })
}

/// Reads the tab rows of a `list-tabs` reply.
pub fn parse_tabs(reply: &JsonValue) -> (result: Result<Vec<TabRow>, String>)
    ensures
        match tab_rows_of(*reply) {
            Ok(rows) => result matches Ok(r) && r@.len() == rows.len() && forall|i: int|
                0 <= i < rows.len() ==> (#[trigger] r@[i])@ == rows[i],
            Err(m) => result matches Err(e) && e@ == m,
        },
{
    let tabs = match as_array(reply.get("tabs")) {
        Some(tabs) => tabs,
        None => return Err("list-tabs: response missing \"tabs\" array".to_owned()),
    };
    let ghost all = tabs@;
    let mut rows: Vec<TabRow> = Vec::new();
    let mut i: usize = 0;
    assert(all.skip(0) =~= all);
    while i < tabs.len()
        invariant
            all == tabs@,
            i <= all.len(),
            rows@.len() == i,
            tab_rows_of(*reply) == match tab_rows_from(all.skip(i as int)) {
                Err(e) => Err(e),
                Ok(rest) => Ok(rows@.map_values(|r: TabRow| r@) + rest),
            },
        decreases all.len() - i,
    {
        let ghost before = rows@.map_values(|r: TabRow| r@);
        assert(all.skip(i as int)[0] == all[i as int]);
        assert(all.skip(i as int).drop_first() =~= all.skip(i + 1));
        let row = match tab_row(&tabs[i]) {
            Ok(row) => row,
            Err(e) => return Err(e),
        };
        let ghost v = row@;
        rows.push(row);
        proof {
            assert(rows@.map_values(|r: TabRow| r@) =~= before.push(v));
            assert forall|rest: Seq<TabRowView>| #![auto] before + (seq![v] + rest) =~= before.push(v) + rest by {}
        }
        i = i + 1;
    }
    proof {
        assert(all.skip(i as int) =~= Seq::<JsonValue>::empty());
        let views = rows@.map_values(|r: TabRow| r@);
        assert(views + Seq::<TabRowView>::empty() =~= views);
    }
    Ok(rows)
}

} // verus!

verus! {

/// A key whose second character is not `-` carries no modifier prefix: its
/// spec is the control CLI's name for the whole key.
proof fn lemma_key_without_modifier(key: Seq<char>, named: bool)
    requires
        key.len() >= 2,
        key[1] != '-',
    ensures
        key_spec_of(key, named) == key_name_of(key, key, named),
{
    reveal_strlit("C-");
    reveal_strlit("M-");
    reveal_strlit("S-");
    assert(!starts_with(key, "C-"@)) by {
        if starts_with(key, "C-"@) {
            assert(key.take(2)[1] == "C-"@[1]);
        }
    }
    assert(!starts_with(key, "M-"@)) by {
        if starts_with(key, "M-"@) {
            assert(key.take(2)[1] == "M-"@[1]);
        }
    }
    assert(!starts_with(key, "S-"@)) by {
        if starts_with(key, "S-"@) {
            assert(key.take(2)[1] == "S-"@[1]);
        }
    }
    assert(modifier_of(key) is None);
    let empty = Seq::<Seq<char>>::empty();
    assert(strip_modifiers(key, key, empty) == Ok::<(Seq<Seq<char>>, Seq<char>), Seq<char>>((empty, key)));
    match key_name_of(key, key, named) {
        Ok(n) => {
            assert(empty.push(n).len() == 1);
            assert(joined(empty.push(n), "+"@) == n);
        },
        Err(_) => {},
    }
}

/// A key that lowers to `alias`, whose second character is not `-`, has no
/// `-` as its own second character.
proof fn lemma_lowered_second(key: Seq<char>, alias: Seq<char>)
    requires
        ascii_lower(key) == alias,
        alias.len() >= 2,
        alias[1] != '-',
    ensures
        key.len() >= 2,
        key[1] != '-',
{
    assert(ascii_lower(key).len() == key.len());
    assert(ascii_lower(key)[1] == alias[1]);
}

/// tmux's own spellings name the keys they mean, in any ASCII case and
/// whatever the caller knows of the name: `BSpace` is backspace, `DC` delete,
/// `IC` insert, `NPage` and `PgDn` page down, `PPage` and `PgUp` page up. So
/// no two spellings of different keys give the same spec.
pub proof fn law_tmux_spellings_name_their_keys(key: Seq<char>, named: bool)
    ensures
        ascii_lower(key) == "bspace"@ ==> key_spec_of(key, named) == Ok::<Seq<char>, Seq<char>>(
            "backspace"@,
        ),
        ascii_lower(key) == "dc"@ ==> key_spec_of(key, named) == Ok::<Seq<char>, Seq<char>>("delete"@),
        ascii_lower(key) == "ic"@ ==> key_spec_of(key, named) == Ok::<Seq<char>, Seq<char>>("insert"@),
        ascii_lower(key) == "npage"@ || ascii_lower(key) == "pgdn"@ ==> key_spec_of(key, named) == Ok::<
            Seq<char>,
            Seq<char>,
        >("pagedown"@),
        ascii_lower(key) == "ppage"@ || ascii_lower(key) == "pgup"@ ==> key_spec_of(key, named) == Ok::<
            Seq<char>,
            Seq<char>,
        >("pageup"@),
{
    reveal_strlit("bspace");
    reveal_strlit("dc");
    reveal_strlit("ic");
    reveal_strlit("npage");
    reveal_strlit("pgdn");
    reveal_strlit("ppage");
    reveal_strlit("pgup");
    assert("bspace"@.len() == 6 && "dc"@.len() == 2 && "ic"@.len() == 2 && "npage"@.len() == 5
        && "pgdn"@.len() == 4 && "ppage"@.len() == 5 && "pgup"@.len() == 4);
    assert("ic"@ != "dc"@) by {
        assert("ic"@[0] != "dc"@[0]);
    }
    assert("ppage"@ != "npage"@) by {
        assert("ppage"@[0] != "npage"@[0]);
    }
    assert("pgup"@ != "pgdn"@) by {
        assert("pgup"@[2] != "pgdn"@[2]);
    }
    let l = ascii_lower(key);
    if l == "bspace"@ || l == "dc"@ || l == "ic"@ || l == "npage"@ || l == "pgdn"@ || l == "ppage"@
        || l == "pgup"@ {
        lemma_lowered_second(key, l);
        lemma_key_without_modifier(key, named);
    }
}

/// The spellings of different keys never give the same spec: delete and
/// insert, backspace and the page keys are told apart.
pub proof fn law_tmux_spellings_are_distinct(a: Seq<char>, b: Seq<char>, named: bool)
    requires
        ascii_lower(a) == "dc"@,
        ascii_lower(b) == "ic"@,
    ensures
        key_spec_of(a, named) != key_spec_of(b, named),
{
    law_tmux_spellings_name_their_keys(a, named);
    law_tmux_spellings_name_their_keys(b, named);
    reveal_strlit("delete");
    reveal_strlit("insert");
    assert("delete"@[0] != "insert"@[0]);
}

proof fn lemma_one_modifier(p: Seq<char>, m: Seq<char>, k: Seq<char>, named: bool)
    requires
        k.len() >= 2,
        k[1] != '-',
        p.len() == 2,
        modifier_of(p + k) == Some(m),
        modifier_of(k) is None,
    ensures
        key_name_of(k, k, named) matches Ok(n) ==> key_spec_of(p + k, named) == Ok::<Seq<char>, Seq<char>>(
            m + "+"@ + n,
        ),
{
    let key = p + k;
    let empty = Seq::<Seq<char>>::empty();
    assert(key.skip(2) =~= k);
    assert(!empty.contains(m));
    assert(strip_modifiers(key, key, empty) == strip_modifiers(key, k, empty.push(m)));
    assert(strip_modifiers(key, k, empty.push(m)) == Ok::<(Seq<Seq<char>>, Seq<char>), Seq<char>>(
        (empty.push(m), k),
    ));
    if let Ok(n) = key_name_of(k, k, named) {
        assert(key_name_of(k, key, named) == key_name_of(k, k, named));
        let items = empty.push(m).push(n);
        assert(items.drop_last() =~= seq![m]);
        assert(joined(items, "+"@) == joined(seq![m], "+"@) + "+"@ + n);
    }
}

/// A `C-`, `M-` or `S-` prefix adds its modifier in front of the key it
/// prefixes: `C-x` is `ctrl+x`, `M-IC` is `alt+insert`, `S-Up` is
/// `shift+Up`.
pub proof fn law_modifier_prefix_adds_its_modifier(k: Seq<char>, named: bool)
    requires
        k.len() >= 2,
        k[1] != '-',
    ensures
        key_name_of(k, k, named) matches Ok(n) ==> key_spec_of("C-"@ + k, named) == Ok::<
            Seq<char>,
            Seq<char>,
        >("ctrl"@ + "+"@ + n),
        key_name_of(k, k, named) matches Ok(n) ==> key_spec_of("M-"@ + k, named) == Ok::<
            Seq<char>,
            Seq<char>,
        >("alt"@ + "+"@ + n),
        key_name_of(k, k, named) matches Ok(n) ==> key_spec_of("S-"@ + k, named) == Ok::<
            Seq<char>,
            Seq<char>,
        >("shift"@ + "+"@ + n),
{
    reveal_strlit("C-");
    reveal_strlit("M-");
    reveal_strlit("S-");
    assert(modifier_of(k) is None) by {
        if starts_with(k, "C-"@) {
            assert(k.take(2)[1] == "C-"@[1]);
        }
        if starts_with(k, "M-"@) {
            assert(k.take(2)[1] == "M-"@[1]);
        }
        if starts_with(k, "S-"@) {
            assert(k.take(2)[1] == "S-"@[1]);
        }
    }
    let c = "C-"@ + k;
    let a = "M-"@ + k;
    let sh = "S-"@ + k;
    assert(c.take(2) =~= "C-"@);
    assert(a.take(2) =~= "M-"@);
    assert(sh.take(2) =~= "S-"@);
    assert(!starts_with(a, "C-"@)) by {
        assert(a.take(2)[0] != "C-"@[0]);
    }
    assert(!starts_with(sh, "C-"@)) by {
        assert(sh.take(2)[0] != "C-"@[0]);
    }
    assert(!starts_with(sh, "M-"@)) by {
        assert(sh.take(2)[0] != "M-"@[0]);
    }
    lemma_one_modifier("C-"@, "ctrl"@, k, named);
    lemma_one_modifier("M-"@, "alt"@, k, named);
    lemma_one_modifier("S-"@, "shift"@, k, named);
}

} // verus!
