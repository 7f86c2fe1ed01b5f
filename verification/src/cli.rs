//! `minicon cli`: the command line that names one control command.

use vstd::prelude::*;

use crate::command::{
    CliCommand, CommandView, ImeEvent, ImeView, MouseAction, MouseButton,
    validate_ime_event, validate_window_size, window_size_error, window_size_valid,
};
use crate::tab::TabId;
use crate::text::{
    chars_of, concat, debug_quote, debug_text, has_prefix, push_str, starts_with, str_eq,
};

verus! {

/// Default `capture-pane` result size.
pub const DEFAULT_CAPTURE_BYTES: usize = 262144;

/// Largest `capture-pane` result size.
pub const MAX_CAPTURE_BYTES: usize = 1048576;

// ---------------------------------------------------------------------------
// Numbers
// ---------------------------------------------------------------------------

pub open spec fn is_digit(c: char) -> bool {
    '0' <= c <= '9'
}

pub open spec fn all_digits(s: Seq<char>) -> bool {
    forall|i: int| 0 <= i < s.len() ==> is_digit(#[trigger] s[i])
}

/// The number the decimal digits `s` spell.
pub open spec fn digits_value(s: Seq<char>) -> nat
    decreases s.len(),
{
    if s.len() == 0 {
        0
    } else {
        digits_value(s.drop_last()) * 10 + (s.last() as nat - '0' as nat) as nat
    }
}

/// `s` without one leading `+`.
pub open spec fn unsigned_part(s: Seq<char>) -> Seq<char> {
    if s.len() > 0 && s[0] == '+' {
        s.drop_first()
    } else {
        s
    }
}

pub proof fn lemma_digits_value_monotone(s: Seq<char>, i: int)
    requires
        0 <= i <= s.len(),
        all_digits(s),
    ensures
        digits_value(s.take(i)) <= digits_value(s),
    decreases s.len(),
{
    if i < s.len() {
        assert(all_digits(s.drop_last()));
        lemma_digits_value_monotone(s.drop_last(), i);
        assert(s.drop_last().take(i) =~= s.take(i));
    } else {
        assert(s.take(i) =~= s);
    }
}

/// One or more ASCII digits whose value fits in 64 bits.
pub open spec fn digits_u64(d: Seq<char>) -> Option<u64> {
    if d.len() > 0 && all_digits(d) && digits_value(d) <= u64::MAX {
        Some(digits_value(d) as u64)
    } else {
        None
    }
}

/// An unsigned decimal: an optional `+`, then one or more ASCII digits
/// whose value fits in 64 bits.
pub open spec fn decimal_u64(s: Seq<char>) -> Option<u64> {
    digits_u64(unsigned_part(s))
}

/// A signed decimal as std's `i16::from_str` reads it: an optional `+` or
/// `-`, then one or more ASCII digits, in range.
pub open spec fn decimal_i16(s: Seq<char>) -> Option<i16> {
    if s.len() > 0 && s[0] == '-' {
        match digits_u64(s.drop_first()) {
            Some(v) => if v <= 32768 {
                Some((0 - v) as i16)
            } else {
                None
            },
            None => None,
        }
    } else {
        match digits_u64(unsigned_part(s)) {
            Some(v) => if v <= 32767 {
                Some(v as i16)
            } else {
                None
            },
            None => None,
        }
    }
}

/// The value of the digits of `chars` from `start` on.
fn parse_digits(chars: &Vec<char>, start: usize) -> (parsed: Option<u64>)
    requires
        start <= chars@.len(),
    ensures
        parsed == digits_u64(chars@.skip(start as int)),
{
    let ghost d = chars@.skip(start as int);
    if start == chars.len() {
        return None;
    }
    let mut index = start;
    let mut parsed: u64 = 0;
    while index < chars.len()
        invariant
            start <= index <= chars@.len(),
            d == chars@.skip(start as int),
            d.len() > 0,
            all_digits(d.take(index - start)),
            parsed as nat == digits_value(d.take(index - start)),
        decreases chars@.len() - index,
    {
        let ghost k = index - start;
        let c = chars[index];
        if !(c >= '0' && c <= '9') {
            assert(!is_digit(d[k]));
            return None;
        }
        let digit = (c as u32 - '0' as u32) as u64;
        assert(d.take(k + 1).drop_last() =~= d.take(k));
        assert(d.take(k + 1).last() == c);
        assert(all_digits(d.take(k + 1)));
        let m = parsed.checked_mul(10);
        if m.is_none() {
            proof {
                if all_digits(d) {
                    lemma_digits_value_monotone(d, k + 1);
                }
            }
            return None;
        }
        let a = m.unwrap().checked_add(digit);
        if a.is_none() {
            proof {
                if all_digits(d) {
                    lemma_digits_value_monotone(d, k + 1);
                }
            }
            return None;
        }
        parsed = a.unwrap();
        index = index + 1;
    }
    assert(d.take(d.len() as int) =~= d);
    Some(parsed)
}

/// Parses an unsigned decimal, refusing anything else (including overflow).
pub fn parse_u64_decimal(value: &str) -> (parsed: Option<u64>)
    ensures
        parsed == decimal_u64(value@),
{
    let chars = chars_of(value);
    if chars.len() > 0 && chars[0] == '+' {
        assert(unsigned_part(value@) =~= chars@.skip(1));
        parse_digits(&chars, 1)
    } else {
        assert(unsigned_part(value@) =~= chars@.skip(0));
        parse_digits(&chars, 0)
    }
}

/// Parses a signed 16-bit decimal the way `str::parse::<i16>` does.
pub fn parse_i16_decimal(value: &str) -> (parsed: Option<i16>)
    ensures
        parsed == decimal_i16(value@),
{
    let chars = chars_of(value);
    if chars.len() > 0 && chars[0] == '-' {
        assert(value@.drop_first() =~= chars@.skip(1));
        match parse_digits(&chars, 1) {
            Some(v) => if v <= 32768 {
                Some((0 - (v as i32)) as i16)
            } else {
                None
            },
            None => None,
        }
    } else {
        let start: usize = if chars.len() > 0 && chars[0] == '+' { 1 } else { 0 };
        assert(unsigned_part(value@) =~= chars@.skip(start as int));
        match parse_digits(&chars, start) {
            Some(v) => if v <= 32767 {
                Some(v as i16)
            } else {
                None
            },
            None => None,
        }
    }
}


// ---------------------------------------------------------------------------
// Messages
// ---------------------------------------------------------------------------

pub open spec fn usage_text() -> Seq<char> {
    "usage: minicon cli list-commands\n       minicon cli --control ENDPOINT <list-tabs|ui-snapshot|perf-stats|reset-perf-stats|cancel-pointer|close-window|detach-gui|attach-gui|resize-window|new-tab|select-tab|close-tab|capture-pane|screenshot-pane|send-text|send-paste|send-keys|send-ui-ime|send-ui-keys|send-mouse|send-wheel|wait-text|wait-tab-exit> ..."@
}

/// The one-line usage of `minicon cli`.
pub fn usage() -> (text: String)
    ensures
        text@ == usage_text(),
{
    "usage: minicon cli list-commands\n       minicon cli --control ENDPOINT <list-tabs|ui-snapshot|perf-stats|reset-perf-stats|cancel-pointer|close-window|detach-gui|attach-gui|resize-window|new-tab|select-tab|close-tab|capture-pane|screenshot-pane|send-text|send-paste|send-keys|send-ui-ime|send-ui-keys|send-mouse|send-wheel|wait-text|wait-tab-exit> ...".to_owned()
}

pub open spec fn requires_value_error(flag: Seq<char>) -> Seq<char> {
    flag + " requires a value"@
}

pub open spec fn requires_tab_error(flag: Seq<char>) -> Seq<char> {
    flag + " requires @TAB_ID"@
}

pub open spec fn invalid_tab_error(value: Seq<char>) -> Seq<char> {
    "invalid tab target "@ + debug_text(value) + "; expected @TAB_ID"@
}

pub open spec fn unsigned_error(flag: Seq<char>) -> Seq<char> {
    flag + " must be an unsigned integer"@
}

pub open spec fn u16_error(flag: Seq<char>) -> Seq<char> {
    flag + " must be an unsigned 16-bit integer"@
}

pub open spec fn i16_error(flag: Seq<char>) -> Seq<char> {
    flag + " must be a signed 16-bit integer"@
}

pub open spec fn expected_flag_error(flag: Seq<char>, value: Seq<char>) -> Seq<char> {
    "expected "@ + flag + ", got "@ + debug_text(value)
}

pub open spec fn unexpected_error(value: Seq<char>) -> Seq<char> {
    "unexpected argument "@ + debug_text(value)
}

// ---------------------------------------------------------------------------
// The cursor, as functions of the argument list and a position
// ---------------------------------------------------------------------------

pub open spec fn arg_at(args: Seq<Seq<char>>, pos: int) -> Option<Seq<char>> {
    if 0 <= pos < args.len() {
        Some(args[pos])
    } else {
        None
    }
}

pub open spec fn sc_require(args: Seq<Seq<char>>, pos: int, expected: Seq<char>) -> Result<int, Seq<char>> {
    match arg_at(args, pos) {
        Some(v) => if v == expected {
            Ok(pos + 1)
        } else {
            Err(usage_text())
        },
        None => Err(usage_text()),
    }
}

pub open spec fn sc_required_value(args: Seq<Seq<char>>, pos: int, flag: Seq<char>) -> Result<(Seq<char>, int), Seq<char>> {
    match arg_at(args, pos) {
        Some(v) => if v == flag {
            match arg_at(args, pos + 1) {
                Some(x) => if !starts_with(x, "--"@) {
                    Ok((x, pos + 2))
                } else {
                    Err(requires_value_error(flag))
                },
                None => Err(requires_value_error(flag)),
            }
        } else {
            Err(expected_flag_error(flag, v))
        },
        None => Err(requires_value_error(flag)),
    }
}

/// `flag @N` with `N` a non-zero decimal, or nothing when `flag` is absent.
pub open spec fn sc_optional_tab(args: Seq<Seq<char>>, pos: int, flag: Seq<char>) -> Result<(Option<TabId>, int), Seq<char>> {
    if arg_at(args, pos) != Some(flag) {
        Ok((None, pos))
    } else {
        match arg_at(args, pos + 1) {
            None => Err(requires_tab_error(flag)),
            Some(v) => if v.len() > 0 && v[0] == '@' {
                match decimal_u64(v.drop_first()) {
                    Some(id) => if id != 0 {
                        Ok((Some(TabId(id)), pos + 2))
                    } else {
                        Err(invalid_tab_error(v))
                    },
                    None => Err(invalid_tab_error(v)),
                }
            } else {
                Err(invalid_tab_error(v))
            },
        }
    }
}

pub open spec fn sc_required_tab(args: Seq<Seq<char>>, pos: int, flag: Seq<char>) -> Result<(TabId, int), Seq<char>> {
    match sc_optional_tab(args, pos, flag) {
        Ok((Some(t), p)) => Ok((t, p)),
        Ok((None, _)) => Err(requires_tab_error(flag)),
        Err(e) => Err(e),
    }
}

pub open spec fn sc_optional_u64(args: Seq<Seq<char>>, pos: int, flag: Seq<char>) -> Result<(Option<u64>, int), Seq<char>> {
    if arg_at(args, pos) != Some(flag) {
        Ok((None, pos))
    } else {
        match arg_at(args, pos + 1) {
            None => Err(requires_value_error(flag)),
            Some(v) => match decimal_u64(v) {
                Some(n) => Ok((Some(n), pos + 2)),
                None => Err(unsigned_error(flag)),
            },
        }
    }
}

pub open spec fn sc_optional_usize(args: Seq<Seq<char>>, pos: int, flag: Seq<char>) -> Result<(Option<usize>, int), Seq<char>> {
    match sc_optional_u64(args, pos, flag) {
        Ok((Some(n), p)) => if n <= usize::MAX {
            Ok((Some(n as usize), p))
        } else {
            Err(unsigned_error(flag))
        },
        Ok((None, p)) => Ok((None, p)),
        Err(e) => Err(e),
    }
}

pub open spec fn sc_required_u16(args: Seq<Seq<char>>, pos: int, flag: Seq<char>) -> Result<(u16, int), Seq<char>> {
    match sc_required_value(args, pos, flag) {
        Ok((v, p)) => match decimal_u64(v) {
            Some(n) => if n <= u16::MAX {
                Ok((n as u16, p))
            } else {
                Err(u16_error(flag))
            },
            None => Err(u16_error(flag)),
        },
        Err(e) => Err(e),
    }
}

pub open spec fn sc_required_i16(args: Seq<Seq<char>>, pos: int, flag: Seq<char>) -> Result<(i16, int), Seq<char>> {
    match sc_required_value(args, pos, flag) {
        Ok((v, p)) => match decimal_i16(v) {
            Some(n) => Ok((n, p)),
            None => Err(i16_error(flag)),
        },
        Err(e) => Err(e),
    }
}

pub open spec fn sc_optional_flag(args: Seq<Seq<char>>, pos: int, flag: Seq<char>) -> (bool, int) {
    if arg_at(args, pos) == Some(flag) {
        (true, pos + 1)
    } else {
        (false, pos)
    }
}

pub open spec fn sc_finish(args: Seq<Seq<char>>, pos: int) -> Result<(), Seq<char>> {
    if pos == args.len() {
        Ok(())
    } else {
        Err(unexpected_error(args[pos]))
    }
}

// ---------------------------------------------------------------------------
// The cursor
// ---------------------------------------------------------------------------

/// A position in the argument list.
pub struct Cursor<'a> {
    pub args: &'a [String],
    pub position: usize,
}

impl<'a> Cursor<'a> {
    pub open spec fn items(&self) -> Seq<Seq<char>> {
        crate::command::views_of(self.args@)
    }

    pub open spec fn wf(&self) -> bool {
        self.position <= self.args@.len()
    }

    pub fn new(args: &'a [String]) -> (c: Cursor<'a>)
        ensures
            c.args == args,
            c.position == 0,
    {
        Cursor { args, position: 0 }
    }

    pub fn next(&mut self) -> (value: Option<&'a str>)
        requires
            old(self).wf(),
        ensures
            final(self).wf(),
            final(self).args == old(self).args,
            match arg_at(old(self).items(), old(self).position as int) {
                Some(v) => value matches Some(x) && x@ == v && final(self).position == old(
                    self).position + 1,
                None => value is None && final(self).position == old(self).position,
            },
    {
        if self.position >= self.args.len() {
            return None;
        }
        let value = self.args[self.position].as_str();
        self.position = self.position + 1;
        Some(value)
    }

    fn peek_is(&self, flag: &str) -> (b: bool)
        requires
            self.wf(),
        ensures
            b == (arg_at(self.items(), self.position as int) == Some(flag@)),
            b ==> self.position < self.args@.len(),
            self.args@.len() <= usize::MAX,
    {
        self.position < self.args.len() && str_eq(self.args[self.position].as_str(), flag)
    }

    pub fn require(&mut self, expected: &str) -> (result: Result<(), String>)
        requires
            old(self).wf(),
        ensures
            final(self).wf(),
            final(self).args == old(self).args,
            match sc_require(old(self).items(), old(self).position as int, expected@) {
                Ok(p) => result is Ok && final(self).position == p,
                Err(m) => result matches Err(e) && e@ == m,
            },
    {
        match self.next() {
            Some(value) => if str_eq(value, expected) {
                Ok(())
            } else {
                Err(usage())
            },
            None => Err(usage()),
        }
    }

    pub fn required_value(&mut self, flag: &str) -> (result: Result<&'a str, String>)
        requires
            old(self).wf(),
        ensures
            final(self).wf(),
            final(self).args == old(self).args,
            match sc_required_value(old(self).items(), old(self).position as int, flag@) {
                Ok((v, p)) => result matches Ok(x) && x@ == v && final(self).position == p,
                Err(m) => result matches Err(e) && e@ == m,
            },
    {
        match self.next() {
            Some(value) => if str_eq(value, flag) {
                match self.next() {
                    Some(x) => if !has_prefix(x, "--") {
                        Ok(x)
                    } else {
                        Err(concat(flag, " requires a value"))
                    },
                    None => Err(concat(flag, " requires a value")),
                }
            } else {
                let mut m = concat("expected ", flag);
                push_str(&mut m, ", got ");
                push_str(&mut m, debug_quote(value).as_str());
                Err(m)
            },
            None => Err(concat(flag, " requires a value")),
        }
    }

    pub fn optional_target(&mut self) -> (result: Result<Option<TabId>, String>)
        requires
            old(self).wf(),
        ensures
            final(self).wf(),
            final(self).args == old(self).args,
            match sc_optional_tab(old(self).items(), old(self).position as int, "--target"@) {
                Ok((t, p)) => result == Ok::<Option<TabId>, String>(t) && final(self).position == p,
                Err(m) => result matches Err(e) && e@ == m,
            },
    {
        self.optional_tab("--target")
    }

    pub fn optional_tab(&mut self, flag: &str) -> (result: Result<Option<TabId>, String>)
        requires
            old(self).wf(),
        ensures
            final(self).wf(),
            final(self).args == old(self).args,
            match sc_optional_tab(old(self).items(), old(self).position as int, flag@) {
                Ok((t, p)) => result == Ok::<Option<TabId>, String>(t) && final(self).position == p,
                Err(m) => result matches Err(e) && e@ == m,
            },
    {
        if !self.peek_is(flag) {
            return Ok(None);
        }
        self.position = self.position + 1;
        let value = match self.next() {
            Some(value) => value,
            None => return Err(concat(flag, " requires @TAB_ID")),
        };
        let invalid = || -> (m: String)
            ensures
                m@ == invalid_tab_error(value@),
        {
            let mut m = concat("invalid tab target ", debug_quote(value).as_str());
            push_str(&mut m, "; expected @TAB_ID");
            m
        };
        let chars = chars_of(value);
        if chars.len() == 0 || chars[0] != '@' {
            return Err(invalid());
        }
        let digits = crate::text::string_from_chars(&tail_chars(&chars));
        assert(digits@ =~= value@.drop_first());
        match parse_u64_decimal(digits.as_str()) {
            Some(id) => if id != 0 {
                Ok(Some(TabId::new(id)))
            } else {
                Err(invalid())
            },
            None => Err(invalid()),
        }
    }

    pub fn required_tab(&mut self, flag: &str) -> (result: Result<TabId, String>)
        requires
            old(self).wf(),
        ensures
            final(self).wf(),
            final(self).args == old(self).args,
            match sc_required_tab(old(self).items(), old(self).position as int, flag@) {
                Ok((t, p)) => result == Ok::<TabId, String>(t) && final(self).position == p,
                Err(m) => result matches Err(e) && e@ == m,
            },
    {
        match self.optional_tab(flag) {
            Ok(Some(t)) => Ok(t),
            Ok(None) => Err(concat(flag, " requires @TAB_ID")),
            Err(e) => Err(e),
        }
    }

    pub fn optional_u64(&mut self, flag: &str) -> (result: Result<Option<u64>, String>)
        requires
            old(self).wf(),
        ensures
            final(self).wf(),
            final(self).args == old(self).args,
            match sc_optional_u64(old(self).items(), old(self).position as int, flag@) {
                Ok((n, p)) => result == Ok::<Option<u64>, String>(n) && final(self).position == p,
                Err(m) => result matches Err(e) && e@ == m,
            },
    {
        if !self.peek_is(flag) {
            return Ok(None);
        }
        self.position = self.position + 1;
        let value = match self.next() {
            Some(value) => value,
            None => return Err(concat(flag, " requires a value")),
        };
        match parse_u64_decimal(value) {
            Some(n) => Ok(Some(n)),
            None => Err(concat(flag, " must be an unsigned integer")),
        }
    }

    pub fn optional_usize(&mut self, flag: &str) -> (result: Result<Option<usize>, String>)
        requires
            old(self).wf(),
        ensures
            final(self).wf(),
            final(self).args == old(self).args,
            match sc_optional_usize(old(self).items(), old(self).position as int, flag@) {
                Ok((n, p)) => result == Ok::<Option<usize>, String>(n) && final(self).position == p,
                Err(m) => result matches Err(e) && e@ == m,
            },
    {
        match self.optional_u64(flag) {
            Ok(Some(n)) => if n as u128 <= usize::MAX as u128 {
                Ok(Some(n as usize))
            } else {
                Err(concat(flag, " must be an unsigned integer"))
            },
            Ok(None) => Ok(None),
            Err(e) => Err(e),
        }
    }

    pub fn required_u16(&mut self, flag: &str) -> (result: Result<u16, String>)
        requires
            old(self).wf(),
        ensures
            final(self).wf(),
            final(self).args == old(self).args,
            match sc_required_u16(old(self).items(), old(self).position as int, flag@) {
                Ok((n, p)) => result == Ok::<u16, String>(n) && final(self).position == p,
                Err(m) => result matches Err(e) && e@ == m,
            },
    {
        let value = match self.required_value(flag) {
            Ok(v) => v,
            Err(e) => return Err(e),
        };
        match parse_u64_decimal(value) {
            Some(n) => if n <= 65535 {
                Ok(n as u16)
            } else {
                Err(concat(flag, " must be an unsigned 16-bit integer"))
            },
            None => Err(concat(flag, " must be an unsigned 16-bit integer")),
        }
    }

    pub fn required_i16(&mut self, flag: &str) -> (result: Result<i16, String>)
        requires
            old(self).wf(),
        ensures
            final(self).wf(),
            final(self).args == old(self).args,
            match sc_required_i16(old(self).items(), old(self).position as int, flag@) {
                Ok((n, p)) => result == Ok::<i16, String>(n) && final(self).position == p,
                Err(m) => result matches Err(e) && e@ == m,
            },
    {
        let value = match self.required_value(flag) {
            Ok(v) => v,
            Err(e) => return Err(e),
        };
        match parse_i16_decimal(value) {
            Some(n) => Ok(n),
            None => Err(concat(flag, " must be a signed 16-bit integer")),
        }
    }

    pub fn optional_flag(&mut self, flag: &str) -> (present: bool)
        requires
            old(self).wf(),
        ensures
            final(self).wf(),
            final(self).args == old(self).args,
            (present, final(self).position as int) == sc_optional_flag(
                old(self).items(),
                old(self).position as int,
                flag@,
            ),
    {
        if self.peek_is(flag) {
            self.position = self.position + 1;
            true
        } else {
            false
        }
    }

    pub fn finish(&self) -> (result: Result<(), String>)
        requires
            self.wf(),
        ensures
            match sc_finish(self.items(), self.position as int) {
                Ok(()) => result is Ok,
                Err(m) => result matches Err(e) && e@ == m,
            },
    {
        if self.position == self.args.len() {
            Ok(())
        } else {
            Err(concat("unexpected argument ", debug_quote(self.args[self.position].as_str()).as_str()))
        }
    }
}

/// All but the first of `chars`.
fn tail_chars(chars: &Vec<char>) -> (tail: Vec<char>)
    requires
        chars@.len() > 0,
    ensures
        tail@ == chars@.drop_first(),
{
    let mut tail: Vec<char> = Vec::new();
    let mut i: usize = 1;
    while i < chars.len()
        invariant
            1 <= i <= chars@.len(),
            tail@ == chars@.subrange(1, i as int),
        decreases chars@.len() - i,
    {
        tail.push(chars[i]);
        assert(tail@ =~= chars@.subrange(1, i + 1));
        i = i + 1;
    }
    assert(chars@.subrange(1, chars@.len() as int) =~= chars@.drop_first());
    tail
}


// ---------------------------------------------------------------------------
// Verbs
// ---------------------------------------------------------------------------

pub open spec fn then_finish(args: Seq<Seq<char>>, pos: int, value: CommandView) -> Result<CommandView, Seq<char>> {
    match sc_finish(args, pos) {
        Ok(()) => Ok(value),
        Err(e) => Err(e),
    }
}

pub open spec fn capture_range_error() -> Seq<char> {
    "--max-bytes must be between 1 and 1048576"@
}

pub open spec fn timeout_range_error() -> Seq<char> {
    "--timeout-ms must be between 1 and 120000"@
}

pub open spec fn mouse_pair_error() -> Seq<char> {
    "send-mouse move requires --button none; button actions require a button"@
}

pub open spec fn mouse_action_of(v: Seq<char>) -> Result<MouseAction, Seq<char>> {
    if v == "press"@ {
        Ok(MouseAction::Press)
    } else if v == "release"@ {
        Ok(MouseAction::Release)
    } else if v == "move"@ {
        Ok(MouseAction::Move)
    } else if v == "click"@ {
        Ok(MouseAction::Click)
    } else {
        Err("invalid mouse action "@ + debug_text(v) + "; use press, release, move, or click"@)
    }
}

pub open spec fn mouse_button_of(v: Seq<char>) -> Result<MouseButton, Seq<char>> {
    if v == "none"@ {
        Ok(MouseButton::NoButton)
    } else if v == "left"@ {
        Ok(MouseButton::Left)
    } else if v == "middle"@ {
        Ok(MouseButton::Middle)
    } else if v == "right"@ {
        Ok(MouseButton::Right)
    } else {
        Err("invalid mouse button "@ + debug_text(v) + "; use none, left, middle, or right"@)
    }
}

pub fn parse_mouse_action(value: &str) -> (result: Result<MouseAction, String>)
    ensures
        match mouse_action_of(value@) {
            Ok(a) => result == Ok::<MouseAction, String>(a),
            Err(m) => result matches Err(e) && e@ == m,
        },
{
    if str_eq(value, "press") {
        Ok(MouseAction::Press)
    } else if str_eq(value, "release") {
        Ok(MouseAction::Release)
    } else if str_eq(value, "move") {
        Ok(MouseAction::Move)
    } else if str_eq(value, "click") {
        Ok(MouseAction::Click)
    } else {
        let mut m = concat("invalid mouse action ", debug_quote(value).as_str());
        push_str(&mut m, "; use press, release, move, or click");
        Err(m)
    }
}

pub fn parse_mouse_button(value: &str) -> (result: Result<MouseButton, String>)
    ensures
        match mouse_button_of(value@) {
            Ok(b) => result == Ok::<MouseButton, String>(b),
            Err(m) => result matches Err(e) && e@ == m,
        },
{
    if str_eq(value, "none") {
        Ok(MouseButton::NoButton)
    } else if str_eq(value, "left") {
        Ok(MouseButton::Left)
    } else if str_eq(value, "middle") {
        Ok(MouseButton::Middle)
    } else if str_eq(value, "right") {
        Ok(MouseButton::Right)
    } else {
        let mut m = concat("invalid mouse button ", debug_quote(value).as_str());
        push_str(&mut m, "; use none, left, middle, or right");
        Err(m)
    }
}

pub open spec fn verb_resize(args: Seq<Seq<char>>, pos: int) -> Result<CommandView, Seq<char>> {
    match sc_required_u16(args, pos, "--width"@) {
        Err(e) => Err(e),
        Ok((width, p1)) => match sc_required_u16(args, p1, "--height"@) {
            Err(e) => Err(e),
            Ok((height, p2)) => match sc_finish(args, p2) {
                Err(e) => Err(e),
                Ok(()) => if window_size_valid(width, height) {
                    Ok(CommandView::ResizeWindow { width, height })
                } else {
                    Err(window_size_error())
                },
            },
        },
    }
}

pub open spec fn verb_new_tab(args: Seq<Seq<char>>, pos: int) -> Result<CommandView, Seq<char>> {
    match sc_optional_tab(args, pos, "--parent"@) {
        Err(e) => Err(e),
        Ok((parent, p)) => then_finish(args, p, CommandView::NewTab { parent }),
    }
}

pub open spec fn verb_required_target(args: Seq<Seq<char>>, pos: int) -> Result<TabId, Seq<char>> {
    match sc_required_tab(args, pos, "--target"@) {
        Err(e) => Err(e),
        Ok((target, p)) => match sc_finish(args, p) {
            Err(e) => Err(e),
            Ok(()) => Ok(target),
        },
    }
}

pub open spec fn verb_capture(args: Seq<Seq<char>>, pos: int) -> Result<CommandView, Seq<char>> {
    match sc_optional_tab(args, pos, "--target"@) {
        Err(e) => Err(e),
        Ok((target, p1)) => match sc_optional_usize(args, p1, "--max-bytes"@) {
            Err(e) => Err(e),
            Ok((given, p2)) => {
                let max_bytes = match given {
                    Some(n) => n,
                    None => DEFAULT_CAPTURE_BYTES,
                };
                if max_bytes == 0 || max_bytes > MAX_CAPTURE_BYTES {
                    Err(capture_range_error())
                } else {
                    then_finish(args, p2, CommandView::CapturePane { target, max_bytes })
                }
            },
        },
    }
}

pub open spec fn verb_screenshot(args: Seq<Seq<char>>, pos: int) -> Result<CommandView, Seq<char>> {
    match sc_optional_tab(args, pos, "--target"@) {
        Err(e) => Err(e),
        Ok((target, p1)) => match sc_required_value(args, p1, "--output"@) {
            Err(e) => Err(e),
            Ok((output, p2)) => then_finish(
                args,
                p2,
                CommandView::ScreenshotPane { target, output },
            ),
        },
    }
}

/// `[--target TAB] TEXT`, nothing after.
pub open spec fn verb_target_text(args: Seq<Seq<char>>, pos: int, missing: Seq<char>) -> Result<(Option<TabId>, Seq<char>), Seq<char>> {
    match sc_optional_tab(args, pos, "--target"@) {
        Err(e) => Err(e),
        Ok((target, p1)) => match arg_at(args, p1) {
            None => Err(missing),
            Some(text) => match sc_finish(args, p1 + 1) {
                Err(e) => Err(e),
                Ok(()) => Ok((target, text)),
            },
        },
    }
}

pub open spec fn verb_send_keys(args: Seq<Seq<char>>, pos: int) -> Result<CommandView, Seq<char>> {
    match sc_optional_tab(args, pos, "--target"@) {
        Err(e) => Err(e),
        Ok((target, p1)) => if p1 >= args.len() {
            Err("send-keys requires at least one KEY"@)
        } else {
            Ok(CommandView::SendKeys { target, keys: args.subrange(p1, args.len() as int) })
        },
    }
}

pub open spec fn verb_send_ui_keys(args: Seq<Seq<char>>, pos: int) -> Result<CommandView, Seq<char>> {
    if pos >= args.len() {
        Err("send-ui-keys requires at least one KEY"@)
    } else {
        Ok(CommandView::SendUiKeys { keys: args.subrange(pos, args.len() as int) })
    }
}

pub open spec fn ime_action_of(args: Seq<Seq<char>>, pos: int) -> Result<(ImeView, int), Seq<char>> {
    match arg_at(args, pos) {
        None => Err("send-ui-ime requires enabled, preedit, commit, or disabled"@),
        Some(action) => if action == "enabled"@ {
            Ok((ImeView::Enabled, pos + 1))
        } else if action == "disabled"@ {
            Ok((ImeView::Disabled, pos + 1))
        } else if action == "preedit"@ {
            match arg_at(args, pos + 1) {
                None => Err("send-ui-ime preedit requires TEXT"@),
                Some(text) => match sc_optional_usize(args, pos + 2, "--cursor"@) {
                    Err(e) => Err(e),
                    Ok((given, p)) => {
                        let at: usize = match given {
                            Some(n) => n,
                            None => text.len() as usize,
                        };
                        Ok((ImeView::Preedit { text, cursor: Some((at, at)) }, p))
                    },
                },
            }
        } else if action == "commit"@ {
            match arg_at(args, pos + 1) {
                None => Err("send-ui-ime commit requires TEXT"@),
                Some(text) => Ok((ImeView::Commit(text), pos + 2)),
            }
        } else {
            Err("invalid IME action "@ + debug_text(action)
                + "; use enabled, preedit, commit, or disabled"@)
        },
    }
}

pub open spec fn verb_ime(args: Seq<Seq<char>>, pos: int) -> Result<CommandView, Seq<char>> {
    match ime_action_of(args, pos) {
        Err(e) => Err(e),
        Ok((event, p)) => match sc_finish(args, p) {
            Err(e) => Err(e),
            Ok(()) => match crate::command::ime_view_error(event) {
                Some(e) => Err(e),
                None => Ok(CommandView::SendUiIme { event }),
            },
        },
    }
}

pub open spec fn verb_mouse(args: Seq<Seq<char>>, pos: int) -> Result<CommandView, Seq<char>> {
    match sc_optional_tab(args, pos, "--target"@) {
        Err(e) => Err(e),
        Ok((target, p1)) => match sc_required_value(args, p1, "--action"@) {
            Err(e) => Err(e),
            Ok((a, p2)) => match mouse_action_of(a) {
                Err(e) => Err(e),
                Ok(action) => match sc_required_value(args, p2, "--button"@) {
                    Err(e) => Err(e),
                    Ok((b, p3)) => match mouse_button_of(b) {
                        Err(e) => Err(e),
                        Ok(button) => match sc_required_u16(args, p3, "--column"@) {
                            Err(e) => Err(e),
                            Ok((column, p4)) => match sc_required_u16(args, p4, "--row"@) {
                                Err(e) => Err(e),
                                Ok((row, p5)) => match sc_finish(args, p5) {
                                    Err(e) => Err(e),
                                    Ok(()) => if (action == MouseAction::Move) != (button
                                        == MouseButton::NoButton) {
                                        Err(mouse_pair_error())
                                    } else {
                                        Ok(
                                            CommandView::SendMouse {
                                                target,
                                                action,
                                                button,
                                                column,
                                                row,
                                            },
                                        )
                                    },
                                },
                            },
                        },
                    },
                },
            },
        },
    }
}

pub open spec fn verb_wheel(args: Seq<Seq<char>>, pos: int) -> Result<CommandView, Seq<char>> {
    match sc_optional_tab(args, pos, "--target"@) {
        Err(e) => Err(e),
        Ok((target, p1)) => match sc_required_u16(args, p1, "--column"@) {
            Err(e) => Err(e),
            Ok((column, p2)) => match sc_required_u16(args, p2, "--row"@) {
                Err(e) => Err(e),
                Ok((row, p3)) => match sc_required_i16(args, p3, "--notches"@) {
                    Err(e) => Err(e),
                    Ok((notches, p4)) => {
                        let (ctrl, p5) = sc_optional_flag(args, p4, "--ctrl"@);
                        match sc_finish(args, p5) {
                            Err(e) => Err(e),
                            Ok(()) => if notches == 0 {
                                Err("--notches must not be zero"@)
                            } else {
                                Ok(CommandView::SendWheel { target, column, row, notches, ctrl })
                            },
                        }
                    },
                },
            },
        },
    }
}

pub open spec fn timeout_of(given: Option<u64>) -> u64 {
    match given {
        Some(n) => n,
        None => 10000,
    }
}

pub open spec fn verb_wait_text(args: Seq<Seq<char>>, pos: int) -> Result<CommandView, Seq<char>> {
    match sc_optional_tab(args, pos, "--target"@) {
        Err(e) => Err(e),
        Ok((target, p1)) => match sc_optional_u64(args, p1, "--timeout-ms"@) {
            Err(e) => Err(e),
            Ok((given, p2)) => {
                let timeout_ms = timeout_of(given);
                if timeout_ms == 0 || timeout_ms > 120000 {
                    Err(timeout_range_error())
                } else {
                    match arg_at(args, p2) {
                        None => Err("wait-text requires TEXT"@),
                        Some(text) => then_finish(
                            args,
                            p2 + 1,
                            CommandView::WaitText { target, text, timeout_ms },
                        ),
                    }
                }
            },
        },
    }
}

pub open spec fn verb_wait_tab_exit(args: Seq<Seq<char>>, pos: int) -> Result<CommandView, Seq<char>> {
    match sc_required_tab(args, pos, "--target"@) {
        Err(e) => Err(e),
        Ok((target, p1)) => match sc_optional_u64(args, p1, "--timeout-ms"@) {
            Err(e) => Err(e),
            Ok((given, p2)) => {
                let timeout_ms = timeout_of(given);
                if timeout_ms == 0 || timeout_ms > 120000 {
                    Err(timeout_range_error())
                } else {
                    then_finish(args, p2, CommandView::WaitTabExit { target, timeout_ms })
                }
            },
        },
    }
}

pub open spec fn unknown_verb_error(verb: Seq<char>) -> Seq<char> {
    "unknown minicon cli command "@ + debug_text(verb) + "\n"@ + usage_text()
}

/// The command named by `verb` and the arguments from `pos` on.
pub open spec fn verb_command(args: Seq<Seq<char>>, pos: int, verb: Seq<char>) -> Result<CommandView, Seq<char>> {
    if verb == "list-tabs"@ {
        then_finish(args, pos, CommandView::ListTabs)
    } else if verb == "ui-snapshot"@ {
        then_finish(args, pos, CommandView::UiSnapshot)
    } else if verb == "perf-stats"@ {
        then_finish(args, pos, CommandView::PerfStats)
    } else if verb == "reset-perf-stats"@ {
        then_finish(args, pos, CommandView::ResetPerfStats)
    } else if verb == "cancel-pointer"@ {
        then_finish(args, pos, CommandView::CancelPointer)
    } else if verb == "close-window"@ {
        then_finish(args, pos, CommandView::CloseWindow)
    } else if verb == "detach-gui"@ {
        then_finish(args, pos, CommandView::SetWindowAttached { attached: false })
    } else if verb == "attach-gui"@ {
        then_finish(args, pos, CommandView::SetWindowAttached { attached: true })
    } else if verb == "resize-window"@ {
        verb_resize(args, pos)
    } else if verb == "new-tab"@ {
        verb_new_tab(args, pos)
    } else if verb == "select-tab"@ {
        match verb_required_target(args, pos) {
            Ok(target) => Ok(CommandView::SelectTab { target }),
            Err(e) => Err(e),
        }
    } else if verb == "close-tab"@ {
        match verb_required_target(args, pos) {
            Ok(target) => Ok(CommandView::CloseTab { target }),
            Err(e) => Err(e),
        }
    } else if verb == "capture-pane"@ {
        verb_capture(args, pos)
    } else if verb == "screenshot-pane"@ {
        verb_screenshot(args, pos)
    } else if verb == "send-text"@ {
        match verb_target_text(args, pos, "send-text requires TEXT"@) {
            Ok((target, text)) => Ok(CommandView::SendText { target, text }),
            Err(e) => Err(e),
        }
    } else if verb == "send-paste"@ {
        match verb_target_text(args, pos, "send-paste requires TEXT"@) {
            Ok((target, text)) => Ok(CommandView::SendPaste { target, text }),
            Err(e) => Err(e),
        }
    } else if verb == "send-keys"@ {
        verb_send_keys(args, pos)
    } else if verb == "send-ui-keys"@ {
        verb_send_ui_keys(args, pos)
    } else if verb == "send-ui-ime"@ {
        verb_ime(args, pos)
    } else if verb == "send-mouse"@ {
        verb_mouse(args, pos)
    } else if verb == "send-wheel"@ {
        verb_wheel(args, pos)
    } else if verb == "wait-text"@ {
        verb_wait_text(args, pos)
    } else if verb == "wait-tab-exit"@ {
        verb_wait_tab_exit(args, pos)
    } else {
        Err(unknown_verb_error(verb))
    }
}

/// What `minicon cli --control ENDPOINT VERB ...` asks for: the endpoint and
/// the command, or why the arguments name neither.
pub open spec fn cli_request_of(args: Seq<Seq<char>>) -> Result<(Seq<char>, CommandView), Seq<char>> {
    match sc_require(args, 0, "cli"@) {
        Err(e) => Err(e),
        Ok(p0) => match sc_required_value(args, p0, "--control"@) {
            Err(e) => Err(e),
            Ok((control, p1)) => match arg_at(args, p1) {
                None => Err(usage_text()),
                Some(verb) => match verb_command(args, p1 + 1, verb) {
                    Err(e) => Err(e),
                    Ok(command) => Ok((control, command)),
                },
            },
        },
    }
}

pub open spec fn command_result_is(result: Result<CliCommand, String>, expected: Result<CommandView, Seq<char>>) -> bool {
    match expected {
        Ok(v) => result matches Ok(c) && c@ == v,
        Err(m) => result matches Err(e) && e@ == m,
    }
}


fn parse_resize(cursor: &mut Cursor) -> (result: Result<CliCommand, String>)
    requires
        old(cursor).wf(),
    ensures
        command_result_is(result, verb_resize(old(cursor).items(), old(cursor).position as int)),
{
    let width = match cursor.required_u16("--width") {
        Ok(v) => v,
        Err(e) => return Err(e),
    };
    let height = match cursor.required_u16("--height") {
        Ok(v) => v,
        Err(e) => return Err(e),
    };
    if let Err(e) = cursor.finish() {
        return Err(e);
    }
    if let Err(e) = validate_window_size(width, height) {
        return Err(e);
    }
    Ok(CliCommand::ResizeWindow { width, height })
}

fn parse_new_tab(cursor: &mut Cursor) -> (result: Result<CliCommand, String>)
    requires
        old(cursor).wf(),
    ensures
        command_result_is(result, verb_new_tab(old(cursor).items(), old(cursor).position as int)),
{
    let parent = match cursor.optional_tab("--parent") {
        Ok(v) => v,
        Err(e) => return Err(e),
    };
    if let Err(e) = cursor.finish() {
        return Err(e);
    }
    Ok(CliCommand::NewTab { parent })
}

fn parse_required_target(cursor: &mut Cursor) -> (result: Result<TabId, String>)
    requires
        old(cursor).wf(),
    ensures
        match verb_required_target(old(cursor).items(), old(cursor).position as int) {
            Ok(t) => result == Ok::<TabId, String>(t),
            Err(m) => result matches Err(e) && e@ == m,
        },
{
    let target = match cursor.required_tab("--target") {
        Ok(v) => v,
        Err(e) => return Err(e),
    };
    if let Err(e) = cursor.finish() {
        return Err(e);
    }
    Ok(target)
}

fn parse_target_text(cursor: &mut Cursor, missing: &str) -> (result: Result<(Option<TabId>, String), String>)
    requires
        old(cursor).wf(),
    ensures
        match verb_target_text(old(cursor).items(), old(cursor).position as int, missing@) {
            Ok((t, text)) => result matches Ok((x, y)) && x == t && y@ == text,
            Err(m) => result matches Err(e) && e@ == m,
        },
{
    let target = match cursor.optional_target() {
        Ok(v) => v,
        Err(e) => return Err(e),
    };
    let text = match cursor.next() {
        Some(text) => text.to_owned(),
        None => return Err(missing.to_owned()),
    };
    if let Err(e) = cursor.finish() {
        return Err(e);
    }
    Ok((target, text))
}

/// Every remaining argument, in order.
fn rest_of(cursor: &mut Cursor) -> (keys: Vec<String>)
    requires
        old(cursor).wf(),
    ensures
        final(cursor).wf(),
        final(cursor).args == old(cursor).args,
        final(cursor).position == old(cursor).args@.len(),
        crate::command::views_of(keys@) == old(cursor).items().subrange(
            old(cursor).position as int,
            old(cursor).args@.len() as int,
        ),
{
    let ghost start = cursor.position as int;
    let mut keys: Vec<String> = Vec::new();
    loop
        invariant
            cursor.wf(),
            cursor.args == old(cursor).args,
            0 <= start <= cursor.position,
            start == old(cursor).position,
            crate::command::views_of(keys@) == cursor.items().subrange(start, cursor.position as int),
        ensures
            cursor.wf(),
            cursor.args == old(cursor).args,
            cursor.position == cursor.args@.len(),
            crate::command::views_of(keys@) == cursor.items().subrange(start, cursor.position as int),
        decreases cursor.args@.len() - cursor.position,
    {
        let ghost before = keys@;
        let ghost pos = cursor.position as int;
        match cursor.next() {
            Some(key) => {
                let owned = key.to_owned();
                keys.push(owned);
                assert(keys@ =~= before.push(owned));
                assert(crate::command::views_of(keys@) =~= crate::command::views_of(before).push(
                    owned@,
                ));
                let ghost it = cursor.items();
                assert(pos < it.len());
                assert(it[pos] == owned@);
                assert(it.subrange(start, pos + 1) =~= it.subrange(start, pos).push(it[pos]));
            },
            None => break,
        }
    }
    keys
}

fn parse_capture(cursor: &mut Cursor) -> (result: Result<CliCommand, String>)
    requires
        old(cursor).wf(),
    ensures
        command_result_is(result, verb_capture(old(cursor).items(), old(cursor).position as int)),
{
    let target = match cursor.optional_target() {
        Ok(v) => v,
        Err(e) => return Err(e),
    };
    let max_bytes = match cursor.optional_usize("--max-bytes") {
        Ok(Some(n)) => n,
        Ok(None) => DEFAULT_CAPTURE_BYTES,
        Err(e) => return Err(e),
    };
    if max_bytes == 0 || max_bytes > MAX_CAPTURE_BYTES {
        return Err("--max-bytes must be between 1 and 1048576".to_owned());
    }
    if let Err(e) = cursor.finish() {
        return Err(e);
    }
    Ok(CliCommand::CapturePane { target, max_bytes })
}

fn parse_screenshot(cursor: &mut Cursor) -> (result: Result<CliCommand, String>)
    requires
        old(cursor).wf(),
    ensures
        command_result_is(result, verb_screenshot(old(cursor).items(), old(cursor).position as int)),
{
    let target = match cursor.optional_target() {
        Ok(v) => v,
        Err(e) => return Err(e),
    };
    let output = match cursor.required_value("--output") {
        Ok(v) => v.to_owned(),
        Err(e) => return Err(e),
    };
    if let Err(e) = cursor.finish() {
        return Err(e);
    }
    Ok(CliCommand::ScreenshotPane { target, output })
}

fn parse_send_keys(cursor: &mut Cursor) -> (result: Result<CliCommand, String>)
    requires
        old(cursor).wf(),
    ensures
        command_result_is(result, verb_send_keys(old(cursor).items(), old(cursor).position as int)),
{
    let target = match cursor.optional_target() {
        Ok(v) => v,
        Err(e) => return Err(e),
    };
    let keys = rest_of(cursor);
    assert(crate::command::views_of(keys@).len() == keys@.len());
    if keys.len() == 0 {
        return Err("send-keys requires at least one KEY".to_owned());
    }
    Ok(CliCommand::SendKeys { target, keys })
}

fn parse_send_ui_keys(cursor: &mut Cursor) -> (result: Result<CliCommand, String>)
    requires
        old(cursor).wf(),
    ensures
        command_result_is(result, verb_send_ui_keys(old(cursor).items(), old(cursor).position as int)),
{
    let keys = rest_of(cursor);
    assert(crate::command::views_of(keys@).len() == keys@.len());
    if keys.len() == 0 {
        return Err("send-ui-keys requires at least one KEY".to_owned());
    }
    Ok(CliCommand::SendUiKeys { keys })
}

/// Reads `enabled`, `disabled`, `preedit TEXT [--cursor N]` or `commit TEXT`.
fn parse_ime_action(cursor: &mut Cursor) -> (result: Result<ImeEvent, String>)
    requires
        old(cursor).wf(),
    ensures
        final(cursor).wf(),
        final(cursor).args == old(cursor).args,
        match ime_action_of(old(cursor).items(), old(cursor).position as int) {
            Ok((event, p)) => result matches Ok(e) && e@ == event && final(cursor).position == p,
            Err(m) => result matches Err(e) && e@ == m,
        },
{
    let action = match cursor.next() {
        Some(action) => action,
        None => return Err("send-ui-ime requires enabled, preedit, commit, or disabled".to_owned()),
    };
    if str_eq(action, "enabled") {
        Ok(ImeEvent::Enabled)
    } else if str_eq(action, "disabled") {
        Ok(ImeEvent::Disabled)
    } else if str_eq(action, "preedit") {
        let text = match cursor.next() {
            Some(text) => text.to_owned(),
            None => return Err("send-ui-ime preedit requires TEXT".to_owned()),
        };
        let char_count = text.as_str().unicode_len();
        let position = match cursor.optional_usize("--cursor") {
            Ok(Some(n)) => n,
            Ok(None) => char_count,
            Err(e) => return Err(e),
        };
        Ok(ImeEvent::Preedit { text, cursor: Some((position, position)) })
    } else if str_eq(action, "commit") {
        match cursor.next() {
            Some(text) => Ok(ImeEvent::Commit(text.to_owned())),
            None => Err("send-ui-ime commit requires TEXT".to_owned()),
        }
    } else {
        let mut m = concat("invalid IME action ", debug_quote(action).as_str());
        push_str(&mut m, "; use enabled, preedit, commit, or disabled");
        Err(m)
    }
}

fn parse_ime_event(cursor: &mut Cursor) -> (result: Result<CliCommand, String>)
    requires
        old(cursor).wf(),
    ensures
        command_result_is(result, verb_ime(old(cursor).items(), old(cursor).position as int)),
{
    let event = match parse_ime_action(cursor) {
        Ok(event) => event,
        Err(e) => return Err(e),
    };
    if let Err(e) = cursor.finish() {
        return Err(e);
    }
    if let Err(e) = validate_ime_event(&event) {
        return Err(e);
    }
    Ok(CliCommand::SendUiIme { event })
}

fn parse_send_mouse(cursor: &mut Cursor) -> (result: Result<CliCommand, String>)
    requires
        old(cursor).wf(),
    ensures
        command_result_is(result, verb_mouse(old(cursor).items(), old(cursor).position as int)),
{
    let target = match cursor.optional_target() {
        Ok(v) => v,
        Err(e) => return Err(e),
    };
    let action = match cursor.required_value("--action") {
        Ok(v) => match parse_mouse_action(v) {
            Ok(a) => a,
            Err(e) => return Err(e),
        },
        Err(e) => return Err(e),
    };
    let button = match cursor.required_value("--button") {
        Ok(v) => match parse_mouse_button(v) {
            Ok(b) => b,
            Err(e) => return Err(e),
        },
        Err(e) => return Err(e),
    };
    let column = match cursor.required_u16("--column") {
        Ok(v) => v,
        Err(e) => return Err(e),
    };
    let row = match cursor.required_u16("--row") {
        Ok(v) => v,
        Err(e) => return Err(e),
    };
    if let Err(e) = cursor.finish() {
        return Err(e);
    }
    if (action == MouseAction::Move) != (button == MouseButton::NoButton) {
        return Err(
            "send-mouse move requires --button none; button actions require a button".to_owned(),
        );
    }
    Ok(CliCommand::SendMouse { target, action, button, column, row })
}

fn parse_send_wheel(cursor: &mut Cursor) -> (result: Result<CliCommand, String>)
    requires
        old(cursor).wf(),
    ensures
        command_result_is(result, verb_wheel(old(cursor).items(), old(cursor).position as int)),
{
    let target = match cursor.optional_target() {
        Ok(v) => v,
        Err(e) => return Err(e),
    };
    let column = match cursor.required_u16("--column") {
        Ok(v) => v,
        Err(e) => return Err(e),
    };
    let row = match cursor.required_u16("--row") {
        Ok(v) => v,
        Err(e) => return Err(e),
    };
    let notches = match cursor.required_i16("--notches") {
        Ok(v) => v,
        Err(e) => return Err(e),
    };
    let ctrl = cursor.optional_flag("--ctrl");
    if let Err(e) = cursor.finish() {
        return Err(e);
    }
    if notches == 0 {
        return Err("--notches must not be zero".to_owned());
    }
    Ok(CliCommand::SendWheel { target, column, row, notches, ctrl })
}

fn parse_wait_text(cursor: &mut Cursor) -> (result: Result<CliCommand, String>)
    requires
        old(cursor).wf(),
    ensures
        command_result_is(result, verb_wait_text(old(cursor).items(), old(cursor).position as int)),
{
    let target = match cursor.optional_target() {
        Ok(v) => v,
        Err(e) => return Err(e),
    };
    let timeout_ms = match cursor.optional_u64("--timeout-ms") {
        Ok(Some(n)) => n,
        Ok(None) => 10000,
        Err(e) => return Err(e),
    };
    if timeout_ms == 0 || timeout_ms > 120000 {
        return Err("--timeout-ms must be between 1 and 120000".to_owned());
    }
    let text = match cursor.next() {
        Some(text) => text.to_owned(),
        None => return Err("wait-text requires TEXT".to_owned()),
    };
    if let Err(e) = cursor.finish() {
        return Err(e);
    }
    Ok(CliCommand::WaitText { target, text, timeout_ms })
}

fn parse_wait_tab_exit(cursor: &mut Cursor) -> (result: Result<CliCommand, String>)
    requires
        old(cursor).wf(),
    ensures
        command_result_is(result, verb_wait_tab_exit(old(cursor).items(), old(cursor).position as int)),
{
    let target = match cursor.required_tab("--target") {
        Ok(v) => v,
        Err(e) => return Err(e),
    };
    let timeout_ms = match cursor.optional_u64("--timeout-ms") {
        Ok(Some(n)) => n,
        Ok(None) => 10000,
        Err(e) => return Err(e),
    };
    if timeout_ms == 0 || timeout_ms > 120000 {
        return Err("--timeout-ms must be between 1 and 120000".to_owned());
    }
    if let Err(e) = cursor.finish() {
        return Err(e);
    }
    Ok(CliCommand::WaitTabExit { target, timeout_ms })
}

fn finish_with(cursor: &Cursor, command: CliCommand) -> (result: Result<CliCommand, String>)
    requires
        cursor.wf(),
    ensures
        command_result_is(result, then_finish(cursor.items(), cursor.position as int, command@)),
{
    match cursor.finish() {
        Ok(()) => Ok(command),
        Err(e) => Err(e),
    }
}

/// The command named by `verb`, read from the cursor.
#[verifier::rlimit(60)]
fn parse_verb(cursor: &mut Cursor, verb: &str) -> (result: Result<CliCommand, String>)
    requires
        old(cursor).wf(),
    ensures
        command_result_is(result, verb_command(old(cursor).items(), old(cursor).position as int, verb@)),
{
    if str_eq(verb, "list-tabs") {
        finish_with(cursor, CliCommand::ListTabs)
    } else if str_eq(verb, "ui-snapshot") {
        finish_with(cursor, CliCommand::UiSnapshot)
    } else if str_eq(verb, "perf-stats") {
        finish_with(cursor, CliCommand::PerfStats)
    } else if str_eq(verb, "reset-perf-stats") {
        finish_with(cursor, CliCommand::ResetPerfStats)
    } else if str_eq(verb, "cancel-pointer") {
        finish_with(cursor, CliCommand::CancelPointer)
    } else if str_eq(verb, "close-window") {
        finish_with(cursor, CliCommand::CloseWindow)
    } else if str_eq(verb, "detach-gui") {
        finish_with(cursor, CliCommand::SetWindowAttached { attached: false })
    } else if str_eq(verb, "attach-gui") {
        finish_with(cursor, CliCommand::SetWindowAttached { attached: true })
    } else if str_eq(verb, "resize-window") {
        parse_resize(cursor)
    } else if str_eq(verb, "new-tab") {
        parse_new_tab(cursor)
    } else if str_eq(verb, "select-tab") {
        match parse_required_target(cursor) {
            Ok(target) => Ok(CliCommand::SelectTab { target }),
            Err(e) => Err(e),
        }
    } else if str_eq(verb, "close-tab") {
        match parse_required_target(cursor) {
            Ok(target) => Ok(CliCommand::CloseTab { target }),
            Err(e) => Err(e),
        }
    } else if str_eq(verb, "capture-pane") {
        parse_capture(cursor)
    } else if str_eq(verb, "screenshot-pane") {
        parse_screenshot(cursor)
    } else if str_eq(verb, "send-text") {
        match parse_target_text(cursor, "send-text requires TEXT") {
            Ok((target, text)) => Ok(CliCommand::SendText { target, text }),
            Err(e) => Err(e),
        }
    } else if str_eq(verb, "send-paste") {
        match parse_target_text(cursor, "send-paste requires TEXT") {
            Ok((target, text)) => Ok(CliCommand::SendPaste { target, text }),
            Err(e) => Err(e),
        }
    } else if str_eq(verb, "send-keys") {
        parse_send_keys(cursor)
    } else if str_eq(verb, "send-ui-keys") {
        parse_send_ui_keys(cursor)
    } else if str_eq(verb, "send-ui-ime") {
        parse_ime_event(cursor)
    } else if str_eq(verb, "send-mouse") {
        parse_send_mouse(cursor)
    } else if str_eq(verb, "send-wheel") {
        parse_send_wheel(cursor)
    } else if str_eq(verb, "wait-text") {
        parse_wait_text(cursor)
    } else if str_eq(verb, "wait-tab-exit") {
        parse_wait_tab_exit(cursor)
    } else {
        let mut m = concat("unknown minicon cli command ", debug_quote(verb).as_str());
        push_str(&mut m, "\n");
        push_str(&mut m, usage().as_str());
        Err(m)
    }
}

/// A parsed `minicon cli` invocation.
#[derive(Debug, PartialEq, Eq)]
pub struct CliRequest {
    pub control: String,
    pub command: CliCommand,
}

/// Parses `cli --control ENDPOINT VERB ...` into the endpoint and the
/// command, or the message to print.
pub fn parse_cli(args: &[String]) -> (result: Result<CliRequest, String>)
    ensures
        match cli_request_of(crate::command::views_of(args@)) {
            Ok((control, command)) => result matches Ok(r) && r.control@ == control && r.command@
                == command,
            Err(m) => result matches Err(e) && e@ == m,
        },
{
    let mut cursor = Cursor::new(args);
    if let Err(e) = cursor.require("cli") {
        return Err(e);
    }
    let control = match cursor.required_value("--control") {
        Ok(v) => v.to_owned(),
        Err(e) => return Err(e),
    };
    let verb = match cursor.next() {
        Some(verb) => verb,
        None => return Err(usage()),
    };
    match parse_verb(&mut cursor, verb) {
        Ok(command) => Ok(CliRequest { control, command }),
        Err(e) => Err(e),
    }
}

/// The digits `decimal` writes read back as the number: printing an unsigned
/// integer and parsing it again gives it back.
pub proof fn law_decimal_reads_back(n: u64)
    ensures
        decimal_u64(crate::text::decimal_chars(n as nat)) == Some(n),
{
    lemma_decimal_digits(n as nat);
}

proof fn lemma_decimal_digits(n: nat)
    ensures
        crate::text::decimal_chars(n).len() > 0,
        all_digits(crate::text::decimal_chars(n)),
        digits_value(crate::text::decimal_chars(n)) == n,
        crate::text::decimal_chars(n)[0] != '+',
    decreases n,
{
    let d = crate::text::decimal_chars(n);
    if n < 10 {
        assert(d =~= seq![(n + 48) as char]);
        assert(d.drop_last() =~= Seq::<char>::empty());
        assert(((n + 48) as char) as nat == n + 48);
        assert(('0' as nat) == 48);
        assert(digits_value(d) == digits_value(d.drop_last()) * 10 + (d.last() as nat - '0' as nat) as nat);
    } else {
        lemma_decimal_digits(n / 10);
        let front = crate::text::decimal_chars(n / 10);
        let last = ((n % 10) + 48) as char;
        assert(d == front.push(last));
        assert(d.drop_last() =~= front);
        assert forall|i: int| 0 <= i < d.len() implies is_digit(#[trigger] d[i]) by {
            if i < front.len() {
                assert(d[i] == front[i]);
            }
        }
        assert(d[0] == front[0]);
        assert((last as nat) == (n % 10) + 48);
        assert(('0' as nat) == 48);
        assert(d.last() == last);
        assert(n == (n / 10) * 10 + n % 10) by (nonlinear_arith);
        assert(digits_value(d) == digits_value(front) * 10 + (last as nat - '0' as nat) as nat);
    }
}

} // verus!

verus! {

/// The names `--button` accepts, in the order the wire numbers the buttons
/// (and the refusal lists them).
pub open spec fn button_names() -> Seq<Seq<char>> {
    seq!["none"@, "left"@, "middle"@, "right"@]
}

/// The names `--action` accepts, in the order the wire numbers the actions
/// (and the refusal lists them).
pub open spec fn action_names() -> Seq<Seq<char>> {
    seq!["press"@, "release"@, "move"@, "click"@]
}

/// Each button name gives the button it names, and only the four names are
/// accepted: the button parsed from a name is the one the wire numbers as
/// that name's position in the list, so different names give different
/// buttons.
pub proof fn law_button_names_parse_to_their_buttons(v: Seq<char>)
    ensures
        mouse_button_of(v) matches Ok(b) ==> button_names()[b.spec_wire_tag() as int] == v,
        mouse_button_of(v) is Ok <==> button_names().contains(v),
        forall|i: int|
            0 <= i < 4 ==> (#[trigger] mouse_button_of(button_names()[i]) matches Ok(b) && b.spec_wire_tag()
                == i),
{
    reveal_strlit("none");
    reveal_strlit("left");
    reveal_strlit("middle");
    reveal_strlit("right");
    assert("none"@ != "left"@) by {
        assert("none"@[0] != "left"@[0]);
    }
    assert("right"@ != "middle"@) by {
        assert("right"@.len() != "middle"@.len());
    }
    assert("none"@ != "right"@ && "left"@ != "right"@ && "none"@ != "middle"@ && "left"@ != "middle"@) by {
        assert("none"@.len() != "right"@.len());
        assert("left"@.len() != "right"@.len());
        assert("none"@.len() != "middle"@.len());
        assert("left"@.len() != "middle"@.len());
    }
    let names = button_names();
    if names.contains(v) {
        let k = choose|k: int| 0 <= k < names.len() && names[k] == v;
        assert(k == 0 || k == 1 || k == 2 || k == 3);
    }
    if mouse_button_of(v) is Ok {
        assert(names[0] == "none"@ && names[1] == "left"@ && names[2] == "middle"@ && names[3] == "right"@);
        if v == "none"@ {
            assert(names.contains(v));
        } else if v == "left"@ {
            assert(names[1] == v);
        } else if v == "middle"@ {
            assert(names[2] == v);
        } else {
            assert(names[3] == v);
        }
    }
}

/// Each action name gives the action it names, and only the four names are
/// accepted: the action parsed from a name is the one the wire numbers as
/// that name's position in the list, so different names give different
/// actions.
pub proof fn law_action_names_parse_to_their_actions(v: Seq<char>)
    ensures
        mouse_action_of(v) matches Ok(a) ==> action_names()[a.spec_wire_tag() as int] == v,
        mouse_action_of(v) is Ok <==> action_names().contains(v),
        forall|i: int|
            0 <= i < 4 ==> (#[trigger] mouse_action_of(action_names()[i]) matches Ok(a) && a.spec_wire_tag()
                == i),
{
    reveal_strlit("press");
    reveal_strlit("release");
    reveal_strlit("move");
    reveal_strlit("click");
    assert("press"@ != "click"@) by {
        assert("press"@[0] != "click"@[0]);
    }
    assert("press"@ != "release"@ && "press"@ != "move"@ && "release"@ != "move"@ && "release"@
        != "click"@ && "move"@ != "click"@) by {
        assert("press"@.len() != "release"@.len());
        assert("press"@.len() != "move"@.len());
        assert("release"@.len() != "move"@.len());
        assert("release"@.len() != "click"@.len());
        assert("move"@.len() != "click"@.len());
    }
    let names = action_names();
    if names.contains(v) {
        let k = choose|k: int| 0 <= k < names.len() && names[k] == v;
        assert(k == 0 || k == 1 || k == 2 || k == 3);
    }
    if mouse_action_of(v) is Ok {
        if v == "press"@ {
            assert(names[0] == v);
        } else if v == "release"@ {
            assert(names[1] == v);
        } else if v == "move"@ {
            assert(names[2] == v);
        } else {
            assert(names[3] == v);
        }
    }
}

} // verus!
