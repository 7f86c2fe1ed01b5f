//! `minicon mux ...`: reads the tmux-style command line into the endpoint and
//! the verb to run, refusing everything a verb does not implement before any
//! request is sent.

use vstd::prelude::*;
use crate::cli::{arg_at, sc_finish};
use crate::command::views_of;
use crate::mux::{
    format_error, resolve_target, strs_view, target_of, validate_format, MuxTarget, MuxTargetView,
    DEFAULT_FORMAT, DEFAULT_PANE_FORMAT, KNOWN_FORMAT_VARS, KNOWN_PANE_FORMAT_VARS,
};
use crate::text::{concat, debug_quote, debug_text, push_str, starts_with, str_eq, has_prefix};

verus! {

pub open spec fn mux_usage_text() -> Seq<char> {
    "usage: minicon mux --control ENDPOINT <verb> [flags]\nverbs: list-windows [-F FORMAT]\n       list-panes [-F FORMAT]\n       select-window -t TARGET\n       new-window [-t TARGET]\n       kill-window [-t TARGET]\n       send-keys [-t TARGET] [-l] KEY...\n       capture-pane [-t TARGET] [-p]\na TARGET is [session:]window[.pane]; window is an @ID or a tmux index"@
}

/// The usage of `minicon mux`.
pub fn mux_usage() -> (text: String)
    ensures
        text@ == mux_usage_text(),
{
    "usage: minicon mux --control ENDPOINT <verb> [flags]\nverbs: list-windows [-F FORMAT]\n       list-panes [-F FORMAT]\n       select-window -t TARGET\n       new-window [-t TARGET]\n       kill-window [-t TARGET]\n       send-keys [-t TARGET] [-l] KEY...\n       capture-pane [-t TARGET] [-p]\na TARGET is [session:]window[.pane]; window is an @ID or a tmux index".to_owned()
}

pub open spec fn unsupported_flag_text(verb: Seq<char>, flag: Seq<char>) -> Seq<char> {
    verb + ": "@ + debug_text(flag)
        + " is not one of the tmux flags MiniCon implements; `minicon mux` with no verb lists the supported subset"@
}

/// The refusal of a tmux flag that `verb` does not implement.
pub fn unsupported_flag(verb: &str, flag: &str) -> (text: String)
    ensures
        text@ == unsupported_flag_text(verb@, flag@),
{
    let mut text = concat(verb, ": ");
    push_str(&mut text, debug_quote(flag).as_str());
    push_str(
        &mut text,
        " is not one of the tmux flags MiniCon implements; `minicon mux` with no verb lists the supported subset",
    );
    text
}

pub open spec fn flag_value_error(flag: Seq<char>) -> Seq<char> {
    flag + " requires a value"@
}

// ---------------------------------------------------------------------------
// The cursor, as functions of the argument list and a position
// ---------------------------------------------------------------------------

pub open spec fn mc_require(args: Seq<Seq<char>>, pos: int, expected: Seq<char>) -> Result<int, Seq<char>> {
    if arg_at(args, pos) == Some(expected) {
        Ok(pos + 1)
    } else {
        Err(mux_usage_text())
    }
}

pub open spec fn mc_value_for(args: Seq<Seq<char>>, pos: int, flag: Seq<char>) -> Result<(Seq<char>, int), Seq<char>> {
    match arg_at(args, pos) {
        Some(v) => Ok((v, pos + 1)),
        None => Err(flag_value_error(flag)),
    }
}

pub open spec fn mc_optional_value(args: Seq<Seq<char>>, pos: int, flag: Seq<char>) -> Result<
    (Option<Seq<char>>, int),
    Seq<char>,
> {
    if arg_at(args, pos) != Some(flag) {
        Ok((None, pos))
    } else {
        match arg_at(args, pos + 1) {
            Some(v) => Ok((Some(v), pos + 2)),
            None => Err(flag_value_error(flag)),
        }
    }
}

/// A position in the `mux` argument list.
pub struct MuxCursor<'a> {
    pub args: &'a [String],
    pub position: usize,
}

impl<'a> MuxCursor<'a> {
    pub open spec fn items(&self) -> Seq<Seq<char>> {
        views_of(self.args@)
    }

    pub open spec fn wf(&self) -> bool {
        self.position <= self.args@.len()
    }

    pub fn new(args: &'a [String]) -> (c: MuxCursor<'a>)
        ensures
            c.args == args,
            c.position == 0,
    {
        MuxCursor { args, position: 0 }
    }

    pub fn next(&mut self) -> (value: Option<&'a str>)
        requires
            old(self).wf(),
        ensures
            final(self).wf(),
            final(self).args == old(self).args,
            match arg_at(old(self).items(), old(self).position as int) {
                Some(v) => value matches Some(x) && x@ == v && final(self).position == old(
                    self).position + 1,
                None => value is None && final(self).position == old(self).position,
            },
    {
        if self.position >= self.args.len() {
            return None;
        }
        let value = self.args[self.position].as_str();
        self.position = self.position + 1;
        Some(value)
    }

    pub fn require(&mut self, expected: &str) -> (result: Result<(), String>)
        requires
            old(self).wf(),
        ensures
            final(self).wf(),
            final(self).args == old(self).args,
            match mc_require(old(self).items(), old(self).position as int, expected@) {
                Ok(p) => result is Ok && final(self).position == p,
                Err(m) => result matches Err(e) && e@ == m,
            },
    {
        match self.next() {
            Some(value) => if str_eq(value, expected) {
                Ok(())
            } else {
                Err(mux_usage())
            },
            None => Err(mux_usage()),
        }
    }

    /// The value of a flag already taken, for verbs that accept their flags
    /// in any order.
    pub fn value_for(&mut self, flag: &str) -> (result: Result<&'a str, String>)
        requires
            old(self).wf(),
        ensures
            final(self).wf(),
            final(self).args == old(self).args,
            match mc_value_for(old(self).items(), old(self).position as int, flag@) {
                Ok((v, p)) => result matches Ok(x) && x@ == v && final(self).position == p,
                Err(m) => result matches Err(e) && e@ == m,
            },
    {
        match self.next() {
            Some(v) => Ok(v),
            None => Err(concat(flag, " requires a value")),
        }
    }

    pub fn optional_value(&mut self, flag: &str) -> (result: Result<Option<&'a str>, String>)
        requires
            old(self).wf(),
        ensures
            final(self).wf(),
            final(self).args == old(self).args,
            match mc_optional_value(old(self).items(), old(self).position as int, flag@) {
                Ok((v, p)) => result matches Ok(x) && final(self).position == p && match v {
                    Some(s) => x matches Some(y) && y@ == s,
                    None => x is None,
                },
                Err(m) => result matches Err(e) && e@ == m,
            },
    {
        if self.position >= self.args.len() || !str_eq(self.args[self.position].as_str(), flag) {
            return Ok(None);
        }
        self.position = self.position + 1;
        match self.next() {
            Some(v) => Ok(Some(v)),
            None => Err(concat(flag, " requires a value")),
        }
    }

    pub fn finish(&self) -> (result: Result<(), String>)
        requires
            self.wf(),
        ensures
            match sc_finish(self.items(), self.position as int) {
                Ok(()) => result is Ok,
                Err(m) => result matches Err(e) && e@ == m,
            },
    {
        if self.position == self.args.len() {
            Ok(())
        } else {
            Err(concat("unexpected argument ", debug_quote(self.args[self.position].as_str()).as_str()))
        }
    }
}

// ---------------------------------------------------------------------------
// Verbs
// ---------------------------------------------------------------------------

/// The verb a `mux` command line asks for, with its flags read and its
/// targets resolved as far as the command line alone allows.
#[allow(inconsistent_fields)]
#[derive(Debug)]
pub enum MuxPlan {
    ListWindows { format: String },
    ListPanes { format: String },
    SelectWindow { target: MuxTarget },
    NewWindow { parent: Option<MuxTarget> },
    KillWindow { target: Option<MuxTarget> },
    /// Keys to send as written (`-l`), or as tmux key names to translate.
    SendKeys { target: Option<MuxTarget>, literal: bool, keys: Vec<String> },
    CapturePane { target: Option<MuxTarget> },
}

#[allow(inconsistent_fields)]
pub enum MuxPlanView {
    ListWindows { format: Seq<char> },
    ListPanes { format: Seq<char> },
    SelectWindow { target: MuxTargetView },
    NewWindow { parent: Option<MuxTargetView> },
    KillWindow { target: Option<MuxTargetView> },
    SendKeys { target: Option<MuxTargetView>, literal: bool, keys: Seq<Seq<char>> },
    CapturePane { target: Option<MuxTargetView> },
}

pub open spec fn target_view(t: Option<MuxTarget>) -> Option<MuxTargetView> {
    match t {
        Some(x) => Some(x@),
        None => None,
    }
}

impl View for MuxPlan {
    type V = MuxPlanView;

    open spec fn view(&self) -> MuxPlanView {
        match self {
            MuxPlan::ListWindows { format } => MuxPlanView::ListWindows { format: format@ },
            MuxPlan::ListPanes { format } => MuxPlanView::ListPanes { format: format@ },
            MuxPlan::SelectWindow { target } => MuxPlanView::SelectWindow { target: target@ },
            MuxPlan::NewWindow { parent } => MuxPlanView::NewWindow { parent: target_view(*parent) },
            MuxPlan::KillWindow { target } => MuxPlanView::KillWindow { target: target_view(*target) },
            MuxPlan::SendKeys { target, literal, keys } => MuxPlanView::SendKeys {
                target: target_view(*target),
                literal: *literal,
                keys: views_of(keys@),
            },
            MuxPlan::CapturePane { target } => MuxPlanView::CapturePane { target: target_view(*target) },
        }
    }
}

/// A parsed `mux` invocation: the endpoint and the verb.
#[derive(Debug)]
pub struct MuxRequest {
    pub control: String,
    pub plan: MuxPlan,
}

/// An optional target, resolved.
pub open spec fn resolved(target: Option<Seq<char>>) -> Result<Option<MuxTargetView>, Seq<char>> {
    match target {
        None => Ok(None),
        Some(t) => match target_of(t) {
            Ok(v) => Ok(Some(v)),
            Err(e) => Err(e),
        },
    }
}

/// `-F FORMAT` (or the default), then nothing else, then a check of the
/// format against the variables this listing knows.
pub open spec fn verb_list(args: Seq<Seq<char>>, pos: int, default: Seq<char>, known: Seq<Seq<char>>) -> Result<Seq<char>, Seq<char>> {
    match mc_optional_value(args, pos, "-F"@) {
        Err(e) => Err(e),
        Ok((given, p)) => {
            let format = match given {
                Some(f) => f,
                None => default,
            };
            match sc_finish(args, p) {
                Err(e) => Err(e),
                Ok(()) => match format_error(format, known) {
                    Some(e) => Err(e),
                    None => Ok(format),
                },
            }
        },
    }
}

/// Only `-t TARGET` flags, the last one winning.
pub open spec fn scan_target(args: Seq<Seq<char>>, pos: int, verb: Seq<char>, target: Option<Seq<char>>) -> Result<
    Option<Seq<char>>,
    Seq<char>,
>
    decreases args.len() - pos,
{
    match arg_at(args, pos) {
        None => Ok(target),
        Some(flag) => if flag == "-t"@ {
            match mc_value_for(args, pos + 1, "-t"@) {
                Ok((v, p)) => scan_target(args, p, verb, Some(v)),
                Err(e) => Err(e),
            }
        } else {
            Err(unsupported_flag_text(verb, flag))
        },
    }
}

pub open spec fn window_name_error(name: Seq<char>) -> Seq<char> {
    "new-window -n "@ + debug_text(name)
        + ": MiniCon's `new-tab` takes no window name, and dropping the name silently would leave a script believing it had set one"@
}

/// `new-window`'s flags: `-t PARENT`; a window name is refused rather than
/// dropped.
pub open spec fn scan_new_window(args: Seq<Seq<char>>, pos: int, target: Option<Seq<char>>) -> Result<
    Option<Seq<char>>,
    Seq<char>,
>
    decreases args.len() - pos,
{
    match arg_at(args, pos) {
        None => Ok(target),
        Some(flag) => if flag == "-t"@ {
            match mc_value_for(args, pos + 1, "-t"@) {
                Ok((v, p)) => scan_new_window(args, p, Some(v)),
                Err(e) => Err(e),
            }
        } else if flag == "-n"@ {
            Err(
                window_name_error(
                    match arg_at(args, pos + 1) {
                        Some(v) => v,
                        None => ""@,
                    },
                ),
            )
        } else {
            Err(unsupported_flag_text("new-window"@, flag))
        },
    }
}

/// `send-keys`' flags and keys: `-t TARGET`, `-l`, and every other argument
/// a key (a lone `-` included).
pub open spec fn scan_send_keys(
    args: Seq<Seq<char>>,
    pos: int,
    target: Option<Seq<char>>,
    literal: bool,
    keys: Seq<Seq<char>>,
) -> Result<(Option<Seq<char>>, bool, Seq<Seq<char>>), Seq<char>>
    decreases args.len() - pos,
{
    match arg_at(args, pos) {
        None => Ok((target, literal, keys)),
        Some(flag) => if flag == "-t"@ {
            match mc_value_for(args, pos + 1, "-t"@) {
                Ok((v, p)) => scan_send_keys(args, p, Some(v), literal, keys),
                Err(e) => Err(e),
            }
        } else if flag == "-l"@ {
            scan_send_keys(args, pos + 1, target, true, keys)
        } else if starts_with(flag, "-"@) && flag.len() > 1 {
            Err(unsupported_flag_text("send-keys"@, flag))
        } else {
            scan_send_keys(args, pos + 1, target, literal, keys.push(flag))
        },
    }
}

pub open spec fn history_range_error(flag: Seq<char>) -> Seq<char> {
    "capture-pane "@ + flag
        + ": BLOCKED on carried-debt item C1 -- MiniCon's scrollback semantics are not decided yet, so a history range is refused rather than approximated from the visible screen"@
}

/// `capture-pane`'s flags: `-t TARGET` and `-p`; a history range is refused.
pub open spec fn scan_capture(args: Seq<Seq<char>>, pos: int, target: Option<Seq<char>>) -> Result<
    Option<Seq<char>>,
    Seq<char>,
>
    decreases args.len() - pos,
{
    match arg_at(args, pos) {
        None => Ok(target),
        Some(flag) => if flag == "-t"@ {
            match mc_value_for(args, pos + 1, "-t"@) {
                Ok((v, p)) => scan_capture(args, p, Some(v)),
                Err(e) => Err(e),
            }
        } else if flag == "-p"@ {
            scan_capture(args, pos + 1, target)
        } else if flag == "-S"@ || flag == "-E"@ {
            Err(history_range_error(flag))
        } else {
            Err(unsupported_flag_text("capture-pane"@, flag))
        },
    }
}

pub open spec fn no_keys_error() -> Seq<char> {
    "send-keys requires at least one KEY (or text, with -l)"@
}

pub open spec fn unknown_mux_verb_error(verb: Seq<char>) -> Seq<char> {
    "mux: unknown verb "@ + debug_text(verb) + "\n"@ + mux_usage_text()
}

/// The plan of verb `verb`, whose flags start at `pos`.
pub open spec fn mux_verb_plan(args: Seq<Seq<char>>, pos: int, verb: Seq<char>) -> Result<MuxPlanView, Seq<char>> {
    if verb == "list-windows"@ {
        match verb_list(args, pos, DEFAULT_FORMAT@, strs_view(KNOWN_FORMAT_VARS@)) {
            Ok(f) => Ok(MuxPlanView::ListWindows { format: f }),
            Err(e) => Err(e),
        }
    } else if verb == "list-panes"@ {
        match verb_list(args, pos, DEFAULT_PANE_FORMAT@, strs_view(KNOWN_PANE_FORMAT_VARS@)) {
            Ok(f) => Ok(MuxPlanView::ListPanes { format: f }),
            Err(e) => Err(e),
        }
    } else if verb == "select-window"@ {
        match scan_target(args, pos, verb, None) {
            Err(e) => Err(e),
            Ok(None) => Err(verb + " requires -t TARGET"@),
            Ok(Some(t)) => match target_of(t) {
                Ok(v) => Ok(MuxPlanView::SelectWindow { target: v }),
                Err(e) => Err(e),
            },
        }
    } else if verb == "new-window"@ {
        match scan_new_window(args, pos, None) {
            Err(e) => Err(e),
            Ok(t) => match resolved(t) {
                Ok(v) => Ok(MuxPlanView::NewWindow { parent: v }),
                Err(e) => Err(e),
            },
        }
    } else if verb == "kill-window"@ {
        match scan_target(args, pos, verb, None) {
            Err(e) => Err(e),
            Ok(t) => match resolved(t) {
                Ok(v) => Ok(MuxPlanView::KillWindow { target: v }),
                Err(e) => Err(e),
            },
        }
    } else if verb == "send-keys"@ {
        match scan_send_keys(args, pos, None, false, Seq::empty()) {
            Err(e) => Err(e),
            Ok((t, literal, keys)) => if keys.len() == 0 {
                Err(no_keys_error())
            } else {
                match resolved(t) {
                    Ok(v) => Ok(MuxPlanView::SendKeys { target: v, literal, keys }),
                    Err(e) => Err(e),
                }
            },
        }
    } else if verb == "capture-pane"@ {
        match scan_capture(args, pos, None) {
            Err(e) => Err(e),
            Ok(t) => match resolved(t) {
                Ok(v) => Ok(MuxPlanView::CapturePane { target: v }),
                Err(e) => Err(e),
            },
        }
    } else {
        Err(unknown_mux_verb_error(verb))
    }
}

pub open spec fn control_value_error(value: Seq<char>) -> Seq<char> {
    "--control requires a value, got "@ + debug_text(value)
}

pub open spec fn missing_control_error() -> Seq<char> {
    "mux: --control requires a value (or set MINICON_CONTROL)\n"@ + mux_usage_text()
}

/// The endpoint and plan of a whole `mux` command line; `env_control` is
/// the `MINICON_CONTROL` the process was started with, if any.
pub open spec fn mux_request_of(args: Seq<Seq<char>>, env_control: Option<Seq<char>>) -> Result<
    (Seq<char>, MuxPlanView),
    Seq<char>,
> {
    match mc_require(args, 0, "mux"@) {
        Err(e) => Err(e),
        Ok(p) => match mc_optional_value(args, p, "--control"@) {
            Err(e) => Err(e),
            Ok((given, q)) => {
                let control: Result<Seq<char>, Seq<char>> = match given {
                    Some(v) => if !starts_with(v, "--"@) {
                        Ok(v)
                    } else {
                        Err(control_value_error(v))
                    },
                    None => match env_control {
                        Some(v) => Ok(v),
                        None => Err(missing_control_error()),
                    },
                };
                match control {
                    Err(e) => Err(e),
                    Ok(c) => match arg_at(args, q) {
                        None => Err(mux_usage_text()),
                        Some(verb) => match mux_verb_plan(args, q + 1, verb) {
                            Ok(plan) => Ok((c, plan)),
                            Err(e) => Err(e),
                        },
                    },
                }
            },
        },
    }
}

fn list_format(cursor: &mut MuxCursor, default: &str, known: &[&str]) -> (result: Result<String, String>)
    requires
        old(cursor).wf(),
    ensures
        final(cursor).wf(),
        final(cursor).args == old(cursor).args,
        match verb_list(old(cursor).items(), old(cursor).position as int, default@, strs_view(known@)) {
            Ok(f) => result matches Ok(r) && r@ == f,
            Err(m) => result matches Err(e) && e@ == m,
        },
{
    let format = match cursor.optional_value("-F") {
        Ok(Some(f)) => f.to_owned(),
        Ok(None) => default.to_owned(),
        Err(e) => return Err(e),
    };
    if let Err(e) = cursor.finish() {
        return Err(e);
    }
    match validate_format(format.as_str(), known) {
        Ok(()) => Ok(format),
        Err(e) => Err(e),
    }
}

/// Reads only `-t TARGET` flags, the last one winning; any other flag is
/// refused in `verb`'s name.
pub fn optional_target(verb: &str, cursor: &mut MuxCursor) -> (result: Result<Option<String>, String>)
    requires
        old(cursor).wf(),
    ensures
        final(cursor).wf(),
        final(cursor).args == old(cursor).args,
        match scan_target(old(cursor).items(), old(cursor).position as int, verb@, None) {
            Ok(t) => result matches Ok(r) && match t {
                Some(v) => r matches Some(x) && x@ == v,
                None => r is None,
            },
            Err(m) => result matches Err(e) && e@ == m,
        },
{
    let ghost args = cursor.items();
    let mut target: Option<String> = None;
    loop
        invariant
            cursor.wf(),
            cursor.args == old(cursor).args,
            args == cursor.items(),
            scan_target(args, old(cursor).position as int, verb@, None) == scan_target(
                args,
                cursor.position as int,
                verb@,
                match target {
                    Some(t) => Some(t@),
                    None => None,
                },
            ),
        decreases args.len() - cursor.position,
    {
        let flag = match cursor.next() {
            Some(f) => f,
            None => return Ok(target),
        };
        if str_eq(flag, "-t") {
            match cursor.value_for("-t") {
                Ok(v) => target = Some(v.to_owned()),
                Err(e) => return Err(e),
            }
        } else {
            return Err(unsupported_flag(verb, flag));
        }
    }
}

/// `optional_target`, with the target demanded.
pub fn required_target(verb: &str, cursor: &mut MuxCursor) -> (result: Result<String, String>)
    requires
        old(cursor).wf(),
    ensures
        final(cursor).wf(),
        final(cursor).args == old(cursor).args,
        match scan_target(old(cursor).items(), old(cursor).position as int, verb@, None) {
            Ok(Some(v)) => result matches Ok(r) && r@ == v,
            Ok(None) => result matches Err(e) && e@ == verb@ + " requires -t TARGET"@,
            Err(m) => result matches Err(e) && e@ == m,
        },
{
    match optional_target(verb, cursor) {
        Ok(Some(t)) => Ok(t),
        Ok(None) => Err(concat(verb, " requires -t TARGET")),
        Err(e) => Err(e),
    }
}

fn resolve_optional(target: Option<String>) -> (result: Result<Option<MuxTarget>, String>)
    ensures
        match resolved(
            match target {
                Some(t) => Some(t@),
                None => None,
            },
        ) {
            Ok(v) => result matches Ok(r) && target_view(r) == v,
            Err(m) => result matches Err(e) && e@ == m,
        },
{
    match target {
        None => Ok(None),
        Some(t) => match resolve_target(t.as_str()) {
            Ok(v) => Ok(Some(v)),
            Err(e) => Err(e),
        },
    }
}

fn scan_new_window_flags(cursor: &mut MuxCursor) -> (result: Result<Option<String>, String>)
    requires
        old(cursor).wf(),
    ensures
        final(cursor).wf(),
        final(cursor).args == old(cursor).args,
        match scan_new_window(old(cursor).items(), old(cursor).position as int, None) {
            Ok(t) => result matches Ok(r) && match t {
                Some(v) => r matches Some(x) && x@ == v,
                None => r is None,
            },
            Err(m) => result matches Err(e) && e@ == m,
        },
{
    let ghost args = cursor.items();
    let mut target: Option<String> = None;
    loop
        invariant
            cursor.wf(),
            cursor.args == old(cursor).args,
            args == cursor.items(),
            scan_new_window(args, old(cursor).position as int, None) == scan_new_window(
                args,
                cursor.position as int,
                match target {
                    Some(t) => Some(t@),
                    None => None,
                },
            ),
        decreases args.len() - cursor.position,
    {
        let flag = match cursor.next() {
            Some(f) => f,
            None => return Ok(target),
        };
        if str_eq(flag, "-t") {
            match cursor.value_for("-t") {
                Ok(v) => target = Some(v.to_owned()),
                Err(e) => return Err(e),
            }
        } else if str_eq(flag, "-n") {
            let name = match cursor.value_for("-n") {
                Ok(v) => v,
                Err(_) => "",
            };
            let mut m = concat("new-window -n ", debug_quote(name).as_str());
            push_str(
                &mut m,
                ": MiniCon's `new-tab` takes no window name, and dropping the name silently would leave a script believing it had set one",
            );
            return Err(m);
        } else {
            return Err(unsupported_flag("new-window", flag));
        }
    }
}

fn scan_send_keys_flags(cursor: &mut MuxCursor) -> (result: Result<(Option<String>, bool, Vec<String>), String>)
    requires
        old(cursor).wf(),
    ensures
        final(cursor).wf(),
        final(cursor).args == old(cursor).args,
        match scan_send_keys(old(cursor).items(), old(cursor).position as int, None, false, Seq::empty()) {
            Ok((t, literal, keys)) => result matches Ok((rt, rl, rk)) && rl == literal && views_of(rk@)
                == keys && match t {
                Some(v) => rt matches Some(x) && x@ == v,
                None => rt is None,
            },
            Err(m) => result matches Err(e) && e@ == m,
        },
{
    let ghost args = cursor.items();
    let mut target: Option<String> = None;
    let mut literal = false;
    let mut keys: Vec<String> = Vec::new();
    assert(views_of(keys@) =~= Seq::<Seq<char>>::empty());
    loop
        invariant
            cursor.wf(),
            cursor.args == old(cursor).args,
            args == cursor.items(),
            scan_send_keys(args, old(cursor).position as int, None, false, Seq::empty())
                == scan_send_keys(
                args,
                cursor.position as int,
                match target {
                    Some(t) => Some(t@),
                    None => None,
                },
                literal,
                views_of(keys@),
            ),
        decreases args.len() - cursor.position,
    {
        let flag = match cursor.next() {
            Some(f) => f,
            None => return Ok((target, literal, keys)),
        };
        if str_eq(flag, "-t") {
            match cursor.value_for("-t") {
                Ok(v) => target = Some(v.to_owned()),
                Err(e) => return Err(e),
            }
        } else if str_eq(flag, "-l") {
            literal = true;
        } else if has_prefix(flag, "-") && crate::text::chars_of(flag).len() > 1 {
            return Err(unsupported_flag("send-keys", flag));
        } else {
            let ghost before = views_of(keys@);
            keys.push(flag.to_owned());
            assert(views_of(keys@) =~= before.push(flag@));
        }
    }
}

fn scan_capture_flags(cursor: &mut MuxCursor) -> (result: Result<Option<String>, String>)
    requires
        old(cursor).wf(),
    ensures
        final(cursor).wf(),
        final(cursor).args == old(cursor).args,
        match scan_capture(old(cursor).items(), old(cursor).position as int, None) {
            Ok(t) => result matches Ok(r) && match t {
                Some(v) => r matches Some(x) && x@ == v,
                None => r is None,
            },
            Err(m) => result matches Err(e) && e@ == m,
        },
{
    let ghost args = cursor.items();
    let mut target: Option<String> = None;
    loop
        invariant
            cursor.wf(),
            cursor.args == old(cursor).args,
            args == cursor.items(),
            scan_capture(args, old(cursor).position as int, None) == scan_capture(
                args,
                cursor.position as int,
                match target {
                    Some(t) => Some(t@),
                    None => None,
                },
            ),
        decreases args.len() - cursor.position,
    {
        let flag = match cursor.next() {
            Some(f) => f,
            None => return Ok(target),
        };
        if str_eq(flag, "-t") {
            match cursor.value_for("-t") {
                Ok(v) => target = Some(v.to_owned()),
                Err(e) => return Err(e),
            }
        } else if str_eq(flag, "-p") {
        } else if str_eq(flag, "-S") || str_eq(flag, "-E") {
            let mut m = concat("capture-pane ", flag);
            push_str(
                &mut m,
                ": BLOCKED on carried-debt item C1 -- MiniCon's scrollback semantics are not decided yet, so a history range is refused rather than approximated from the visible screen",
            );
            return Err(m);
        } else {
            return Err(unsupported_flag("capture-pane", flag));
        }
    }
}

fn plan_verb(cursor: &mut MuxCursor, verb: &str) -> (result: Result<MuxPlan, String>)
    requires
        old(cursor).wf(),
    ensures
        match mux_verb_plan(old(cursor).items(), old(cursor).position as int, verb@) {
            Ok(plan) => result matches Ok(r) && r@ == plan,
            Err(m) => result matches Err(e) && e@ == m,
        },
{
    if str_eq(verb, "list-windows") {
        match list_format(cursor, DEFAULT_FORMAT, &KNOWN_FORMAT_VARS) {
            Ok(format) => Ok(MuxPlan::ListWindows { format }),
            Err(e) => Err(e),
        }
    } else if str_eq(verb, "list-panes") {
        match list_format(cursor, DEFAULT_PANE_FORMAT, &KNOWN_PANE_FORMAT_VARS) {
            Ok(format) => Ok(MuxPlan::ListPanes { format }),
            Err(e) => Err(e),
        }
    } else if str_eq(verb, "select-window") {
        match required_target(verb, cursor) {
            Ok(t) => match resolve_target(t.as_str()) {
                Ok(target) => Ok(MuxPlan::SelectWindow { target }),
                Err(e) => Err(e),
            },
            Err(e) => Err(e),
        }
    } else if str_eq(verb, "new-window") {
        match scan_new_window_flags(cursor) {
            Ok(t) => match resolve_optional(t) {
                Ok(parent) => Ok(MuxPlan::NewWindow { parent }),
                Err(e) => Err(e),
            },
            Err(e) => Err(e),
        }
    } else if str_eq(verb, "kill-window") {
        match optional_target(verb, cursor) {
            Ok(t) => match resolve_optional(t) {
                Ok(target) => Ok(MuxPlan::KillWindow { target }),
                Err(e) => Err(e),
            },
            Err(e) => Err(e),
        }
    } else if str_eq(verb, "send-keys") {
        match scan_send_keys_flags(cursor) {
            Ok((t, literal, keys)) => {
                if keys.len() == 0 {
                    return Err("send-keys requires at least one KEY (or text, with -l)".to_owned());
                }
                match resolve_optional(t) {
                    Ok(target) => Ok(MuxPlan::SendKeys { target, literal, keys }),
                    Err(e) => Err(e),
                }
            },
            Err(e) => Err(e),
        }
    } else if str_eq(verb, "capture-pane") {
        match scan_capture_flags(cursor) {
            Ok(t) => match resolve_optional(t) {
                Ok(target) => Ok(MuxPlan::CapturePane { target }),
                Err(e) => Err(e),
            },
            Err(e) => Err(e),
        }
    } else {
        let mut m = concat("mux: unknown verb ", debug_quote(verb).as_str());
        push_str(&mut m, "\n");
        push_str(&mut m, mux_usage().as_str());
        Err(m)
    }
}

/// Reads `mux [--control ENDPOINT] VERB ...` into the endpoint and the verb's
/// plan, or the message to print. Without `--control`, `env_control` (the
/// `MINICON_CONTROL` this process was started with) names the endpoint.
pub fn plan_mux(args: &[String], env_control: Option<String>) -> (result: Result<MuxRequest, String>)
    ensures
        match mux_request_of(
            views_of(args@),
            match env_control {
                Some(c) => Some(c@),
                None => None,
            },
        ) {
            Ok((control, plan)) => result matches Ok(r) && r.control@ == control && r.plan@ == plan,
            Err(m) => result matches Err(e) && e@ == m,
        },
{
    let mut cursor = MuxCursor::new(args);
    if let Err(e) = cursor.require("mux") {
        return Err(e);
    }
    let control = match cursor.optional_value("--control") {
        Err(e) => return Err(e),
        Ok(Some(explicit)) => {
            if has_prefix(explicit, "--") {
                return Err(concat("--control requires a value, got ", debug_quote(explicit).as_str()));
            }
            explicit.to_owned()
        },
        Ok(None) => match env_control {
            Some(c) => c,
            None => {
                let mut m = "mux: --control requires a value (or set MINICON_CONTROL)\n".to_owned();
                push_str(&mut m, mux_usage().as_str());
                return Err(m);
            },
        },
    };
    let verb = match cursor.next() {
        Some(v) => v,
        None => return Err(mux_usage()),
    };
    match plan_verb(&mut cursor, verb) {
        Ok(plan) => Ok(MuxRequest { control, plan }),
        Err(e) => Err(e),
    }
}

} // verus!

verus! {

/// An explicit `--control` names the endpoint whatever `MINICON_CONTROL`
/// holds: with `--control` given, the environment changes nothing, and a
/// planned request goes to the endpoint written after the flag. Without it,
/// a planned request goes to the environment's endpoint.
pub proof fn law_explicit_control_wins(
    args: Seq<Seq<char>>,
    env: Option<Seq<char>>,
    other_env: Option<Seq<char>>,
)
    ensures
        arg_at(args, 1) == Some("--control"@) ==> mux_request_of(args, env) == mux_request_of(
            args,
            other_env,
        ),
        arg_at(args, 1) == Some("--control"@) ==> (mux_request_of(args, env) matches Ok((c, _)) ==> Some(
            c,
        ) == arg_at(args, 2)),
        arg_at(args, 1) != Some("--control"@) ==> (env matches Some(e) ==> (mux_request_of(
            args,
            env,
        ) matches Ok((c, _)) ==> c == e)),
{
}

} // verus!
