//! What the command line asks for before any window opens: the offline
//! commands (`cli`, `--version`, `--status`, `--help`, `install-cli`,
//! `uninstall-cli`), and the decisions of linking this executable onto
//! `PATH`.

use vstd::prelude::*;
use crate::cli::arg_at;
use crate::command::views_of;
use crate::text::{concat, push_str, starts_with, str_eq, has_prefix, chars_of, string_from_chars};

verus! {

/// What a command line asks for before any window opens.
#[derive(Clone, Copy, Debug, PartialEq, Eq, Structural)]
pub enum OfflineAction {
    /// Run `minicon cli`.
    Cli,
    Version,
    Status,
    Help,
    /// Link (`true`) or unlink (`false`) this executable on `PATH`, with the
    /// arguments after the verb.
    InstallCli(bool),
    /// `--version`, `--status` or `--help` with other arguments.
    NotAlone,
    /// Nothing offline: open the window.
    Window,
}

pub open spec fn offline_action_of(args: Seq<Seq<char>>) -> OfflineAction {
    let alone = args.len() == 1;
    match arg_at(args, 0) {
        None => OfflineAction::Window,
        Some(first) => if first == "cli"@ {
            OfflineAction::Cli
        } else if (first == "--version"@ || first == "-V"@) && alone {
            OfflineAction::Version
        } else if first == "--status"@ && alone {
            OfflineAction::Status
        } else if (first == "--help"@ || first == "-h"@) && alone {
            OfflineAction::Help
        } else if first == "install-cli"@ {
            OfflineAction::InstallCli(true)
        } else if first == "uninstall-cli"@ {
            OfflineAction::InstallCli(false)
        } else if first == "--version"@ || first == "-V"@ || first == "--help"@ || first == "-h"@
            || first == "--status"@ {
            OfflineAction::NotAlone
        } else {
            OfflineAction::Window
        },
    }
}

/// Which offline command `args` (without the program name) asks for.
pub fn offline_action(args: &[String]) -> (action: OfflineAction)
    ensures
        action == offline_action_of(views_of(args@)),
{
    if args.len() == 0 {
        return OfflineAction::Window;
    }
    let first = args[0].as_str();
    assert(views_of(args@)[0] == first@);
    let alone = args.len() == 1;
    if str_eq(first, "cli") {
        OfflineAction::Cli
    } else if (str_eq(first, "--version") || str_eq(first, "-V")) && alone {
        OfflineAction::Version
    } else if str_eq(first, "--status") && alone {
        OfflineAction::Status
    } else if (str_eq(first, "--help") || str_eq(first, "-h")) && alone {
        OfflineAction::Help
    } else if str_eq(first, "install-cli") {
        OfflineAction::InstallCli(true)
    } else if str_eq(first, "uninstall-cli") {
        OfflineAction::InstallCli(false)
    } else if str_eq(first, "--version") || str_eq(first, "-V") || str_eq(first, "--help")
        || str_eq(first, "-h") || str_eq(first, "--status") {
        OfflineAction::NotAlone
    } else {
        OfflineAction::Window
    }
}

/// The exit code and the text an offline command ends with.
#[derive(Debug, PartialEq, Eq)]
pub struct Outcome {
    pub code: i32,
    pub stdout: String,
    pub stderr: String,
}

/// The directory `install-cli` links into unless told otherwise.
pub open spec fn default_prefix() -> Seq<char> {
    "/usr/local/bin"@
}

/// The prefix `install-cli` arguments name: `--prefix DIR` or
/// `--prefix=DIR`, the last one winning; `Err` gives the refusal.
pub open spec fn install_prefix_from(args: Seq<Seq<char>>, pos: int, prefix: Seq<char>) -> Result<Seq<char>, Seq<char>>
    decreases args.len() - pos,
{
    match arg_at(args, pos) {
        None => Ok(prefix),
        Some(arg) => if arg == "--prefix"@ {
            match arg_at(args, pos + 1) {
                Some(dir) => install_prefix_from(args, pos + 2, dir),
                None => Err("error: --prefix requires a directory\n"@),
            }
        } else if starts_with(arg, "--prefix="@) {
            install_prefix_from(args, pos + 1, arg.skip(9))
        } else {
            Err("error: unknown argument '"@ + arg + "'\n"@)
        },
    }
}

/// Reads the arguments after `install-cli` or `uninstall-cli`.
pub fn parse_install_args(rest: &[String]) -> (result: Result<String, Outcome>)
    ensures
        match install_prefix_from(views_of(rest@), 0, default_prefix()) {
            Ok(p) => result matches Ok(r) && r@ == p,
            Err(m) => result matches Err(o) && o.code == 2 && o.stdout@.len() == 0 && o.stderr@ == m,
        },
{
    let ghost args = views_of(rest@);
    let mut prefix = "/usr/local/bin".to_owned();
    let mut i: usize = 0;
    while i < rest.len()
        invariant
            args == views_of(rest@),
            i <= rest@.len(),
            install_prefix_from(args, 0, default_prefix()) == install_prefix_from(args, i as int, prefix@),
        decreases rest@.len() - i,
    {
        let arg = rest[i].as_str();
        assert(args[i as int] == arg@);
        if str_eq(arg, "--prefix") {
            if i + 1 >= rest.len() {
                return Err(Outcome {
                    code: 2,
                    stdout: String::new(),
                    stderr: "error: --prefix requires a directory\n".to_owned(),
                });
            }
            assert(args[i + 1] == rest@[i + 1]@);
            prefix = rest[i + 1].clone();
            i = i + 2;
        } else if has_prefix(arg, "--prefix=") {
            proof {
                reveal_strlit("--prefix=");
            }
            let chars = chars_of(arg);
            let mut tail: Vec<char> = Vec::new();
            let mut k: usize = 9;
            while k < chars.len()
                invariant
                    9 <= k <= chars@.len(),
                    tail@ == chars@.subrange(9, k as int),
                decreases chars@.len() - k,
            {
                tail.push(chars[k]);
                k = k + 1;
                assert(tail@ =~= chars@.subrange(9, k as int));
            }
            assert(tail@ =~= arg@.skip(9));
            prefix = string_from_chars(&tail);
            i = i + 1;
        } else {
            let mut m = concat("error: unknown argument '", arg);
            push_str(&mut m, "'\n");
            return Err(Outcome { code: 2, stdout: String::new(), stderr: m });
        }
    }
    Ok(prefix)
}

/// What is at the link's path before anything is changed.
#[derive(Clone, Copy, Debug, PartialEq, Eq, Structural)]
pub enum LinkState {
    Missing,
    Symlink,
    /// A real file, which belongs to someone else and is never removed.
    Other,
}

pub open spec fn permission_hint_text(prefix: Seq<char>) -> Seq<char> {
    prefix
        + " may not be writable by this user. Re-run with sudo, or choose a directory you own:\n  minicon install-cli --prefix ~/.local/bin\n"@
}

/// Why a change under `prefix` may have failed, and what to do instead.
pub fn install_cli_permission_hint(prefix: &str) -> (hint: String)
    ensures
        hint@ == permission_hint_text(prefix@),
{
    concat(
        prefix,
        " may not be writable by this user. Re-run with sudo, or choose a directory you own:\n  minicon install-cli --prefix ~/.local/bin\n",
    )
}

fn outcome(code: i32, stdout: String, stderr: String) -> (o: Outcome)
    ensures
        o.code == code,
        o.stdout == stdout,
        o.stderr == stderr,
{
    Outcome { code, stdout, stderr }
}

/// How `uninstall-cli` ends, given what was at `link` and, for a symlink,
/// how removing it went. Only a symlink is ever removed.
pub fn uninstall_outcome(link: &str, prefix: &str, existing: LinkState, removal: Option<Result<(), String>>) -> (o: Outcome)
    requires
        (existing == LinkState::Symlink) == (removal is Some),
    ensures
        existing == LinkState::Missing ==> o.code == 0 && o.stdout@ == "nothing to remove: "@ + link@
            + " does not exist\n"@ && o.stderr@.len() == 0,
        existing == LinkState::Other ==> o.code == 1 && o.stdout@.len() == 0 && o.stderr@ == "error: "@
            + link@ + " exists and is not a symlink; refusing to delete a real file\n"@,
        removal == Some(Ok::<(), String>(())) ==> o.code == 0 && o.stdout@ == "removed "@ + link@ + "\n"@
            && o.stderr@.len() == 0,
        removal matches Some(Err(e)) ==> o.code == 1 && o.stdout@.len() == 0 && o.stderr@ == "error: cannot remove "@
            + link@ + ": "@ + e@ + "\n"@ + permission_hint_text(prefix@),
{
    match existing {
        LinkState::Missing => {
            let mut m = concat("nothing to remove: ", link);
            push_str(&mut m, " does not exist\n");
            outcome(0, m, String::new())
        },
        LinkState::Other => {
            let mut m = concat("error: ", link);
            push_str(&mut m, " exists and is not a symlink; refusing to delete a real file\n");
            outcome(1, String::new(), m)
        },
        LinkState::Symlink => match removal {
            Some(Ok(())) => {
                let mut m = concat("removed ", link);
                push_str(&mut m, "\n");
                outcome(0, m, String::new())
            },
            Some(Err(e)) => {
                let mut m = concat("error: cannot remove ", link);
                push_str(&mut m, ": ");
                push_str(&mut m, e.as_str());
                push_str(&mut m, "\n");
                push_str(&mut m, install_cli_permission_hint(prefix).as_str());
                outcome(1, String::new(), m)
            },
            None => outcome(1, String::new(), String::new()),
        },
    }
}

/// Why `install-cli` must stop before changing anything, if it must: this
/// executable could not be resolved, the prefix is no directory, or a real
/// file holds the link's place.
pub fn install_blocker(link: &str, prefix: &str, target_error: Option<String>, prefix_is_dir: bool, existing: LinkState) -> (blocker: Option<Outcome>)
    ensures
        target_error matches Some(e) ==> (blocker matches Some(o) && o.code == 1 && o.stdout@.len() == 0 && o.stderr@
            == "error: cannot resolve this executable: "@ + e@ + "\n"@),
        target_error is None && !prefix_is_dir ==> (blocker matches Some(o) && o.code == 1 && o.stdout@.len() == 0
            && o.stderr@ == "error: "@ + prefix@ + " is not a directory\ntry: minicon install-cli --prefix ~/.local/bin\n"@),
        target_error is None && prefix_is_dir && existing == LinkState::Other ==> (blocker matches Some(o)
            && o.code == 1 && o.stdout@.len() == 0 && o.stderr@ == "error: "@ + link@
            + " already exists and is not a symlink; refusing to replace it\n"@),
        target_error is None && prefix_is_dir && existing != LinkState::Other ==> blocker is None,
{
    if let Some(e) = target_error {
        let mut m = concat("error: cannot resolve this executable: ", e.as_str());
        push_str(&mut m, "\n");
        return Some(outcome(1, String::new(), m));
    }
    if !prefix_is_dir {
        let mut m = concat("error: ", prefix);
        push_str(&mut m, " is not a directory\ntry: minicon install-cli --prefix ~/.local/bin\n");
        return Some(outcome(1, String::new(), m));
    }
    if existing == LinkState::Other {
        let mut m = concat("error: ", link);
        push_str(&mut m, " already exists and is not a symlink; refusing to replace it\n");
        return Some(outcome(1, String::new(), m));
    }
    None
}

/// How `install-cli` ends when the old symlink could not be removed.
pub fn replace_failed(link: &str, prefix: &str, error: &str) -> (o: Outcome)
    ensures
        o.code == 1,
        o.stdout@.len() == 0,
        o.stderr@ == "error: cannot replace "@ + link@ + ": "@ + error@ + "\n"@ + permission_hint_text(prefix@),
{
    let mut m = concat("error: cannot replace ", link);
    push_str(&mut m, ": ");
    push_str(&mut m, error);
    push_str(&mut m, "\n");
    push_str(&mut m, install_cli_permission_hint(prefix).as_str());
    outcome(1, String::new(), m)
}

/// How `install-cli` ends once the link was attempted.
pub fn link_outcome(link: &str, target: &str, prefix: &str, result: Result<(), String>) -> (o: Outcome)
    ensures
        result is Ok ==> o.code == 0 && o.stderr@.len() == 0 && o.stdout@ == "linked "@ + link@ + " -> "@
            + target@ + "\nopen a new shell, then `minicon --version`\n"@,
        result matches Err(e) ==> o.code == 1 && o.stdout@.len() == 0 && o.stderr@ == "error: cannot create "@
            + link@ + ": "@ + e@ + "\n"@ + permission_hint_text(prefix@),
{
    match result {
        Ok(()) => {
            let mut m = concat("linked ", link);
            push_str(&mut m, " -> ");
            push_str(&mut m, target);
            push_str(&mut m, "\nopen a new shell, then `minicon --version`\n");
            outcome(0, m, String::new())
        },
        Err(e) => {
            let mut m = concat("error: cannot create ", link);
            push_str(&mut m, ": ");
            push_str(&mut m, e.as_str());
            push_str(&mut m, "\n");
            push_str(&mut m, install_cli_permission_hint(prefix).as_str());
            outcome(1, String::new(), m)
        },
    }
}

} // verus!
