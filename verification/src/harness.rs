//! `harness`: the command line of a bounded agent loop with exactly two
//! tools, `file` and `exec`, read up front and whole so a malformed
//! invocation cannot half-run.

use vstd::prelude::*;
use crate::cli::arg_at;
use crate::command::views_of;
use crate::text::{concat, debug_quote, debug_text, push_str, str_eq};

verus! {

/// Which model service a task talks to.
#[derive(Clone, Copy, Debug, PartialEq, Eq, Structural)]
pub enum Backend {
    DeepSeek,
    OpencodeGo,
}

impl Default for Backend {
    fn default() -> (backend: Backend)
        ensures
            backend == Backend::DeepSeek,
    {
        Backend::DeepSeek
    }
}

impl Backend {
    /// The environment variable this backend reads its key from.
    pub fn key_var(self) -> (name: &'static str)
        ensures
            name@ == match self {
                Backend::DeepSeek => "MINICON_DEEPSEEK_API_KEY"@,
                Backend::OpencodeGo => "MINICON_OPENCODE_API_KEY"@,
            },
    {
        match self {
            Backend::DeepSeek => "MINICON_DEEPSEEK_API_KEY",
            Backend::OpencodeGo => "MINICON_OPENCODE_API_KEY",
        }
    }

    /// The spelling `--backend` accepts.
    pub fn flag_name(self) -> (name: &'static str)
        ensures
            name@ == backend_name(self),
    {
        match self {
            Backend::DeepSeek => "deepseek",
            Backend::OpencodeGo => "opencode-go",
        }
    }
}

pub open spec fn backend_name(backend: Backend) -> Seq<char> {
    match backend {
        Backend::DeepSeek => "deepseek"@,
        Backend::OpencodeGo => "opencode-go"@,
    }
}

/// What a `harness` invocation asks for.
#[derive(Debug, PartialEq, Eq)]
pub struct HarnessRequest {
    pub root: String,
    pub task: String,
    pub backend: Backend,
    /// Executable basenames the `exec` tool may run. Empty does not disable
    /// the tool: every call is then refused, naming the missing allow-list.
    pub allow_cmd: Vec<String>,
}

pub open spec fn harness_usage_text() -> Seq<char> {
    "usage: minicon harness --root PATH --task TEXT [--backend deepseek|opencode-go] [--allow-cmd NAME]..."@
}

/// The usage of `minicon harness`.
pub fn harness_usage() -> (text: String)
    ensures
        text@ == harness_usage_text(),
{
    "usage: minicon harness --root PATH --task TEXT [--backend deepseek|opencode-go] [--allow-cmd NAME]...".to_owned()
}

pub open spec fn backend_of(name: Seq<char>) -> Option<Backend> {
    if name == "deepseek"@ {
        Some(Backend::DeepSeek)
    } else if name == "opencode-go"@ {
        Some(Backend::OpencodeGo)
    } else {
        None
    }
}

pub open spec fn unknown_backend_error(name: Seq<char>) -> Seq<char> {
    "--backend "@ + debug_text(name) + " is not one of: deepseek, opencode-go"@
}

pub open spec fn harness_flag_error(flag: Seq<char>) -> Seq<char> {
    "unexpected argument "@ + debug_text(flag) + "\n"@ + harness_usage_text()
}

pub open spec fn missing_root_error() -> Seq<char> {
    "harness requires --root PATH (there is deliberately no implicit current-directory default, which would widen the file tool's bound silently)\n"@
        + harness_usage_text()
}

pub open spec fn missing_task_error() -> Seq<char> {
    "harness requires --task TEXT\n"@ + harness_usage_text()
}

/// The flags from `pos` on, folded into what was read so far: `--root`,
/// `--task` and `--backend` keep their last value, `--allow-cmd` collects.
pub open spec fn scan_harness(
    args: Seq<Seq<char>>,
    pos: int,
    root: Option<Seq<char>>,
    task: Option<Seq<char>>,
    backend: Option<Backend>,
    allow: Seq<Seq<char>>,
) -> Result<(Option<Seq<char>>, Option<Seq<char>>, Option<Backend>, Seq<Seq<char>>), Seq<char>>
    decreases args.len() - pos,
{
    match arg_at(args, pos) {
        None => Ok((root, task, backend, allow)),
        Some(flag) => {
            if flag != "--root"@ && flag != "--task"@ && flag != "--backend"@ && flag
                != "--allow-cmd"@ {
                Err(harness_flag_error(flag))
            } else {
                match arg_at(args, pos + 1) {
                    None => Err(flag + " requires a value"@),
                    Some(v) => if flag == "--root"@ {
                        scan_harness(args, pos + 2, Some(v), task, backend, allow)
                    } else if flag == "--task"@ {
                        scan_harness(args, pos + 2, root, Some(v), backend, allow)
                    } else if flag == "--backend"@ {
                        match backend_of(v) {
                            Some(b) => scan_harness(args, pos + 2, root, task, Some(b), allow),
                            None => Err(unknown_backend_error(v)),
                        }
                    } else {
                        scan_harness(args, pos + 2, root, task, backend, allow.push(v))
                    },
                }
            }
        },
    }
}

/// What a whole `harness` command line asks for, or why it asks for nothing.
pub open spec fn harness_request_of(args: Seq<Seq<char>>) -> Result<
    (Seq<char>, Seq<char>, Backend, Seq<Seq<char>>),
    Seq<char>,
> {
    if arg_at(args, 0) != Some("harness"@) {
        Err(harness_usage_text())
    } else {
        match scan_harness(args, 1, None, None, None, Seq::empty()) {
            Err(e) => Err(e),
            Ok((root, task, backend, allow)) => match root {
                None => Err(missing_root_error()),
                Some(r) => match task {
                    None => Err(missing_task_error()),
                    Some(t) => Ok(
                        (
                            r,
                            t,
                            match backend {
                                Some(b) => b,
                                None => Backend::DeepSeek,
                            },
                            allow,
                        ),
                    ),
                },
            },
        }
    }
}

/// The spelling `flag_name` gives is the one `--backend` reads back: a
/// command line that names a backend by it asks for that backend.
pub proof fn law_flag_name_reads_back(backend: Backend, root: Seq<char>, task: Seq<char>)
    ensures
        backend_of(backend_name(backend)) == Some(backend),
        harness_request_of(
            seq!["harness"@, "--root"@, root, "--task"@, task, "--backend"@, backend_name(backend)],
        ) == Ok::<(Seq<char>, Seq<char>, Backend, Seq<Seq<char>>), Seq<char>>(
            (root, task, backend, Seq::empty()),
        ),
{
    let args = seq!["harness"@, "--root"@, root, "--task"@, task, "--backend"@, backend_name(backend)];
    reveal_strlit("deepseek");
    reveal_strlit("opencode-go");
    reveal_strlit("--root");
    reveal_strlit("--task");
    reveal_strlit("--backend");
    reveal_strlit("--allow-cmd");
    assert("deepseek"@.len() != "opencode-go"@.len());
    assert("--root"@[2] != "--task"@[2]);
    assert("--root"@.len() != "--backend"@.len() && "--root"@.len() != "--allow-cmd"@.len());
    assert("--task"@.len() != "--backend"@.len() && "--task"@.len() != "--allow-cmd"@.len());
    assert("--backend"@[2] != "--allow-cmd"@[2]);
    assert(arg_at(args, 7) is None);
    assert(scan_harness(args, 7, Some(root), Some(task), Some(backend), Seq::empty()) == Ok::<
        (Option<Seq<char>>, Option<Seq<char>>, Option<Backend>, Seq<Seq<char>>),
        Seq<char>,
    >((Some(root), Some(task), Some(backend), Seq::empty())));
    assert(scan_harness(args, 5, Some(root), Some(task), None, Seq::empty()) == scan_harness(
        args,
        7,
        Some(root),
        Some(task),
        Some(backend),
        Seq::empty(),
    ));
    assert(scan_harness(args, 3, Some(root), None, None, Seq::empty()) == scan_harness(
        args,
        5,
        Some(root),
        Some(task),
        None,
        Seq::empty(),
    ));
    assert(scan_harness(args, 1, None, None, None, Seq::empty()) == scan_harness(
        args,
        3,
        Some(root),
        None,
        None,
        Seq::empty(),
    ));
}

/// Reads `harness --root PATH --task TEXT [--backend NAME] [--allow-cmd
/// NAME]...`. Root and task are required: there is no implicit default that
/// would widen the file tool's bound silently.
pub fn parse_harness(args: &[String]) -> (result: Result<HarnessRequest, String>)
    ensures
        match harness_request_of(views_of(args@)) {
            Ok((root, task, backend, allow)) => result matches Ok(r) && r.root@ == root && r.task@
                == task && r.backend == backend && views_of(r.allow_cmd@) == allow,
            Err(m) => result matches Err(e) && e@ == m,
        },
{
    let ghost items = views_of(args@);
    if args.len() == 0 || !str_eq(args[0].as_str(), "harness") {
        return Err(harness_usage());
    }
    assert(items[0] == args@[0]@);
    let mut position: usize = 1;
    let mut root: Option<String> = None;
    let mut task: Option<String> = None;
    let mut backend: Option<Backend> = None;
    let mut allow_cmd: Vec<String> = Vec::new();
    assert(views_of(allow_cmd@) =~= Seq::<Seq<char>>::empty());
    while position < args.len()
        invariant
            1 <= position <= args@.len(),
            items == views_of(args@),
            arg_at(items, 0) == Some("harness"@),
            scan_harness(items, 1, None, None, None, Seq::empty()) == scan_harness(
                items,
                position as int,
                match root {
                    Some(r) => Some(r@),
                    None => None,
                },
                match task {
                    Some(t) => Some(t@),
                    None => None,
                },
                backend,
                views_of(allow_cmd@),
            ),
        decreases args@.len() - position,
    {
        let flag = args[position].as_str();
        assert(items[position as int] == flag@);
        assert(position + 1 < args@.len() ==> items[position + 1] == args@[position + 1]@);
        let known = str_eq(flag, "--root") || str_eq(flag, "--task") || str_eq(flag, "--backend")
            || str_eq(flag, "--allow-cmd");
        if !known {
            let mut m = concat("unexpected argument ", debug_quote(flag).as_str());
            push_str(&mut m, "\n");
            push_str(&mut m, harness_usage().as_str());
            return Err(m);
        }
        if position + 1 >= args.len() {
            return Err(concat(flag, " requires a value"));
        }
        let value = args[position + 1].clone();
        if str_eq(flag, "--root") {
            root = Some(value);
        } else if str_eq(flag, "--task") {
            task = Some(value);
        } else if str_eq(flag, "--backend") {
            if str_eq(value.as_str(), "deepseek") {
                backend = Some(Backend::DeepSeek);
            } else if str_eq(value.as_str(), "opencode-go") {
                backend = Some(Backend::OpencodeGo);
            } else {
                let mut m = concat("--backend ", debug_quote(value.as_str()).as_str());
                push_str(&mut m, " is not one of: deepseek, opencode-go");
                return Err(m);
            }
        } else {
            let ghost before = views_of(allow_cmd@);
            allow_cmd.push(value);
            assert(views_of(allow_cmd@) =~= before.push(args@[position + 1]@));
        }
        position = position + 2;
    }
    let root = match root {
        Some(r) => r,
        None => {
            let mut m = "harness requires --root PATH (there is deliberately no implicit current-directory default, which would widen the file tool's bound silently)\n".to_owned();
            push_str(&mut m, harness_usage().as_str());
            return Err(m);
        },
    };
    let task = match task {
        Some(t) => t,
        None => {
            let mut m = "harness requires --task TEXT\n".to_owned();
            push_str(&mut m, harness_usage().as_str());
            return Err(m);
        },
    };
    let backend = match backend {
        Some(b) => b,
        None => Backend::DeepSeek,
    };
    Ok(HarnessRequest { root, task, backend, allow_cmd })
}

/// The refusal of a task whose backend has no key in the environment.
pub fn missing_key_error(backend: Backend) -> (text: String)
    ensures
        text@ == "harness: "@ + match backend {
            Backend::DeepSeek => "MINICON_DEEPSEEK_API_KEY"@,
            Backend::OpencodeGo => "MINICON_OPENCODE_API_KEY"@,
        } + " is unset or empty; --backend "@ + backend_name(backend)
            + " reads its key from that environment variable only"@,
{
    let mut m = concat("harness: ", backend.key_var());
    push_str(&mut m, " is unset or empty; --backend ");
    push_str(&mut m, backend.flag_name());
    push_str(&mut m, " reads its key from that environment variable only");
    m
}

pub open spec fn system_prompt_text(root: Seq<char>) -> Seq<char> {
    "You are MiniCon's bounded harness agent. You have exactly two tools, `file` and `exec`, and no others. Every path is relative to the task root "@
        + root
        + "; paths outside it are refused, not rewritten. `exec` runs one allow-listed command per call with no shell. A refusal is information: read it, adjust, and continue. When the task is done, answer with plain text and no tool call."@
}

/// The instruction a task is wrapped in, so the model knows the two tools'
/// bounds before it trips over them; `root` is the task root as displayed.
pub fn harness_system_prompt(root: &str) -> (prompt: String)
    ensures
        prompt@ == system_prompt_text(root@),
{
    let mut prompt = "You are MiniCon's bounded harness agent. You have exactly two tools, `file` and `exec`, and no others. Every path is relative to the task root ".to_owned();
    push_str(&mut prompt, root);
    push_str(
        &mut prompt,
        "; paths outside it are refused, not rewritten. `exec` runs one allow-listed command per call with no shell. A refusal is information: read it, adjust, and continue. When the task is done, answer with plain text and no tool call.",
    );
    prompt
}

} // verus!
