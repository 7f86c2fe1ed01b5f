//! The host's own command line: the `--feature` switches and the usage text
//! that lists them.

use vstd::prelude::*;
use crate::mux::{joined, strs_view};
use crate::text::{concat, has_prefix, push_str, starts_with, str_eq};

verus! {

/// Every name `--feature` accepts, with the help shown in the usage. A name
/// absent here is a typo, and is refused.
pub const FEATURES: [(&'static str, &'static str); 1] = [("conpty", "Windows: host the shell through ConPTY instead of the classic\n                     console. Pick by what the program uses: the default\n                     carries the mouse to agent CLIs, this carries it to\n                     Vim-style programs. No terminal can do both — see\n                     microsoft/terminal#15083. Inert off Windows.")];

/// Backend selections chosen with `--feature`.
#[derive(Clone, Copy, Debug, PartialEq, Eq, Structural)]
pub struct Features {
    /// Host the shell through ConPTY instead of the classic Windows console.
    pub conpty: bool,
}

impl Default for Features {
    fn default() -> (features: Features)
        ensures
            !features.conpty,
    {
        Features { conpty: false }
    }
}

pub open spec fn feature_names() -> Seq<Seq<char>> {
    FEATURES@.map_values(|f: (&'static str, &'static str)| f.0@)
}

pub open spec fn unknown_feature_error(word: Seq<char>) -> Seq<char> {
    "error: unknown feature '"@ + word + "'; known features: "@ + joined(feature_names(), ", "@) + "\n"@
}

impl Features {
    /// Applies one `--feature` word; `no-NAME` turns feature NAME off.
    pub fn apply(&mut self, word: &str) -> (result: Result<(), String>)
        ensures
            ({
                let off = starts_with(word@, "no-"@);
                let name = if off {
                    word@.skip(3)
                } else {
                    word@
                };
                &&& name == "conpty"@ ==> result is Ok && final(self).conpty == !off
                &&& name != "conpty"@ ==> (result matches Err(e) && e@ == unknown_feature_error(word@))
                    && *final(self) == *old(self)
            }),
    {
        let off = has_prefix(word, "no-");
        let chars = crate::text::chars_of(word);
        let name = if off {
            proof {
                reveal_strlit("no-");
            }
            let mut rest: Vec<char> = Vec::new();
            let mut i: usize = 3;
            while i < chars.len()
                invariant
                    3 <= i <= chars@.len(),
                    rest@ == chars@.subrange(3, i as int),
                decreases chars@.len() - i,
            {
                rest.push(chars[i]);
                i = i + 1;
                assert(rest@ =~= chars@.subrange(3, i as int));
            }
            assert(rest@ =~= word@.skip(3));
            crate::text::string_from_chars(&rest)
        } else {
            word.to_owned()
        };
        if str_eq(name.as_str(), "conpty") {
            self.conpty = !off;
            Ok(())
        } else {
            let mut names: Vec<&str> = Vec::new();
            let mut k: usize = 0;
            while k < FEATURES.len()
                invariant
                    k <= FEATURES@.len(),
                    strs_view(names@) == feature_names().take(k as int),
                decreases FEATURES@.len() - k,
            {
                let ghost before = strs_view(names@);
                let entry = FEATURES[k];
                assert(entry == FEATURES@[k as int]);
                names.push(entry.0);
                assert(strs_view(names@) =~= before.push(entry.0@));
                assert(feature_names().take(k + 1) =~= feature_names().take(k as int).push(
                    feature_names()[k as int],
                ));
                k = k + 1;
            }
            assert(feature_names().take(k as int) =~= feature_names());
            let mut m = concat("error: unknown feature '", word);
            push_str(&mut m, "'; known features: ");
            push_str(&mut m, crate::mux::join_strs(names.as_slice(), ", ").as_str());
            push_str(&mut m, "\n");
            Err(m)
        }
    }
}

pub open spec fn usage_prefix() -> Seq<char> {
    "Usage: minicon [--no-activate] [--headless] [--working-dir DIR]\n                   [--font-size N] [--cols N] [--rows N]\n                   [--control ENDPOINT] [--emit-snapshot PATH]\n                   [--feature NAME[,NAME...]] [-e PROGRAM [ARGS...]]\n       minicon --version\n       minicon --status\n       minicon --help\n       minicon cli --control ENDPOINT COMMAND [ARGS...]\n       minicon install-cli [--prefix DIR]     (link `minicon` onto PATH)\n       minicon uninstall-cli [--prefix DIR]\n\nA standalone console host (conhost equivalent). No server, mux, or Fleet.\n\nFeatures select which implementation hosts the shell, as opposed to the user\npreferences in minicon.json. Repeatable and comma-separated; prefix a name with\n`no-` to state the off position explicitly:\n"@
}

pub open spec fn usage_suffix() -> Seq<char> {
    "\n\nControl endpoint and CLI (TAB is a stable @ID; omitted target means active tab):\n  minicon cli list-commands\nminicon --control unix:$TMPDIR/minicon-test/control.sock\n  minicon cli --control unix:$TMPDIR/minicon-test/control.sock list-tabs\n  (Unix socket parents may be under /tmp; the host resolves symlink roots such\n   as macOS /tmp → /private/tmp so control works like a Windows named pipe.)\n  ... ui-snapshot | perf-stats | reset-perf-stats | cancel-pointer | close-window\n  ... detach-gui | attach-gui   (release the window; the process keeps running)\n\n--headless starts with no window at all: sessions and --control run, and a\nwindow appears only when something sends attach-gui.\n  ... resize-window --width N --height N\n  ... new-tab [--parent TAB]\n  ... select-tab --target TAB | close-tab --target TAB\n  ... capture-pane [--target TAB] [--max-bytes N] [--output PATH]\n  ... screenshot-pane [--target TAB] --output PATH\n  ... send-text [--target TAB] TEXT|--file PATH\n  ... send-paste [--target TAB] TEXT|--file PATH\n  ... send-keys [--target TAB] KEY...\n  ... send-ui-ime enabled|disabled|preedit TEXT [--cursor N]|commit TEXT\n  ... send-ui-keys KEY...\n  ... send-mouse [--target TAB] --action press|release|move|click\n                 --button none|left|middle|right --column N --row N\n  ... send-wheel [--target TAB] --column N --row N --notches N [--ctrl]\n  ... wait-text [--target TAB] [--timeout-ms N] TEXT\n  ... wait-tab-exit --target TAB [--timeout-ms N]\n\nKeys use names such as Enter, Escape, Tab, Up, F1 or modifiers such as Ctrl+C.\nsend-ui-keys follows current UI focus; send-keys always targets a terminal.\nMouse coordinates are zero-based terminal cells. Positive wheel notches scroll up.\n\n  Ctrl+Shift+T       New root terminal\n  Ctrl+Shift+N       New child terminal below the active tab\n  Ctrl+Shift+W       Close active terminal (children are promoted)\n  Ctrl+Shift+B       Collapse the tab sidebar to a rail, or expand it again\n  Ctrl+Shift+[ / ]   Switch terminal tabs\n  Ctrl+Shift+I       Focus the external input area\n  Ctrl+Shift+P       Cycle the color theme (Neutral / Docs / Paper)\n  Ctrl+Shift+,       Open or close the settings panel\n  Ctrl+Shift+G       Toggle the grid crosshair\n  Enter              Insert a soft newline in the input area\n  Ctrl+O             Send the complete input-area draft\n  Up / Down          Recall what you sent before, in the input area\n  Click a tab to select it. Closing the final tab leaves the greeting page.\n\n  -e, --command  Run PROGRAM instead of the default shell. Everything after\n                 -e is passed through verbatim, so it must come last:\nminicon -e /bin/zsh -l\n                   minicon --working-dir ~/src -e cargo test\n\n  --emit-snapshot PATH\n                 Write a JSON snapshot of screen text/cursor/selection to\n                 PATH after each render (atomic write). For CLI clients, tests,\n                 and other agents that need to inspect a session without\n                 capturing pixels.\n\nConfiguration: create minicon.json under the user config directory\n(Unix: ~/.config/minicon.json via runtime::user_config_directory).\nKeys: font_size, cols, rows (all optional).\nCLI flags override config; config overrides defaults.\nThe header's ? opens its shortcut guide; adjacent size buttons shrink, reset,\nand grow the whole interface."@
}

/// One usage line per feature: `  --feature NAME  HELP`.
pub open spec fn feature_lines() -> Seq<Seq<char>> {
    FEATURES@.map_values(|f: (&'static str, &'static str)| "  --feature "@ + f.0@ + "  "@ + f.1@)
}

/// The host's usage, listing every feature so none is undiscoverable.
pub open spec fn usage_spec() -> Seq<char> {
    usage_prefix() + joined(feature_lines(), "\n"@) + usage_suffix()
}

/// The host's usage text.
pub fn usage_text() -> (text: String)
    ensures
        text@ == usage_spec(),
{
    let mut text = "Usage: minicon [--no-activate] [--headless] [--working-dir DIR]\n                   [--font-size N] [--cols N] [--rows N]\n                   [--control ENDPOINT] [--emit-snapshot PATH]\n                   [--feature NAME[,NAME...]] [-e PROGRAM [ARGS...]]\n       minicon --version\n       minicon --status\n       minicon --help\n       minicon cli --control ENDPOINT COMMAND [ARGS...]\n       minicon install-cli [--prefix DIR]     (link `minicon` onto PATH)\n       minicon uninstall-cli [--prefix DIR]\n\nA standalone console host (conhost equivalent). No server, mux, or Fleet.\n\nFeatures select which implementation hosts the shell, as opposed to the user\npreferences in minicon.json. Repeatable and comma-separated; prefix a name with\n`no-` to state the off position explicitly:\n".to_owned();
    let ghost start = text@;
    let mut k: usize = 0;
    while k < FEATURES.len()
        invariant
            k <= FEATURES@.len(),
            start == usage_prefix(),
            text@ == start + joined(feature_lines().take(k as int), "\n"@),
        decreases FEATURES@.len() - k,
    {
        let ghost before = joined(feature_lines().take(k as int), "\n"@);
        assert(feature_lines().take(k + 1).drop_last() =~= feature_lines().take(k as int));
        if k > 0 {
            push_str(&mut text, "\n");
        }
        push_str(&mut text, "  --feature ");
        push_str(&mut text, FEATURES[k].0);
        push_str(&mut text, "  ");
        push_str(&mut text, FEATURES[k].1);
        k = k + 1;
        proof {
            if k == 1 {
                assert(text@ =~= start + feature_lines().take(1)[0]);
            } else {
                assert(text@ =~= start + (before + "\n"@ + feature_lines().take(k as int).last()));
            }
        }
    }
    assert(feature_lines().take(k as int) =~= feature_lines());
    push_str(&mut text, "\n\nControl endpoint and CLI (TAB is a stable @ID; omitted target means active tab):\n  minicon cli list-commands\nminicon --control unix:$TMPDIR/minicon-test/control.sock\n  minicon cli --control unix:$TMPDIR/minicon-test/control.sock list-tabs\n  (Unix socket parents may be under /tmp; the host resolves symlink roots such\n   as macOS /tmp → /private/tmp so control works like a Windows named pipe.)\n  ... ui-snapshot | perf-stats | reset-perf-stats | cancel-pointer | close-window\n  ... detach-gui | attach-gui   (release the window; the process keeps running)\n\n--headless starts with no window at all: sessions and --control run, and a\nwindow appears only when something sends attach-gui.\n  ... resize-window --width N --height N\n  ... new-tab [--parent TAB]\n  ... select-tab --target TAB | close-tab --target TAB\n  ... capture-pane [--target TAB] [--max-bytes N] [--output PATH]\n  ... screenshot-pane [--target TAB] --output PATH\n  ... send-text [--target TAB] TEXT|--file PATH\n  ... send-paste [--target TAB] TEXT|--file PATH\n  ... send-keys [--target TAB] KEY...\n  ... send-ui-ime enabled|disabled|preedit TEXT [--cursor N]|commit TEXT\n  ... send-ui-keys KEY...\n  ... send-mouse [--target TAB] --action press|release|move|click\n                 --button none|left|middle|right --column N --row N\n  ... send-wheel [--target TAB] --column N --row N --notches N [--ctrl]\n  ... wait-text [--target TAB] [--timeout-ms N] TEXT\n  ... wait-tab-exit --target TAB [--timeout-ms N]\n\nKeys use names such as Enter, Escape, Tab, Up, F1 or modifiers such as Ctrl+C.\nsend-ui-keys follows current UI focus; send-keys always targets a terminal.\nMouse coordinates are zero-based terminal cells. Positive wheel notches scroll up.\n\n  Ctrl+Shift+T       New root terminal\n  Ctrl+Shift+N       New child terminal below the active tab\n  Ctrl+Shift+W       Close active terminal (children are promoted)\n  Ctrl+Shift+B       Collapse the tab sidebar to a rail, or expand it again\n  Ctrl+Shift+[ / ]   Switch terminal tabs\n  Ctrl+Shift+I       Focus the external input area\n  Ctrl+Shift+P       Cycle the color theme (Neutral / Docs / Paper)\n  Ctrl+Shift+,       Open or close the settings panel\n  Ctrl+Shift+G       Toggle the grid crosshair\n  Enter              Insert a soft newline in the input area\n  Ctrl+O             Send the complete input-area draft\n  Up / Down          Recall what you sent before, in the input area\n  Click a tab to select it. Closing the final tab leaves the greeting page.\n\n  -e, --command  Run PROGRAM instead of the default shell. Everything after\n                 -e is passed through verbatim, so it must come last:\nminicon -e /bin/zsh -l\n                   minicon --working-dir ~/src -e cargo test\n\n  --emit-snapshot PATH\n                 Write a JSON snapshot of screen text/cursor/selection to\n                 PATH after each render (atomic write). For CLI clients, tests,\n                 and other agents that need to inspect a session without\n                 capturing pixels.\n\nConfiguration: create minicon.json under the user config directory\n(Unix: ~/.config/minicon.json via runtime::user_config_directory).\nKeys: font_size, cols, rows (all optional).\nCLI flags override config; config overrides defaults.\nThe header's ? opens its shortcut guide; adjacent size buttons shrink, reset,\nand grow the whole interface.");
    text
}

} // verus!
