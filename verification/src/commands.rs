//! The desktop shell's commands: the command line, the theme switch and
//! the window buttons. Each decides what to change and what to answer;
//! the host performs page loads and window operations and sends the
//! answer on.

use vstd::prelude::*;

use crate::shell::{navigated, ShellAction, TabManager};
use crate::text::{
    chars_of, extend_chars, extend_str, is_whitespace, owned, spec_is_whitespace, split_words, str_eq,
    string_from_chars, to_lowercase, trail_ws, trim, trim_chars, trim_start, unicode_lowercase, words,
};

verus! {

// ─── Words ───────────────────────────────────────────────────────

/// The words joined with single spaces (`join(" ")`).
pub open spec fn join_words(ws: Seq<Seq<char>>) -> Seq<char>
    decreases ws.len(),
{
    if ws.len() == 0 {
        Seq::empty()
    } else if ws.len() == 1 {
        ws[0]
    } else {
        join_words(ws.drop_last()) + " "@ + ws.last()
    }
}

/// The words from position `from` on, joined with single spaces.
fn join_from(ws: &Vec<Vec<char>>, from: usize) -> (res: Vec<char>)
    requires
        from <= ws@.len(),
    ensures
        res@ == join_words(ws@.map_values(|w: Vec<char>| w@).skip(from as int)),
{
    let ghost all = ws@.map_values(|w: Vec<char>| w@);
    let mut out: Vec<char> = Vec::new();
    let mut i: usize = from;
    assert(all.skip(from as int).take(0) =~= Seq::<Seq<char>>::empty());
    while i < ws.len()
        invariant
            from <= i <= ws@.len(),
            all == ws@.map_values(|w: Vec<char>| w@),
            out@ == join_words(all.skip(from as int).take(i - from)),
        decreases ws@.len() - i,
    {
        let ghost part = all.skip(from as int).take(i + 1 - from);
        assert(part.drop_last() =~= all.skip(from as int).take(i - from));
        assert(part.last() == ws@[i as int]@);
        if i > from {
            extend_str(&mut out, " ");
        }
        extend_chars(&mut out, ws[i].as_slice());
        i += 1;
        assert(out@ =~= join_words(part));
    }
    assert(all.skip(from as int).take(i - from) =~= all.skip(from as int));
    out
}

// ─── Commands ────────────────────────────────────────────────────

/// What a command line asks for.
pub enum CommandKind {
    Empty,
    Navigate(Seq<char>),
    Theme,
    Telemetry,
    Help,
    Other,
}

/// The URL a navigation command goes to: the words after the command, or
/// `https://example.com` when there are none.
pub open spec fn nav_target(ws: Seq<Seq<char>>) -> Seq<char> {
    if ws.len() > 1 {
        join_words(ws.skip(1))
    } else {
        "https://example.com"@
    }
}

/// The command a line holds, by its first word in lowercase.
pub open spec fn classify(command: Seq<char>) -> CommandKind {
    let t = trim(command);
    if t.len() == 0 {
        CommandKind::Empty
    } else {
        let ws = words(t);
        let name = unicode_lowercase(ws[0]);
        if name == "nav"@ || name == "navigate"@ || name == "open"@ || name == "g"@ || name
            == "goto"@ {
            CommandKind::Navigate(nav_target(ws))
        } else if name == "theme"@ || name == "mode"@ {
            CommandKind::Theme
        } else if name == "telemetry"@ || name == "status"@ || name == "metrics"@ {
            CommandKind::Telemetry
        } else if name == "help"@ {
            CommandKind::Help
        } else {
            CommandKind::Other
        }
    }
}

/// The theme after a switch: `light` after `dark`, `dark` otherwise.
pub open spec fn toggled(theme: Seq<char>) -> Seq<char> {
    if theme == "dark"@ {
        "light"@
    } else {
        "dark"@
    }
}

/// Switch the theme mode between `dark` and `light`; returns the new mode.
pub fn toggle_theme_mode(theme: &mut String) -> (res: String)
    ensures
        final(theme)@ == toggled(old(theme)@),
        res@ == final(theme)@,
{
    let next = if str_eq(theme.as_str(), "dark") {
        owned("light")
    } else {
        owned("dark")
    };
    *theme = owned(next.as_str());
    next
}

/// The answer to a command: its status and its message.
#[derive(Debug, Clone, PartialEq, Eq)]
pub struct CommandReply {
    pub status: String,
    pub message: String,
}

/// The message a navigation answers with.
pub open spec fn navigate_message(url: Seq<char>) -> Seq<char> {
    "[NAVIGATE] Active tab loaded target URL: "@ + url
}

/// The message a theme switch answers with, naming the new mode.
pub open spec fn theme_message(theme: Seq<char>) -> Seq<char> {
    "[THEME] Active UI mode switched to Laboratory "@ + if theme == "dark"@ {
        "DARK"@
    } else {
        "LIGHT"@
    }
}

/// The message any other command answers with.
pub open spec fn diagnostic_message(trimmed: Seq<char>) -> Seq<char> {
    "[DIAGNOSTIC] Executed query node: '"@ + trimmed + "'"@
}

fn reply(status: &str, message: Vec<char>) -> (res: CommandReply)
    ensures
        res.status@ == status@,
        res.message@ == message@,
{
    CommandReply { status: owned(status), message: string_from_chars(message.as_slice()) }
}

/// Run a command line. Navigation commands navigate the active tab (the
/// host then loads the page, as the returned action says); theme commands
/// switch `theme`; the others only answer.
pub fn execute_command(command: &str, theme: &mut String, tabs: &mut TabManager) -> (res: (
    CommandReply,
    ShellAction,
))
    requires
        old(tabs).wf(),
    ensures
        final(tabs).wf(),
        match classify(command@) {
            CommandKind::Empty => res.0.status@ == "empty"@ && res.0.message@ == Seq::<char>::empty()
                && *final(tabs) == *old(tabs) && final(theme)@ == old(theme)@ && res.1
                == ShellAction::Nothing,
            CommandKind::Navigate(url) => res.0.status@ == "success"@ && res.0.message@
                == navigate_message(url) && navigated(*old(tabs), *final(tabs), url)
                && final(theme)@ == old(theme)@ && res.1 == ShellAction::LoadTab(
                old(tabs).active_tab_index,
            ),
            CommandKind::Theme => res.0.status@ == "success"@ && final(theme)@ == toggled(
                old(theme)@,
            ) && res.0.message@ == theme_message(final(theme)@) && *final(tabs) == *old(tabs)
                && res.1 == ShellAction::Nothing,
            CommandKind::Telemetry => res.0.status@ == "success"@ && res.0.message@
                == "[TELEMETRY] FPS: 144 | Latency: 12ms | Kernel: AST-902 | Pipeline: 7-Stage Ready"@
                && *final(tabs) == *old(tabs) && final(theme)@ == old(theme)@ && res.1
                == ShellAction::Nothing,
            CommandKind::Help => res.0.status@ == "info"@ && res.0.message@
                == "[HELP] Available commands: navigate <url> | theme | telemetry | help"@
                && *final(tabs) == *old(tabs) && final(theme)@ == old(theme)@ && res.1
                == ShellAction::Nothing,
            CommandKind::Other => res.0.status@ == "executed"@ && res.0.message@
                == diagnostic_message(trim(command@)) && *final(tabs) == *old(tabs) && final(theme)@ == old(theme)@ && res.1 == ShellAction::Nothing,
        },
{
    let trimmed = trim_chars(chars_of(command).as_slice());
    if trimmed.len() == 0 {
        return (reply("empty", Vec::new()), ShellAction::Nothing);
    }
    let parts = split_words(trimmed.as_slice());
    let ghost ws = parts@.map_values(|w: Vec<char>| w@);
    proof {
        lemma_trim_last(command@);
        lemma_words_nonempty(trimmed@);
    }
    let name = to_lowercase(string_from_chars(parts[0].as_slice()).as_str());
    let n = name.as_str();
    if str_eq(n, "nav") || str_eq(n, "navigate") || str_eq(n, "open") || str_eq(n, "g") || str_eq(
        n,
        "goto",
    ) {
        let url = if parts.len() > 1 {
            join_from(&parts, 1)
        } else {
            chars_of("https://example.com")
        };
        let url_text = string_from_chars(url.as_slice());
        let action = tabs.navigate(url_text.as_str());
        let mut msg: Vec<char> = Vec::new();
        extend_str(&mut msg, "[NAVIGATE] Active tab loaded target URL: ");
        extend_chars(&mut msg, url.as_slice());
        (reply("success", msg), action)
    } else if str_eq(n, "theme") || str_eq(n, "mode") {
        let next = toggle_theme_mode(theme);
        let mut msg: Vec<char> = Vec::new();
        extend_str(&mut msg, "[THEME] Active UI mode switched to Laboratory ");
        if str_eq(next.as_str(), "dark") {
            extend_str(&mut msg, "DARK");
        } else {
            extend_str(&mut msg, "LIGHT");
        }
        (reply("success", msg), ShellAction::Nothing)
    } else if str_eq(n, "telemetry") || str_eq(n, "status") || str_eq(n, "metrics") {
        (
            reply(
                "success",
                chars_of(
                    "[TELEMETRY] FPS: 144 | Latency: 12ms | Kernel: AST-902 | Pipeline: 7-Stage Ready",
                ),
            ),
            ShellAction::Nothing,
        )
    } else if str_eq(n, "help") {
        (
            reply(
                "info",
                chars_of("[HELP] Available commands: navigate <url> | theme | telemetry | help"),
            ),
            ShellAction::Nothing,
        )
    } else {
        let mut msg: Vec<char> = Vec::new();
        extend_str(&mut msg, "[DIAGNOSTIC] Executed query node: '");
        extend_chars(&mut msg, trimmed.as_slice());
        extend_str(&mut msg, "'");
        (reply("executed", msg), ShellAction::Nothing)
    }
}

/// A line ending in a non-whitespace character has a word.
proof fn lemma_words_nonempty(t: Seq<char>)
    requires
        t.len() > 0,
        !spec_is_whitespace(t.last()),
    ensures
        words(t).len() > 0,
{
}

/// Without its trailing whitespace, a line ends in a non-whitespace
/// character.
proof fn lemma_trail_ws_last(v: Seq<char>)
    requires
        trail_ws(v) < v.len(),
    ensures
        0 <= trail_ws(v),
        !spec_is_whitespace(v[v.len() - trail_ws(v) - 1]),
    decreases v.len(),
{
    if v.len() > 0 && spec_is_whitespace(v.last()) {
        lemma_trail_ws_last(v.drop_last());
        assert(v.drop_last()[v.len() - 1 - trail_ws(v.drop_last()) - 1] == v[v.len() - trail_ws(v) - 1]);
    }
}

/// A trimmed line that is not empty ends in a non-whitespace character.
proof fn lemma_trim_last(s: Seq<char>)
    requires
        trim(s).len() > 0,
    ensures
        !spec_is_whitespace(trim(s).last()),
{
    let v = trim_start(s);
    lemma_trail_ws_nonneg(v);
    lemma_trail_ws_last(v);
}

proof fn lemma_trail_ws_nonneg(v: Seq<char>)
    ensures
        0 <= trail_ws(v) <= v.len(),
    decreases v.len(),
{
    if v.len() > 0 && spec_is_whitespace(v.last()) {
        lemma_trail_ws_nonneg(v.drop_last());
    }
}

// ─── Window buttons ──────────────────────────────────────────────

/// What the window should do.
#[derive(Debug, Clone, Copy, PartialEq, Eq, Structural)]
pub enum WindowOp {
    Minimize,
    Maximize,
    Unmaximize,
    Close,
    Nothing,
}

/// The window operation a button asks for: `minimize`, `close`, and
/// `maximize`, which restores a maximized window. Anything else does
/// nothing.
pub fn window_control(action: &str, is_maximized: bool) -> (res: WindowOp)
    ensures
        res == if action@ == "minimize"@ {
            WindowOp::Minimize
        } else if action@ == "maximize"@ {
            if is_maximized {
                WindowOp::Unmaximize
            } else {
                WindowOp::Maximize
            }
        } else if action@ == "close"@ {
            WindowOp::Close
        } else {
            WindowOp::Nothing
        },
{
    if str_eq(action, "minimize") {
        WindowOp::Minimize
    } else if str_eq(action, "maximize") {
        if is_maximized {
            WindowOp::Unmaximize
        } else {
            WindowOp::Maximize
        }
    } else if str_eq(action, "close") {
        WindowOp::Close
    } else {
        WindowOp::Nothing
    }
}

} // verus!
