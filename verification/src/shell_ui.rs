//! Interactive state of the browser chrome: the omnibox (address bar)
//! text and cursor, focus, hover and status, and the cursor blink timer.
#![verifier::loop_isolation(false)]

use vstd::prelude::*;

use crate::text::{chars_of, eq_ignore_case, extend_chars, owned, slice_chars, str_eq_ignore_case, string_from_chars};
use vstd::string::StringSliceAdditionalSpecFns;

verus! {

broadcast use vstd::seq_lib::group_seq_properties;

/// What a click or hover in the browser chrome lands on.
#[derive(Debug, Clone, Copy, PartialEq, Eq, Structural)]
pub enum ShellHitTarget {
    /// The tab at an index.
    Tab(usize),
    /// The close button of the tab at an index.
    TabClose(usize),
    /// The new-tab (+) button.
    NewTab,
    /// Navigation: back.
    Back,
    /// Navigation: forward.
    Forward,
    /// Navigation: reload.
    Reload,
    /// Navigation: home.
    Home,
    /// The omnibox (address bar).
    Omnibox,
    /// The Go button of the omnibox.
    OmniboxGo,
    /// The settings button.
    Settings,
    /// The webpage viewport.
    Webpage,
    /// The status bar.
    StatusBar,
}

/// Interactive shell state. `omnibox_cursor` counts characters.
pub struct ShellUiState {
    pub omnibox_text: String,
    pub omnibox_focused: bool,
    pub omnibox_cursor: usize,
    pub hovered_target: Option<ShellHitTarget>,
    pub hovered_link_url: Option<String>,
    pub status_message: Option<String>,
    /// Frames since the cursor was last reset (for blinking).
    pub cursor_blink_counter: u32,
}

/// The character position an edit applies at: the cursor, clamped to the
/// end of the text.
pub open spec fn edit_pos(text: Seq<char>, cursor: usize) -> int {
    if cursor < text.len() {
        cursor as int
    } else {
        text.len() as int
    }
}

/// `text` with `ins` inserted at position `p`.
pub open spec fn insert_at(text: Seq<char>, p: int, ins: Seq<char>) -> Seq<char> {
    text.take(p) + ins + text.skip(p)
}

/// `text` without the character at position `p`.
pub open spec fn remove_at(text: Seq<char>, p: int) -> Seq<char> {
    text.take(p) + text.skip(p + 1)
}

/// Whether the cursor is visible after the blink counter reaches `counter`:
/// it blinks every 30 frames.
pub open spec fn blink_visible(counter: u32) -> bool {
    (counter / 30) % 2 == 0
}

/// `s` truncated to at most `max` characters; when characters are dropped
/// and `max > 3`, the last three kept characters become `...`.
pub open spec fn spec_truncate_with_ellipsis(s: Seq<char>, max: usize) -> Seq<char> {
    if s.len() <= max {
        s
    } else if max <= 3 {
        s.take(max as int)
    } else {
        s.take(max - 3) + seq!['.', '.', '.']
    }
}

impl ShellUiState {
    /// The state of the other fields stays as it was.
    pub open spec fn same_except_text(&self, old: &ShellUiState) -> bool {
        &&& self.omnibox_focused == old.omnibox_focused
        &&& self.hovered_target == old.hovered_target
        &&& self.hovered_link_url == old.hovered_link_url
        &&& self.status_message == old.status_message
    }

    /// An unfocused, empty omnibox with nothing hovered.
    pub fn new() -> (res: Self)
        ensures
            res.omnibox_text@ == Seq::<char>::empty(),
            !res.omnibox_focused,
            res.omnibox_cursor == 0,
            res.hovered_target is None,
            res.hovered_link_url is None,
            res.status_message is None,
            res.cursor_blink_counter == 0,
    {
        ShellUiState {
            omnibox_text: String::new(),
            omnibox_focused: false,
            omnibox_cursor: 0,
            hovered_target: None,
            hovered_link_url: None,
            status_message: None,
            cursor_blink_counter: 0,
        }
    }

    /// Show the active tab's URL in the omnibox unless the user is editing
    /// it; the cursor goes to the end (its number of characters).
    pub fn sync_with_tab_url(&mut self, url: &str)
        ensures
            final(self).same_except_text(old(self)),
            final(self).cursor_blink_counter == old(self).cursor_blink_counter,
            old(self).omnibox_focused ==> final(self).omnibox_text@ == old(self).omnibox_text@
                && final(self).omnibox_cursor == old(self).omnibox_cursor,
            !old(self).omnibox_focused ==> final(self).omnibox_text@ == url@
                && final(self).omnibox_cursor == url@.len(),
    {
        if !self.omnibox_focused {
            self.omnibox_text = owned(url);
            self.omnibox_cursor = url.unicode_len();
        }
    }

    /// Focus the omnibox with the cursor at the end (its number of
    /// characters).
    pub fn focus_omnibox(&mut self)
        ensures
            final(self).omnibox_focused,
            final(self).omnibox_text@ == old(self).omnibox_text@,
            final(self).omnibox_cursor == old(self).omnibox_text@.len(),
            final(self).cursor_blink_counter == 0,
            final(self).hovered_target == old(self).hovered_target,
            final(self).hovered_link_url == old(self).hovered_link_url,
            final(self).status_message == old(self).status_message,
    {
        self.omnibox_focused = true;
        self.omnibox_cursor = self.omnibox_text.as_str().unicode_len();
        self.cursor_blink_counter = 0;
    }

    /// Unfocus the omnibox.
    pub fn unfocus_omnibox(&mut self)
        ensures
            !final(self).omnibox_focused,
            final(self).omnibox_text@ == old(self).omnibox_text@,
            final(self).omnibox_cursor == old(self).omnibox_cursor,
            final(self).cursor_blink_counter == old(self).cursor_blink_counter,
    {
        self.omnibox_focused = false;
    }

    /// Insert a character at the cursor and move the cursor past it.
    pub fn insert_char(&mut self, ch: char)
        requires
            old(self).omnibox_cursor < usize::MAX,
        ensures
            final(self).same_except_text(old(self)),
            final(self).omnibox_text@ == insert_at(
                old(self).omnibox_text@,
                edit_pos(old(self).omnibox_text@, old(self).omnibox_cursor),
                seq![ch],
            ),
            final(self).omnibox_cursor == old(self).omnibox_cursor + 1,
            final(self).cursor_blink_counter == 0,
    {
        let text = chars_of(self.omnibox_text.as_str());
        let pos = self.cursor_byte_offset_chars(&text);
        let mut out = slice_chars(text.as_slice(), 0, pos);
        out.push(ch);
        let rest = slice_chars(text.as_slice(), pos, text.len());
        extend_chars(&mut out, rest.as_slice());
        self.omnibox_text = string_from_chars(out.as_slice());
        self.omnibox_cursor += 1;
        self.cursor_blink_counter = 0;
        assert(self.omnibox_text@ =~= insert_at(text@, pos as int, seq![ch]));
    }

    /// Insert a string at the cursor and move the cursor past it.
    pub fn insert_str(&mut self, s: &str)
        requires
            old(self).omnibox_cursor + s@.len() <= usize::MAX,
        ensures
            final(self).same_except_text(old(self)),
            final(self).omnibox_text@ == insert_at(
                old(self).omnibox_text@,
                edit_pos(old(self).omnibox_text@, old(self).omnibox_cursor),
                s@,
            ),
            final(self).omnibox_cursor == old(self).omnibox_cursor + s@.len(),
            final(self).cursor_blink_counter == 0,
    {
        let text = chars_of(self.omnibox_text.as_str());
        let ins = chars_of(s);
        let pos = self.cursor_byte_offset_chars(&text);
        let mut out = slice_chars(text.as_slice(), 0, pos);
        extend_chars(&mut out, ins.as_slice());
        let rest = slice_chars(text.as_slice(), pos, text.len());
        extend_chars(&mut out, rest.as_slice());
        self.omnibox_text = string_from_chars(out.as_slice());
        self.omnibox_cursor += ins.len();
        self.cursor_blink_counter = 0;
        assert(self.omnibox_text@ =~= insert_at(text@, pos as int, s@));
    }

    /// Delete the character before the cursor (Backspace).
    pub fn backspace(&mut self)
        requires
            old(self).omnibox_cursor <= old(self).omnibox_text@.len(),
        ensures
            final(self).same_except_text(old(self)),
            old(self).omnibox_cursor > 0 ==> final(self).omnibox_text@ == remove_at(
                old(self).omnibox_text@,
                old(self).omnibox_cursor - 1,
            ) && final(self).omnibox_cursor == old(self).omnibox_cursor - 1
                && final(self).cursor_blink_counter == 0,
            old(self).omnibox_cursor == 0 ==> final(self).omnibox_text@ == old(self).omnibox_text@ && final(self).omnibox_cursor == 0 && final(self).cursor_blink_counter
                == old(self).cursor_blink_counter,
    {
        if self.omnibox_cursor > 0 {
            self.omnibox_cursor -= 1;
            let text = chars_of(self.omnibox_text.as_str());
            let pos = self.cursor_byte_offset_chars(&text);
            let mut out = slice_chars(text.as_slice(), 0, pos);
            let rest = slice_chars(text.as_slice(), pos + 1, text.len());
            extend_chars(&mut out, rest.as_slice());
            self.omnibox_text = string_from_chars(out.as_slice());
            self.cursor_blink_counter = 0;
            assert(self.omnibox_text@ =~= remove_at(text@, pos as int));
        }
    }

    /// Delete the character after the cursor (Delete key).
    pub fn delete_forward(&mut self)
        ensures
            final(self).same_except_text(old(self)),
            final(self).omnibox_cursor == old(self).omnibox_cursor,
            old(self).omnibox_cursor < old(self).omnibox_text@.len() ==> final(self).omnibox_text@ == remove_at(old(self).omnibox_text@, old(self).omnibox_cursor as int)
                && final(self).cursor_blink_counter == 0,
            old(self).omnibox_cursor >= old(self).omnibox_text@.len() ==> final(self).omnibox_text@ == old(self).omnibox_text@ && final(self).cursor_blink_counter == old(self).cursor_blink_counter,
    {
        let text = chars_of(self.omnibox_text.as_str());
        if self.omnibox_cursor < text.len() {
            let pos = self.cursor_byte_offset_chars(&text);
            let mut out = slice_chars(text.as_slice(), 0, pos);
            let rest = slice_chars(text.as_slice(), pos + 1, text.len());
            extend_chars(&mut out, rest.as_slice());
            self.omnibox_text = string_from_chars(out.as_slice());
            self.cursor_blink_counter = 0;
            assert(self.omnibox_text@ =~= remove_at(text@, pos as int));
        }
    }

    /// Move the cursor one character left.
    pub fn cursor_left(&mut self)
        ensures
            final(self).same_except_text(old(self)),
            final(self).omnibox_text@ == old(self).omnibox_text@,
            old(self).omnibox_cursor > 0 ==> final(self).omnibox_cursor == old(self).omnibox_cursor
                - 1 && final(self).cursor_blink_counter == 0,
            old(self).omnibox_cursor == 0 ==> final(self).omnibox_cursor == 0 && final(self).cursor_blink_counter == old(self).cursor_blink_counter,
    {
        if self.omnibox_cursor > 0 {
            self.omnibox_cursor -= 1;
            self.cursor_blink_counter = 0;
        }
    }

    /// Move the cursor one character right, up to the end of the text.
    pub fn cursor_right(&mut self)
        ensures
            final(self).same_except_text(old(self)),
            final(self).omnibox_text@ == old(self).omnibox_text@,
            old(self).omnibox_cursor < old(self).omnibox_text@.len() ==> final(self).omnibox_cursor
                == old(self).omnibox_cursor + 1 && final(self).cursor_blink_counter == 0,
            old(self).omnibox_cursor >= old(self).omnibox_text@.len() ==> final(self).omnibox_cursor
                == old(self).omnibox_cursor && final(self).cursor_blink_counter == old(self).cursor_blink_counter,
    {
        let n = self.omnibox_text.as_str().unicode_len();
        if self.omnibox_cursor < n {
            self.omnibox_cursor += 1;
            self.cursor_blink_counter = 0;
        }
    }

    /// Move the cursor to the beginning.
    pub fn cursor_home(&mut self)
        ensures
            final(self).same_except_text(old(self)),
            final(self).omnibox_text@ == old(self).omnibox_text@,
            final(self).omnibox_cursor == 0,
            final(self).cursor_blink_counter == 0,
    {
        self.omnibox_cursor = 0;
        self.cursor_blink_counter = 0;
    }

    /// Move the cursor to the end of the text.
    pub fn cursor_end(&mut self)
        ensures
            final(self).same_except_text(old(self)),
            final(self).omnibox_text@ == old(self).omnibox_text@,
            final(self).omnibox_cursor == old(self).omnibox_text@.len(),
            final(self).cursor_blink_counter == 0,
    {
        self.omnibox_cursor = self.omnibox_text.as_str().unicode_len();
        self.cursor_blink_counter = 0;
    }

    /// The character position the cursor edits at, given the text's
    /// characters: the cursor, or the end of the text when it lies beyond.
    fn cursor_byte_offset_chars(&self, text: &Vec<char>) -> (res: usize)
        ensures
            res == edit_pos(text@, self.omnibox_cursor),
            res <= text@.len(),
    {
        if self.omnibox_cursor < text.len() {
            self.omnibox_cursor
        } else {
            text.len()
        }
    }

    /// Advance the blink counter; returns whether the cursor is visible.
    pub fn tick_cursor_blink(&mut self) -> (res: bool)
        requires
            old(self).cursor_blink_counter < u32::MAX,
        ensures
            final(self).cursor_blink_counter == old(self).cursor_blink_counter + 1,
            res == blink_visible(final(self).cursor_blink_counter),
            final(self).omnibox_text@ == old(self).omnibox_text@,
            final(self).omnibox_cursor == old(self).omnibox_cursor,
            final(self).same_except_text(old(self)),
    {
        self.cursor_blink_counter += 1;
        (self.cursor_blink_counter / 30) % 2 == 0
    }
}

/// Truncate to `max_chars` characters, ending in `...` when characters are
/// dropped and there is room for the dots.
pub fn truncate_with_ellipsis(s: &str, max_chars: usize) -> (res: String)
    ensures
        res@ == spec_truncate_with_ellipsis(s@, max_chars),
{
    let cs = chars_of(s);
    if cs.len() <= max_chars {
        owned(s)
    } else if max_chars <= 3 {
        let kept = slice_chars(cs.as_slice(), 0, max_chars);
        string_from_chars(kept.as_slice())
    } else {
        let mut kept = slice_chars(cs.as_slice(), 0, max_chars - 3);
        kept.push('.');
        kept.push('.');
        kept.push('.');
        assert(kept@ =~= s@.take(max_chars - 3) + seq!['.', '.', '.']);
        string_from_chars(kept.as_slice())
    }
}

/// Editing laws: inserting at a position and then removing what was
/// inserted gives back the original text.
pub proof fn lemma_insert_then_remove(text: Seq<char>, p: int, c: char)
    requires
        0 <= p <= text.len(),
    ensures
        remove_at(insert_at(text, p, seq![c]), p) == text,
{
    assert(remove_at(insert_at(text, p, seq![c]), p) =~= text);
}

/// The truncated text never exceeds the limit.
pub proof fn lemma_truncate_bound(s: Seq<char>, max: usize)
    ensures
        spec_truncate_with_ellipsis(s, max).len() <= max,
        s.len() <= max ==> spec_truncate_with_ellipsis(s, max) == s,
{
}

// ─── Keyboard ────────────────────────────────────────────────────

/// A pressed key, as far as the shell tells keys apart.
#[derive(Debug)]
pub enum KeyInput {
    /// A key that types characters, with the characters it stands for.
    Character(String),
    ArrowLeft,
    ArrowRight,
    F5,
    Enter,
    Escape,
    Backspace,
    Delete,
    Home,
    End,
    /// Any other key.
    Other,
}

/// What a key press asks of the shell.
#[derive(Debug, PartialEq, Eq)]
pub enum KeyCommand {
    NewTab,
    CloseTab,
    FocusOmnibox,
    GoBack,
    GoForward,
    Reload,
    /// Navigate to what the omnibox holds.
    Submit,
    /// Put the tab's URL back in the omnibox and leave it.
    Cancel,
    Backspace,
    DeleteForward,
    CursorLeft,
    CursorRight,
    CursorHome,
    CursorEnd,
    /// Type this text at the cursor.
    InsertText(String),
    Nothing,
}

/// The shortcuts that work whatever has focus: Ctrl+T new tab, Ctrl+W
/// close tab, Ctrl+L focus the omnibox, Ctrl+R or F5 reload (letters in
/// any case, without Alt), Alt+Left back and Alt+Right forward (without
/// Ctrl).
pub open spec fn shortcut(ctrl: bool, alt: bool, key: KeyInput) -> Option<KeyCommand> {
    match key {
        KeyInput::Character(c) => if ctrl && !alt {
            if eq_ignore_case(c@, "t"@) {
                Some(KeyCommand::NewTab)
            } else if eq_ignore_case(c@, "w"@) {
                Some(KeyCommand::CloseTab)
            } else if eq_ignore_case(c@, "l"@) {
                Some(KeyCommand::FocusOmnibox)
            } else if eq_ignore_case(c@, "r"@) {
                Some(KeyCommand::Reload)
            } else {
                None
            }
        } else {
            None
        },
        KeyInput::ArrowLeft => if !ctrl && alt {
            Some(KeyCommand::GoBack)
        } else {
            None
        },
        KeyInput::ArrowRight => if !ctrl && alt {
            Some(KeyCommand::GoForward)
        } else {
            None
        },
        KeyInput::F5 => if !ctrl && !alt {
            Some(KeyCommand::Reload)
        } else {
            None
        },
        _ => None,
    }
}

/// The editing command of a key while the omnibox has focus, text aside.
pub open spec fn editing_key(key: KeyInput) -> Option<KeyCommand> {
    match key {
        KeyInput::Enter => Some(KeyCommand::Submit),
        KeyInput::Escape => Some(KeyCommand::Cancel),
        KeyInput::Backspace => Some(KeyCommand::Backspace),
        KeyInput::Delete => Some(KeyCommand::DeleteForward),
        KeyInput::ArrowLeft => Some(KeyCommand::CursorLeft),
        KeyInput::ArrowRight => Some(KeyCommand::CursorRight),
        KeyInput::Home => Some(KeyCommand::CursorHome),
        KeyInput::End => Some(KeyCommand::CursorEnd),
        _ => None,
    }
}

/// What a key press asks: a shortcut first; otherwise, while the omnibox
/// has focus, an editing key, or the typed text when there is some and
/// neither Ctrl nor Alt is held; otherwise nothing.
pub fn on_key(ctrl: bool, alt: bool, key: &KeyInput, text: Option<&str>, omnibox_focused: bool) -> (res: KeyCommand)
    ensures
        shortcut(ctrl, alt, *key) matches Some(c) ==> res == c,
        shortcut(ctrl, alt, *key) is None && !omnibox_focused ==> res == KeyCommand::Nothing,
        shortcut(ctrl, alt, *key) is None && omnibox_focused ==> match editing_key(*key) {
            Some(c) => res == c,
            None => match text {
                Some(t) => if t@.len() > 0 && !ctrl && !alt {
                    res matches KeyCommand::InsertText(s) && s@ == t@
                } else {
                    res == KeyCommand::Nothing
                },
                None => res == KeyCommand::Nothing,
            },
        },
{
    match key {
        KeyInput::Character(c) => {
            if ctrl && !alt {
                if str_eq_ignore_case(c.as_str(), "t") {
                    return KeyCommand::NewTab;
                } else if str_eq_ignore_case(c.as_str(), "w") {
                    return KeyCommand::CloseTab;
                } else if str_eq_ignore_case(c.as_str(), "l") {
                    return KeyCommand::FocusOmnibox;
                } else if str_eq_ignore_case(c.as_str(), "r") {
                    return KeyCommand::Reload;
                }
            }
        },
        KeyInput::ArrowLeft => {
            if !ctrl && alt {
                return KeyCommand::GoBack;
            }
        },
        KeyInput::ArrowRight => {
            if !ctrl && alt {
                return KeyCommand::GoForward;
            }
        },
        KeyInput::F5 => {
            if !ctrl && !alt {
                return KeyCommand::Reload;
            }
        },
        _ => {},
    }
    if !omnibox_focused {
        return KeyCommand::Nothing;
    }
    match key {
        KeyInput::Enter => KeyCommand::Submit,
        KeyInput::Escape => KeyCommand::Cancel,
        KeyInput::Backspace => KeyCommand::Backspace,
        KeyInput::Delete => KeyCommand::DeleteForward,
        KeyInput::ArrowLeft => KeyCommand::CursorLeft,
        KeyInput::ArrowRight => KeyCommand::CursorRight,
        KeyInput::Home => KeyCommand::CursorHome,
        KeyInput::End => KeyCommand::CursorEnd,
        _ => match text {
            Some(t) => {
                if t.unicode_len() > 0 && !ctrl && !alt {
                    KeyCommand::InsertText(owned(t))
                } else {
                    KeyCommand::Nothing
                }
            },
            None => KeyCommand::Nothing,
        },
    }
}

} // verus!
