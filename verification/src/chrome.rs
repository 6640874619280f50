//! The browser chrome's state and the actions of its `asteria://` links.
//! Its palette is chosen by the renderer from the theme mode.

use vstd::prelude::*;

use crate::shell::{opened, ShellAction, ShellEvent, TabManager};
use crate::text::{chars_of, owned, parse_usize, parse_usize_exec, slice_chars, starts_with, starts_with_exec, str_eq};

verus! {

/// The chrome's colour scheme.
#[derive(Debug, Clone, Copy, PartialEq, Eq, Structural)]
pub enum ThemeMode {
    Dark,
    Light,
}

/// What a chrome link asks of the window.
#[derive(Debug, Clone, Copy, PartialEq, Eq, Structural)]
pub enum ChromeAction {
    RedrawRequired,
    MinimizeWindow,
    MaximizeWindow,
    CloseWindow,
}

/// The chrome: its theme, the address bar, and the figures it shows.
#[derive(Debug, Clone)]
pub struct ChromeShell {
    pub theme_mode: ThemeMode,
    pub is_address_bar_focused: bool,
    pub address_bar_buffer: String,
    pub last_fps: u32,
    pub last_latency_ms: u32,
}

/// The other theme.
pub open spec fn other_theme(t: ThemeMode) -> ThemeMode {
    match t {
        ThemeMode::Dark => ThemeMode::Light,
        ThemeMode::Light => ThemeMode::Dark,
    }
}

/// The prefix of the links that switch tabs; the tab's index follows it.
pub open spec fn switch_prefix() -> Seq<char> {
    "asteria://tab/switch/"@
}

impl ChromeShell {
    /// Dark theme, address bar unfocused and empty, 144 fps and 12 ms.
    pub fn new() -> (res: Self)
        ensures
            res.theme_mode == ThemeMode::Dark,
            !res.is_address_bar_focused,
            res.address_bar_buffer@ == Seq::<char>::empty(),
            res.last_fps == 144,
            res.last_latency_ms == 12,
    {
        ChromeShell {
            theme_mode: ThemeMode::Dark,
            is_address_bar_focused: false,
            address_bar_buffer: String::new(),
            last_fps: 144,
            last_latency_ms: 12,
        }
    }

    /// Switch between the dark and the light theme.
    pub fn toggle_theme(&mut self)
        ensures
            *final(self) == (ChromeShell { theme_mode: other_theme(old(self).theme_mode), ..*old(self) }),
    {
        self.theme_mode = match self.theme_mode {
            ThemeMode::Dark => ThemeMode::Light,
            ThemeMode::Light => ThemeMode::Dark,
        };
    }

    /// Act on a click on an `asteria://` link: switch the theme, switch to
    /// or open a tab (the new tab's page is to be loaded, as the returned
    /// shell action says), operate the window, or focus the address bar
    /// with the active tab's URL. Any other URL does nothing.
    pub fn handle_action_click(&mut self, url: &str, tab_manager: &mut TabManager) -> (res: (
        Option<ChromeAction>,
        ShellAction,
    ))
        requires
            old(tab_manager).wf(),
            url@ == "asteria://tab/new"@ ==> old(tab_manager).next_id() < u64::MAX,
        ensures
            final(tab_manager).wf(),
            url@ == "asteria://theme/toggle"@ ==> {
                &&& *final(self) == (ChromeShell { theme_mode: other_theme(old(self).theme_mode), ..*old(self) })
                &&& *final(tab_manager) == *old(tab_manager)
                &&& res == (Some(ChromeAction::RedrawRequired), ShellAction::Nothing)
            },
            url@ != "asteria://theme/toggle"@ && starts_with(url@, switch_prefix()) ==> {
                let idx = parse_usize(url@.skip(switch_prefix().len() as int));
                &&& *final(self) == *old(self)
                &&& res.1 == ShellAction::Nothing
                &&& match idx {
                    Some(i) => {
                        &&& res.0 == Some(ChromeAction::RedrawRequired)
                        &&& *final(tab_manager) == (TabManager {
                            active_tab_index: if i < old(tab_manager).tabs@.len() {
                                i
                            } else {
                                old(tab_manager).active_tab_index
                            },
                            ..*old(tab_manager)
                        })
                    },
                    None => res.0 is None && *final(tab_manager) == *old(tab_manager),
                }
            },
            url@ == "asteria://tab/new"@ ==> {
                &&& *final(self) == *old(self)
                &&& opened(*old(tab_manager), *final(tab_manager), "https://en.wikipedia.org"@)
                &&& res == (
                    Some(ChromeAction::RedrawRequired),
                    ShellAction::LoadTab(old(tab_manager).tabs@.len() as usize),
                )
            },
            url@ == "asteria://window/minimize"@ ==> *final(self) == *old(self) && *final(tab_manager) == *old(tab_manager) && res == (
                Some(ChromeAction::MinimizeWindow),
                ShellAction::Nothing,
            ),
            url@ == "asteria://window/maximize"@ ==> *final(self) == *old(self) && *final(tab_manager) == *old(tab_manager) && res == (
                Some(ChromeAction::MaximizeWindow),
                ShellAction::Nothing,
            ),
            url@ == "asteria://window/close"@ ==> *final(self) == *old(self) && *final(tab_manager) == *old(tab_manager) && res == (
                Some(ChromeAction::CloseWindow),
                ShellAction::Nothing,
            ),
            url@ == "asteria://addressbar/focus"@ ==> {
                &&& final(self).is_address_bar_focused
                &&& final(self).address_bar_buffer@ == old(tab_manager).tabs@[old(tab_manager).active_tab_index as int].url@
                &&& final(self).theme_mode == old(self).theme_mode
                &&& final(self).last_fps == old(self).last_fps
                &&& final(self).last_latency_ms == old(self).last_latency_ms
                &&& *final(tab_manager) == *old(tab_manager)
                &&& res == (Some(ChromeAction::RedrawRequired), ShellAction::Nothing)
            },
            url@ != "asteria://theme/toggle"@ && !starts_with(url@, switch_prefix()) && url@
                != "asteria://tab/new"@ && url@ != "asteria://window/minimize"@ && url@
                != "asteria://window/maximize"@ && url@ != "asteria://window/close"@ && url@
                != "asteria://addressbar/focus"@ ==> *final(self) == *old(self) && *final(tab_manager) == *old(tab_manager) && res == (None::<ChromeAction>, ShellAction::Nothing),
    {
        proof {
            reveal_strlit("asteria://tab/switch/");
            reveal_strlit("asteria://tab/new");
            reveal_strlit("asteria://window/minimize");
            reveal_strlit("asteria://window/maximize");
            reveal_strlit("asteria://window/close");
            reveal_strlit("asteria://addressbar/focus");
            reveal_strlit("asteria://theme/toggle");
            assert("asteria://window/minimize"@[18] != "asteria://window/maximize"@[18]);
            assert("asteria://window/close"@[10] != "asteria://theme/toggle"@[10]);
            assert("asteria://window/minimize"@.len() != "asteria://tab/new"@.len());
            let p = switch_prefix();
            if url@.len() >= p.len() && (url@ == "asteria://window/minimize"@ || url@
                == "asteria://window/maximize"@ || url@ == "asteria://window/close"@ || url@
                == "asteria://addressbar/focus"@) {
                assert(url@.subrange(0, p.len() as int)[10] != p[10]);
            }
        }
        let cs = chars_of(url);
        let prefix = chars_of("asteria://tab/switch/");
        if str_eq(url, "asteria://theme/toggle") {
            self.toggle_theme();
            (Some(ChromeAction::RedrawRequired), ShellAction::Nothing)
        } else if starts_with_exec(cs.as_slice(), prefix.as_slice()) {
            let rest = slice_chars(cs.as_slice(), prefix.len(), cs.len());
            assert(rest@ =~= url@.skip(switch_prefix().len() as int));
            match parse_usize_exec(rest.as_slice()) {
                Some(idx) => {
                    tab_manager.handle_event(ShellEvent::SwitchTab(idx));
                    (Some(ChromeAction::RedrawRequired), ShellAction::Nothing)
                },
                None => (None, ShellAction::Nothing),
            }
        } else if str_eq(url, "asteria://tab/new") {
            let action = tab_manager.handle_event(ShellEvent::NewTab(owned("https://en.wikipedia.org")));
            (Some(ChromeAction::RedrawRequired), action)
        } else if str_eq(url, "asteria://window/minimize") {
            (Some(ChromeAction::MinimizeWindow), ShellAction::Nothing)
        } else if str_eq(url, "asteria://window/maximize") {
            (Some(ChromeAction::MaximizeWindow), ShellAction::Nothing)
        } else if str_eq(url, "asteria://window/close") {
            (Some(ChromeAction::CloseWindow), ShellAction::Nothing)
        } else if str_eq(url, "asteria://addressbar/focus") {
            self.is_address_bar_focused = true;
            self.address_bar_buffer = owned(tab_manager.active_tab().url.as_str());
            (Some(ChromeAction::RedrawRequired), ShellAction::Nothing)
        } else {
            (None, ShellAction::Nothing)
        }
    }
}

impl Default for ChromeShell {
    fn default() -> (res: Self)
        ensures
            res.theme_mode == ThemeMode::Dark,
            !res.is_address_bar_focused,
            res.address_bar_buffer@ == Seq::<char>::empty(),
            res.last_fps == 144,
            res.last_latency_ms == 12,
    {
        Self::new()
    }
}

} // verus!
