use asteria::chrome::{ChromeAction, ChromeShell, ThemeMode};
use asteria::shell::{ShellAction, TabManager};

#[test]
fn chrome_defaults_and_theme_toggle() {
    let mut chrome = ChromeShell::new();
    assert_eq!(chrome.theme_mode, ThemeMode::Dark);
    assert!(!chrome.is_address_bar_focused);
    assert_eq!(chrome.last_fps, 144);
    assert_eq!(chrome.last_latency_ms, 12);
    chrome.toggle_theme();
    assert_eq!(chrome.theme_mode, ThemeMode::Light);
    chrome.toggle_theme();
    assert_eq!(chrome.theme_mode, ThemeMode::Dark);
}

#[test]
fn chrome_links() {
    let mut chrome = ChromeShell::default();
    let mut tabs = TabManager::new();
    assert_eq!(
        chrome.handle_action_click("asteria://theme/toggle", &mut tabs),
        (Some(ChromeAction::RedrawRequired), ShellAction::Nothing)
    );
    assert_eq!(chrome.theme_mode, ThemeMode::Light);

    assert_eq!(
        chrome.handle_action_click("asteria://tab/new", &mut tabs),
        (Some(ChromeAction::RedrawRequired), ShellAction::LoadTab(1))
    );
    assert_eq!(tabs.tabs.len(), 2);
    assert_eq!(tabs.active_tab().url, "https://en.wikipedia.org");

    assert_eq!(
        chrome.handle_action_click("asteria://tab/switch/0", &mut tabs),
        (Some(ChromeAction::RedrawRequired), ShellAction::Nothing)
    );
    assert_eq!(tabs.active_tab_index, 0);
    assert_eq!(
        chrome.handle_action_click("asteria://tab/switch/9", &mut tabs).0,
        Some(ChromeAction::RedrawRequired)
    );
    assert_eq!(tabs.active_tab_index, 0);
    assert_eq!(chrome.handle_action_click("asteria://tab/switch/x", &mut tabs).0, None);

    assert_eq!(
        chrome.handle_action_click("asteria://window/minimize", &mut tabs).0,
        Some(ChromeAction::MinimizeWindow)
    );
    assert_eq!(
        chrome.handle_action_click("asteria://window/maximize", &mut tabs).0,
        Some(ChromeAction::MaximizeWindow)
    );
    assert_eq!(
        chrome.handle_action_click("asteria://window/close", &mut tabs).0,
        Some(ChromeAction::CloseWindow)
    );

    assert_eq!(
        chrome.handle_action_click("asteria://addressbar/focus", &mut tabs).0,
        Some(ChromeAction::RedrawRequired)
    );
    assert!(chrome.is_address_bar_focused);
    assert_eq!(chrome.address_bar_buffer, "<sample>");

    assert_eq!(chrome.handle_action_click("https://example.com", &mut tabs).0, None);
}
