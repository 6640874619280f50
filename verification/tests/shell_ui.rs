use asteria::shell_ui::{on_key, truncate_with_ellipsis, KeyCommand, KeyInput, ShellUiState};

#[test]
fn test_shell_ui_text_editing() {
    let mut state = ShellUiState::new();
    state.focus_omnibox();

    for ch in "hello".chars() {
        state.insert_char(ch);
    }
    assert_eq!(state.omnibox_text, "hello");
    assert_eq!(state.omnibox_cursor, 5);

    state.backspace();
    assert_eq!(state.omnibox_text, "hell");
    assert_eq!(state.omnibox_cursor, 4);

    state.cursor_left();
    state.cursor_left();
    assert_eq!(state.omnibox_cursor, 2);

    state.insert_char('X');
    assert_eq!(state.omnibox_text, "heXll");
    assert_eq!(state.omnibox_cursor, 3);

    state.delete_forward();
    assert_eq!(state.omnibox_text, "heXl");
    assert_eq!(state.omnibox_cursor, 3);

    state.cursor_home();
    assert_eq!(state.omnibox_cursor, 0);

    state.cursor_end();
    assert_eq!(state.omnibox_cursor, 4);

    state.cursor_home();
    state.insert_str("https://");
    assert_eq!(state.omnibox_text, "https://heXl");
    assert_eq!(state.omnibox_cursor, 8);
}

#[test]
fn test_shell_ui_tab_title_truncation() {
    assert_eq!(truncate_with_ellipsis("Hello", 10), "Hello");
    assert_eq!(truncate_with_ellipsis("Hello, World!", 10), "Hello, ...");
    assert_eq!(truncate_with_ellipsis("AB", 3), "AB");
    assert_eq!(truncate_with_ellipsis("ABCD", 3), "ABC");
    assert_eq!(truncate_with_ellipsis("A", 1), "A");
    assert_eq!(
        truncate_with_ellipsis("https://example.com/very/long/path/to/page.html", 20),
        "https://example.c..."
    );
}

#[test]
fn test_shell_ui_sync_unfocused() {
    let mut state = ShellUiState::new();
    state.sync_with_tab_url("https://example.com");
    assert_eq!(state.omnibox_text, "https://example.com");
    assert_eq!(state.omnibox_cursor, 19);

    state.focus_omnibox();
    state.omnibox_text = "typed-text".to_string();
    state.sync_with_tab_url("https://other.com");
    assert_eq!(state.omnibox_text, "typed-text");
}

#[test]
fn multibyte_editing_keeps_char_boundaries() {
    let mut state = ShellUiState::new();
    state.focus_omnibox();
    state.insert_str("héllo");
    assert_eq!(state.omnibox_cursor, 5);
    state.cursor_home();
    state.cursor_right();
    state.cursor_right();
    assert_eq!(state.omnibox_cursor, 2);
    state.backspace();
    assert_eq!(state.omnibox_text, "hllo");
    assert_eq!(state.omnibox_cursor, 1);
}

#[test]
fn insert_then_backspace_restores_text() {
    let mut state = ShellUiState::new();
    state.sync_with_tab_url("abc");
    state.focus_omnibox();
    state.cursor_left();
    state.insert_char('Z');
    assert_eq!(state.omnibox_text, "abZc");
    state.backspace();
    assert_eq!(state.omnibox_text, "abc");
    assert_eq!(state.omnibox_cursor, 2);
}

#[test]
fn cursor_blink_toggles_every_thirty_ticks() {
    let mut state = ShellUiState::new();
    state.focus_omnibox();
    let mut visible = Vec::new();
    for _ in 0..60 {
        visible.push(state.tick_cursor_blink());
    }
    assert!(visible[..29].iter().all(|&v| v));
    assert!(visible[29..59].iter().all(|&v| !v));
    assert!(visible[59]);
    assert_eq!(state.cursor_blink_counter, 60);
}

#[test]
fn cursor_after_sync_and_focus_counts_characters() {
    let mut state = ShellUiState::new();
    state.sync_with_tab_url("https://ex\u{e4}mple.com/\u{65e5}");
    assert_eq!(state.omnibox_cursor, 21);
    state.focus_omnibox();
    assert_eq!(state.omnibox_cursor, 21);
    state.backspace();
    assert_eq!(state.omnibox_text, "https://ex\u{e4}mple.com/");
    assert_eq!(state.omnibox_cursor, 20);
}

#[test]
fn keys_map_to_shortcuts_then_omnibox_editing() {
    let t = KeyInput::Character("T".to_string());
    assert_eq!(on_key(true, false, &t, Some("t"), false), KeyCommand::NewTab);
    assert_eq!(on_key(true, true, &t, Some("t"), false), KeyCommand::Nothing);
    let w = KeyInput::Character("w".to_string());
    assert_eq!(on_key(true, false, &w, None, true), KeyCommand::CloseTab);
    let l = KeyInput::Character("l".to_string());
    assert_eq!(on_key(true, false, &l, None, false), KeyCommand::FocusOmnibox);
    let r = KeyInput::Character("r".to_string());
    assert_eq!(on_key(true, false, &r, None, false), KeyCommand::Reload);
    assert_eq!(on_key(false, false, &KeyInput::F5, None, true), KeyCommand::Reload);
    assert_eq!(on_key(false, true, &KeyInput::ArrowLeft, None, true), KeyCommand::GoBack);
    assert_eq!(on_key(false, true, &KeyInput::ArrowRight, None, false), KeyCommand::GoForward);
    assert_eq!(on_key(false, false, &KeyInput::ArrowLeft, None, true), KeyCommand::CursorLeft);
    assert_eq!(on_key(false, false, &KeyInput::ArrowLeft, None, false), KeyCommand::Nothing);
    assert_eq!(on_key(false, false, &KeyInput::Enter, None, true), KeyCommand::Submit);
    assert_eq!(on_key(false, false, &KeyInput::Escape, None, true), KeyCommand::Cancel);
    assert_eq!(on_key(false, false, &KeyInput::End, None, true), KeyCommand::CursorEnd);
    let x = KeyInput::Character("x".to_string());
    assert_eq!(on_key(false, false, &x, Some("x"), true), KeyCommand::InsertText("x".to_string()));
    assert_eq!(on_key(true, false, &x, Some("x"), true), KeyCommand::Nothing);
    assert_eq!(on_key(false, false, &x, Some(""), true), KeyCommand::Nothing);
}
