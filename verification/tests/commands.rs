use asteria::commands::{execute_command, toggle_theme_mode, window_control, WindowOp};
use asteria::shell::{ShellAction, TabManager};

fn run(line: &str, theme: &mut String, tabs: &mut TabManager) -> (String, String, ShellAction) {
    let (reply, action) = execute_command(line, theme, tabs);
    (reply.status, reply.message, action)
}

#[test]
fn command_empty_line() {
    let mut theme = "dark".to_string();
    let mut tabs = TabManager::new();
    let (status, message, action) = run("   ", &mut theme, &mut tabs);
    assert_eq!(status, "empty");
    assert_eq!(message, "");
    assert_eq!(action, ShellAction::Nothing);
}

#[test]
fn command_navigate_joins_words() {
    let mut theme = "dark".to_string();
    let mut tabs = TabManager::new();
    let (status, message, action) = run("  NAV  https://a.com   b ", &mut theme, &mut tabs);
    assert_eq!(status, "success");
    assert_eq!(message, "[NAVIGATE] Active tab loaded target URL: https://a.com b");
    assert_eq!(action, ShellAction::LoadTab(0));
    assert_eq!(tabs.active_tab().url, "https://a.com b");
}

#[test]
fn command_navigate_without_target_goes_to_example() {
    let mut theme = "dark".to_string();
    let mut tabs = TabManager::new();
    let (_, message, _) = run("goto", &mut theme, &mut tabs);
    assert_eq!(message, "[NAVIGATE] Active tab loaded target URL: https://example.com");
    assert_eq!(tabs.active_tab().url, "https://example.com");
}

#[test]
fn command_theme_toggles() {
    let mut theme = "dark".to_string();
    let mut tabs = TabManager::new();
    let (status, message, _) = run("Theme", &mut theme, &mut tabs);
    assert_eq!(status, "success");
    assert_eq!(message, "[THEME] Active UI mode switched to Laboratory LIGHT");
    assert_eq!(theme, "light");
    let (_, message, _) = run("mode", &mut theme, &mut tabs);
    assert_eq!(message, "[THEME] Active UI mode switched to Laboratory DARK");
    assert_eq!(theme, "dark");
}

#[test]
fn command_fixed_answers() {
    let mut theme = "dark".to_string();
    let mut tabs = TabManager::new();
    let (status, message, _) = run("status", &mut theme, &mut tabs);
    assert_eq!(status, "success");
    assert_eq!(
        message,
        "[TELEMETRY] FPS: 144 | Latency: 12ms | Kernel: AST-902 | Pipeline: 7-Stage Ready"
    );
    let (status, message, _) = run("HELP", &mut theme, &mut tabs);
    assert_eq!(status, "info");
    assert_eq!(message, "[HELP] Available commands: navigate <url> | theme | telemetry | help");
    let (status, message, _) = run("  foo   bar ", &mut theme, &mut tabs);
    assert_eq!(status, "executed");
    assert_eq!(message, "[DIAGNOSTIC] Executed query node: 'foo   bar'");
}

#[test]
fn theme_mode_toggle() {
    let mut theme = "light".to_string();
    assert_eq!(toggle_theme_mode(&mut theme), "dark");
    let mut odd = "blue".to_string();
    assert_eq!(toggle_theme_mode(&mut odd), "dark");
    assert_eq!(toggle_theme_mode(&mut odd), "light");
}

#[test]
fn window_control_actions() {
    assert_eq!(window_control("minimize", false), WindowOp::Minimize);
    assert_eq!(window_control("maximize", false), WindowOp::Maximize);
    assert_eq!(window_control("maximize", true), WindowOp::Unmaximize);
    assert_eq!(window_control("close", true), WindowOp::Close);
    assert_eq!(window_control("shake", false), WindowOp::Nothing);
}
