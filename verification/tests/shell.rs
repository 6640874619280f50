use asteria::css_parser::Stylesheet;
use asteria::dom::Dom;
use asteria::loader::{PageResources, Resource, ResourceType};
use asteria::shell::{NavigationHistory, ShellAction, ShellEvent, TabId, TabManager};

#[test]
fn test_navigation_history() {
    let mut history = NavigationHistory::new("page1.html");
    assert_eq!(history.current_url(), Some("page1.html"));
    assert!(!history.can_go_back());
    assert!(!history.can_go_forward());

    history.push_url("page2.html");
    assert_eq!(history.current_url(), Some("page2.html"));
    assert!(history.can_go_back());
    assert!(!history.can_go_forward());

    history.push_url("page3.html");
    assert_eq!(history.current_url(), Some("page3.html"));

    assert_eq!(history.go_back(), Some("page2.html"));
    assert_eq!(history.current_url(), Some("page2.html"));
    assert!(history.can_go_forward());

    assert_eq!(history.go_back(), Some("page1.html"));
    assert_eq!(history.current_url(), Some("page1.html"));
    assert!(!history.can_go_back());

    assert_eq!(history.go_forward(), Some("page2.html"));
    assert_eq!(history.current_url(), Some("page2.html"));

    history.push_url("page4.html");
    assert_eq!(history.current_url(), Some("page4.html"));
    assert!(!history.can_go_forward());
    assert_eq!(
        history.stack,
        vec!["page1.html", "page2.html", "page4.html"]
    );
}

#[test]
fn back_then_forward_returns_to_same_page() {
    let mut history = NavigationHistory::new("a");
    history.push_url("b");
    assert_eq!(history.go_back(), Some("a"));
    assert_eq!(history.go_forward(), Some("b"));
    assert_eq!(history.go_forward(), None);
    assert_eq!(history.current_url(), Some("b"));
}

#[test]
fn go_back_at_start_changes_nothing() {
    let mut history = NavigationHistory::new("only");
    assert_eq!(history.go_back(), None);
    assert_eq!(history.current_index, 0);
    assert_eq!(history.stack, vec!["only"]);
}

#[test]
fn test_tab_manager_tabs_and_switching() {
    let mut manager = TabManager::new();
    assert_eq!(manager.tabs.len(), 1);
    assert_eq!(manager.active_tab_index, 0);

    let id2 = manager.new_tab("<sample>");
    assert_eq!(manager.tabs.len(), 2);
    assert_eq!(manager.active_tab_index, 1);
    assert_eq!(manager.active_tab().id, id2);

    assert!(manager.switch_tab(0));
    assert_eq!(manager.active_tab_index, 0);

    assert!(manager.close_tab(1));
    assert_eq!(manager.tabs.len(), 1);

    assert!(manager.close_tab(0));
    assert_eq!(manager.tabs.len(), 1);
}

#[test]
fn test_close_tab_before_active() {
    let mut manager = TabManager::new();
    manager.new_tab("<sample>");
    let id3 = manager.new_tab("<sample>");

    assert_eq!(manager.active_tab_index, 2);
    assert_eq!(manager.active_tab().id, id3);

    assert!(manager.close_tab(0));
    assert_eq!(manager.active_tab_index, 1);
    assert_eq!(manager.active_tab().id, id3);

    assert!(manager.close_tab(0));
    assert_eq!(manager.active_tab_index, 0);
    assert_eq!(manager.active_tab().id, id3);
}

#[test]
fn tab_manager_new_tab_ids_and_titles() {
    let mut manager = TabManager::new();
    assert_eq!(manager.active_tab().id, TabId(1));
    assert_eq!(manager.active_tab().title, "Sample Page");
    let id = manager.new_tab("page.html");
    assert_eq!(id, TabId(2));
    assert_eq!(manager.active_tab().title, "page.html");
    assert_eq!(manager.active_tab().history.current_url(), Some("page.html"));
}

#[test]
fn tab_manager_close_out_of_range_changes_nothing() {
    let mut manager = TabManager::new();
    assert!(!manager.close_tab(3));
    assert_eq!(manager.tabs.len(), 1);
    assert!(!manager.switch_tab(3));
    assert_eq!(manager.active_tab_index, 0);
}

#[test]
fn tab_manager_closing_last_tab_opens_a_fresh_sample_tab() {
    let mut manager = TabManager::new();
    assert_eq!(manager.handle_event(ShellEvent::CloseTab(0)), ShellAction::LoadTab(0));
    assert_eq!(manager.tabs.len(), 1);
    assert_eq!(manager.active_tab().id, TabId(2));
    assert_eq!(manager.active_tab().url, "<sample>");
}

#[test]
fn tab_manager_closing_active_last_tab_moves_left() {
    let mut manager = TabManager::new();
    manager.new_tab("a");
    manager.new_tab("b");
    assert!(manager.close_tab(2));
    assert_eq!(manager.active_tab_index, 1);
    assert_eq!(manager.active_tab().url, "a");
}

#[test]
fn tab_manager_navigation_events_update_history() {
    let mut manager = TabManager::new();
    assert_eq!(
        manager.handle_event(ShellEvent::NavigateTo("one.html".to_string())),
        ShellAction::LoadTab(0)
    );
    assert_eq!(manager.active_tab().url, "one.html");
    assert_eq!(manager.active_tab().title, "one.html");
    assert_eq!(manager.handle_event(ShellEvent::GoBack), ShellAction::LoadTab(0));
    assert_eq!(manager.active_tab().url, "<sample>");
    assert_eq!(manager.handle_event(ShellEvent::GoBack), ShellAction::Nothing);
    assert_eq!(manager.handle_event(ShellEvent::GoForward), ShellAction::LoadTab(0));
    assert_eq!(manager.active_tab().url, "one.html");
    assert_eq!(manager.handle_event(ShellEvent::GoForward), ShellAction::Nothing);
    assert_eq!(manager.handle_event(ShellEvent::Reload), ShellAction::LoadTab(0));
    assert_eq!(
        manager.handle_event(ShellEvent::NewTab("two.html".to_string())),
        ShellAction::LoadTab(1)
    );
    assert_eq!(manager.handle_event(ShellEvent::SwitchTab(0)), ShellAction::Nothing);
    assert_eq!(manager.active_tab_index, 0);
}

#[test]
fn tab_manager_navigate_clears_loaded_page() {
    let mut manager = TabManager::new();
    let page = PageResources {
        html: Resource {
            url: "<sample>".to_string(),
            resource_type: ResourceType::Html,
            bytes: b"<p>x</p>".to_vec(),
        },
        stylesheets: Vec::new(),
    };
    manager.set_page(0, page, Dom::new(), Stylesheet::try_parse(b"p { color: red; }").unwrap());
    assert!(manager.active_tab().dom.is_some());
    manager.navigate("elsewhere.html");
    assert!(manager.active_tab().page_resources.is_none());
    assert!(manager.active_tab().dom.is_none());
    assert!(manager.active_tab().stylesheet.is_none());
}
