use portweave::tray::{menu_action, poll, TrayAction};

#[test]
fn menu_entries_map_to_actions() {
    assert_eq!(menu_action("portweave-show"), Some(TrayAction::Show));
    assert_eq!(menu_action("portweave-quit"), Some(TrayAction::Quit));
    assert_eq!(menu_action("other"), None);
    assert_eq!(poll(), None);
}
