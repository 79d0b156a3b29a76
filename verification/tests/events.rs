use aws_profiles::{close_item_id, menu_action, reports_change, same_text, MenuAction};

#[test]
fn items_known_to_every_window_are_decoded() {
    assert_eq!(menu_action("quit", "launcher"), MenuAction::Quit);
    assert_eq!(menu_action("quit", "mfaCache"), MenuAction::Quit);
    assert_eq!(menu_action("open_mfa_cache", "launcher"), MenuAction::OpenMfaCache);
}

#[test]
fn close_item_closes_the_window_it_names() {
    assert_eq!(menu_action("launcher-close", "launcher"), MenuAction::CloseWindow);
    assert_eq!(menu_action("launcher-close", "mfaCache"), MenuAction::Nothing);
    assert_eq!(menu_action("mfaCache-close", "mfaCache"), MenuAction::CloseWindow);
    assert_eq!(menu_action("launcher-close-now", "launcher"), MenuAction::CloseWindow);
    assert_eq!(menu_action("-close", ""), MenuAction::CloseWindow);
}

#[test]
fn unknown_items_ask_for_nothing() {
    assert_eq!(menu_action("", "launcher"), MenuAction::Nothing);
    assert_eq!(menu_action("launcher", "launcher"), MenuAction::Nothing);
    assert_eq!(menu_action("launcher-open", "launcher"), MenuAction::Nothing);
    assert_eq!(menu_action("launcher-", "launcher"), MenuAction::Nothing);
    assert_eq!(menu_action("launcher--close", "launcher"), MenuAction::Nothing);
    assert_eq!(menu_action("Quit", "launcher"), MenuAction::Nothing);
    assert_eq!(menu_action("quit-close", "launcher"), MenuAction::Nothing);
}

#[test]
fn close_item_id_is_label_and_command() {
    assert_eq!(close_item_id("launcher"), "launcher-close");
    assert_eq!(close_item_id(""), "-close");
    assert_eq!(menu_action(&close_item_id("mfaCache"), "mfaCache"), MenuAction::CloseWindow);
    assert_eq!(menu_action(&close_item_id("mfaCache"), "launcher"), MenuAction::Nothing);
}

#[test]
fn label_with_a_dash_is_cut_at_the_dash() {
    assert_eq!(menu_action(&close_item_id("my-window"), "my-window"), MenuAction::Nothing);
    assert_eq!(menu_action("my-close", "my"), MenuAction::CloseWindow);
}

#[test]
fn only_a_finished_write_to_the_config_file_is_reported() {
    assert!(reports_change(true, "config"));
    assert!(!reports_change(false, "config"));
    assert!(!reports_change(true, "credentials"));
    assert!(!reports_change(true, "config.bak"));
    assert!(!reports_change(true, ""));
}

#[test]
fn texts_are_compared_character_by_character() {
    assert!(same_text("", ""));
    assert!(same_text("config", "config"));
    assert!(!same_text("config", "confi"));
    assert!(!same_text("config", "confiG"));
    assert!(!same_text("", "x"));
    assert!(same_text("été", "été"));
    assert!(!same_text("été", "ete"));
}
