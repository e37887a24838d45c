use quickcapture::hotkeys::{AllKeyboardShortcuts, Shortcut, ShortcutAction};

#[test]
fn defaults_are_control_combinations() {
    let all = AllKeyboardShortcuts::new();
    assert_eq!(all.save, Shortcut::new(true, false, false, 'S'));
    assert_eq!(all.take_screenshot.key, 'D');
}

#[test]
fn colliding_shortcut_is_refused_with_its_owner() {
    let all = AllKeyboardShortcuts::new();
    let (ok, owner) = all.check_if_valid(&Shortcut::new(true, false, false, 'C'));
    assert!(!ok);
    assert_eq!(owner, Some(ShortcutAction::CopyToClipboard));
    let (ok2, owner2) = all.check_if_valid(&Shortcut::new(true, true, false, 'C'));
    assert!(ok2);
    assert_eq!(owner2, None);
}

#[test]
fn update_replaces_only_the_chosen_action() {
    let mut all = AllKeyboardShortcuts::new();
    let fresh = Shortcut::new(false, true, false, '7');
    all.update_keyboard_shortcut(ShortcutAction::Save, fresh);
    assert_eq!(all.save, fresh);
    assert_eq!(all.copy_to_clipboard, Shortcut::new(true, false, false, 'C'));
    assert_eq!(all.test, Shortcut::new(true, false, false, 'T'));
}

#[test]
fn readable_form_lists_modifiers_then_key() {
    let mut all = AllKeyboardShortcuts::new();
    assert_eq!(all.human_readable_shorcut(ShortcutAction::Save), "CTRL+S");
    all.update_keyboard_shortcut(
        ShortcutAction::Test,
        Shortcut::new(true, true, true, '9'),
    );
    assert_eq!(all.human_readable_shorcut(ShortcutAction::Test), "CTRL+ALT+SHIFT+9");
    all.update_keyboard_shortcut(
        ShortcutAction::Test,
        Shortcut::new(false, false, false, 'Z'),
    );
    assert_eq!(all.human_readable_shorcut(ShortcutAction::Test), "Z");
}

#[test]
fn from_name_uppercases_letters() {
    let all = AllKeyboardShortcuts::new();
    assert_eq!(all.from_name("a"), 'A');
    assert_eq!(all.from_name("Q"), 'Q');
    assert_eq!(all.from_name("5"), '5');
}

#[test]
fn default_matches_the_constructor() {
    assert_eq!(AllKeyboardShortcuts::default(), AllKeyboardShortcuts::new());
}
