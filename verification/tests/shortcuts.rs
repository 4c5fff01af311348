use anduin::shortcuts::{
    event_modifiers, is_primary_modifier_pressed, shortcut_action_for_event, shortcut_action_for_key,
    shortcut_platform_for_os, Key, KeyboardEvent, Modifiers, NamedKey, ShortcutAction,
    ShortcutPlatform,
};

fn logo() -> Modifiers {
    Modifiers { logo: true, ..Modifiers::default() }
}

fn ctrl() -> Modifiers {
    Modifiers { control: true, ..Modifiers::default() }
}

fn shift() -> Modifiers {
    Modifiers { shift: true, ..Modifiers::default() }
}

fn with_shift(m: Modifiers) -> Modifiers {
    Modifiers { shift: true, ..m }
}

fn ch(s: &str) -> Key {
    Key::Character(s.to_owned())
}

#[test]
fn mac_shortcuts_use_logo_modifier() {
    let command = logo();
    let command_shift = with_shift(logo());

    assert!(is_primary_modifier_pressed(ShortcutPlatform::Mac, command));
    assert_eq!(
        shortcut_action_for_key(ShortcutPlatform::Mac, &ch("f"), command),
        Some(ShortcutAction::OpenDiff)
    );
    assert_eq!(
        shortcut_action_for_key(ShortcutPlatform::Mac, &ch("f"), command_shift),
        Some(ShortcutAction::OpenProject)
    );
}

#[test]
fn linux_shortcuts_use_control_modifier() {
    let command = ctrl();
    let command_shift = with_shift(ctrl());

    assert!(is_primary_modifier_pressed(ShortcutPlatform::Linux, command));
    assert_eq!(
        shortcut_action_for_key(ShortcutPlatform::Linux, &ch("f"), command),
        Some(ShortcutAction::OpenDiff)
    );
    assert_eq!(
        shortcut_action_for_key(ShortcutPlatform::Linux, &ch("f"), command_shift),
        Some(ShortcutAction::OpenProject)
    );
}

#[test]
fn windows_shortcuts_use_control_modifier() {
    let command = ctrl();
    let command_shift = with_shift(ctrl());

    assert!(is_primary_modifier_pressed(ShortcutPlatform::Windows, command));
    assert_eq!(
        shortcut_action_for_key(ShortcutPlatform::Windows, &ch("f"), command),
        Some(ShortcutAction::OpenDiff)
    );
    assert_eq!(
        shortcut_action_for_key(ShortcutPlatform::Windows, &ch("f"), command_shift),
        Some(ShortcutAction::OpenProject)
    );
}

#[test]
fn shortcut_actions_ignore_wrong_primary_modifier() {
    assert_eq!(shortcut_action_for_key(ShortcutPlatform::Mac, &ch("f"), ctrl()), None);
    assert_eq!(shortcut_action_for_key(ShortcutPlatform::Linux, &ch("f"), logo()), None);
}

#[test]
fn cmd_p_opens_project_picker() {
    assert_eq!(
        shortcut_action_for_key(ShortcutPlatform::Mac, &ch("p"), logo()),
        Some(ShortcutAction::OpenProjectPicker)
    );
    assert_eq!(
        shortcut_action_for_key(ShortcutPlatform::Linux, &ch("p"), ctrl()),
        Some(ShortcutAction::OpenProjectPicker)
    );
}

#[test]
fn bare_dot_opens_actions_panel() {
    for platform in [ShortcutPlatform::Mac, ShortcutPlatform::Linux, ShortcutPlatform::Windows] {
        assert_eq!(
            shortcut_action_for_key(platform, &ch("."), Modifiers::default()),
            Some(ShortcutAction::ToggleActionsPanel)
        );
    }
}

#[test]
fn modified_dot_does_not_open_actions_panel() {
    for platform in [ShortcutPlatform::Mac, ShortcutPlatform::Linux, ShortcutPlatform::Windows] {
        assert_eq!(shortcut_action_for_key(platform, &ch("."), shift()), None);
        assert_eq!(shortcut_action_for_key(platform, &ch("."), ctrl()), None);
    }
}

#[test]
fn escape_maps_to_close_on_all_platforms() {
    for platform in [ShortcutPlatform::Mac, ShortcutPlatform::Linux, ShortcutPlatform::Windows] {
        assert_eq!(
            shortcut_action_for_key(platform, &Key::Named(NamedKey::Escape), Modifiers::default()),
            Some(ShortcutAction::CloseActive)
        );
    }
}

#[test]
fn cmd_shift_brackets_switch_tabs() {
    let command_shift = with_shift(logo());
    assert_eq!(
        shortcut_action_for_key(ShortcutPlatform::Mac, &ch("{"), command_shift),
        Some(ShortcutAction::PreviousTab)
    );
    assert_eq!(
        shortcut_action_for_key(ShortcutPlatform::Mac, &ch("}"), command_shift),
        Some(ShortcutAction::NextTab)
    );

    let ctrl_shift = with_shift(ctrl());
    assert_eq!(
        shortcut_action_for_key(ShortcutPlatform::Linux, &ch("{"), ctrl_shift),
        Some(ShortcutAction::PreviousTab)
    );
    assert_eq!(
        shortcut_action_for_key(ShortcutPlatform::Linux, &ch("}"), ctrl_shift),
        Some(ShortcutAction::NextTab)
    );
}

#[test]
fn zoom_and_branch_shortcuts() {
    let p = ShortcutPlatform::Linux;
    assert_eq!(shortcut_action_for_key(p, &ch("="), ctrl()), Some(ShortcutAction::ZoomIn));
    assert_eq!(shortcut_action_for_key(p, &ch("+"), with_shift(ctrl())), Some(ShortcutAction::ZoomIn));
    assert_eq!(shortcut_action_for_key(p, &ch("-"), ctrl()), Some(ShortcutAction::ZoomOut));
    assert_eq!(shortcut_action_for_key(p, &ch("0"), ctrl()), Some(ShortcutAction::ZoomReset));
    assert_eq!(shortcut_action_for_key(p, &ch("B"), ctrl()), Some(ShortcutAction::OpenBranchPicker));
    assert_eq!(shortcut_action_for_key(p, &ch("b"), with_shift(ctrl())), None);
    assert_eq!(shortcut_action_for_key(p, &ch("x"), ctrl()), None);
    assert_eq!(shortcut_action_for_key(p, &Key::Named(NamedKey::Enter), ctrl()), None);
}

#[test]
fn only_key_presses_trigger_shortcuts() {
    let pressed = KeyboardEvent::KeyPressed { key: ch("f"), modifiers: ctrl() };
    let released = KeyboardEvent::KeyReleased { key: ch("f"), modifiers: ctrl() };
    assert_eq!(
        shortcut_action_for_event(ShortcutPlatform::Linux, &pressed),
        Some(ShortcutAction::OpenDiff)
    );
    assert_eq!(shortcut_action_for_event(ShortcutPlatform::Linux, &released), None);
    assert_eq!(event_modifiers(&KeyboardEvent::ModifiersChanged(shift())), shift());
}

#[test]
fn platform_follows_operating_system_name() {
    assert_eq!(shortcut_platform_for_os("macos"), ShortcutPlatform::Mac);
    assert_eq!(shortcut_platform_for_os("windows"), ShortcutPlatform::Windows);
    assert_eq!(shortcut_platform_for_os("linux"), ShortcutPlatform::Linux);
    assert_eq!(shortcut_platform_for_os("freebsd"), ShortcutPlatform::Linux);
}
