use vstd::prelude::*;
use crate::text::{chars_equal, to_chars};

verus! {

/// The platform whose conventions the shortcuts follow.
#[derive(Debug, Clone, Copy, PartialEq, Eq, Structural)]
pub enum ShortcutPlatform {
    Mac,
    Linux,
    Windows,
}

/// What a shortcut asks the application to do.
#[derive(Debug, Clone, Copy, PartialEq, Eq, Structural)]
pub enum ShortcutAction {
    OpenDiff,
    OpenProject,
    OpenBranchPicker,
    OpenProjectPicker,
    ToggleActionsPanel,
    CloseActive,
    PreviousTab,
    NextTab,
    ZoomIn,
    ZoomOut,
    ZoomReset,
}

/// The modifier keys held during a key event.
#[derive(Debug, Clone, Copy, PartialEq, Eq, Structural)]
pub struct Modifiers {
    pub shift: bool,
    pub control: bool,
    pub alt: bool,
    /// The Command key on macOS, the Windows key elsewhere.
    pub logo: bool,
}

impl Default for Modifiers {
    /// No modifier held.
    fn default() -> (m: Self)
        ensures
            !m.shift && !m.control && !m.alt && !m.logo,
    {
        Modifiers { shift: false, control: false, alt: false, logo: false }
    }
}

/// The named keys that the application reacts to; `Other` stands for every other one.
#[derive(Debug, Clone, Copy, PartialEq, Eq, Structural)]
pub enum NamedKey {
    Escape,
    Enter,
    Tab,
    Space,
    Backspace,
    Delete,
    ArrowUp,
    ArrowDown,
    ArrowLeft,
    ArrowRight,
    Other,
}

/// A key: the text it types, a named key, or one that is neither.
#[derive(Debug, Clone)]
pub enum Key {
    Character(String),
    Named(NamedKey),
    Unidentified,
}

/// A keyboard event.
#[derive(Debug, Clone)]
pub enum KeyboardEvent {
    KeyPressed { key: Key, modifiers: Modifiers },
    KeyReleased { key: Key, modifiers: Modifiers },
    ModifiersChanged(Modifiers),
}

/// The platform for an operating system named as `std::env::consts::OS` names it.
pub open spec fn platform_for_os(os: Seq<char>) -> ShortcutPlatform {
    if os == "macos"@ {
        ShortcutPlatform::Mac
    } else if os == "windows"@ {
        ShortcutPlatform::Windows
    } else {
        ShortcutPlatform::Linux
    }
}

/// Whether the platform's primary modifier (Command on macOS, Control elsewhere) is held.
pub open spec fn primary_pressed(platform: ShortcutPlatform, m: Modifiers) -> bool {
    match platform {
        ShortcutPlatform::Mac => m.logo,
        ShortcutPlatform::Linux | ShortcutPlatform::Windows => m.control,
    }
}

/// The text is the single character `c`.
pub open spec fn is_text(s: Seq<char>, c: char) -> bool {
    s == seq![c]
}

/// The shortcut that a key press with the primary modifier held triggers, if any.
pub open spec fn primary_shortcut(c: Seq<char>, m: Modifiers) -> Option<ShortcutAction> {
    if is_text(c, 'f') || is_text(c, 'F') {
        if m.shift {
            Some(ShortcutAction::OpenProject)
        } else {
            Some(ShortcutAction::OpenDiff)
        }
    } else if (is_text(c, 'b') || is_text(c, 'B')) && !m.shift {
        Some(ShortcutAction::OpenBranchPicker)
    } else if (is_text(c, 'p') || is_text(c, 'P')) && !m.shift {
        Some(ShortcutAction::OpenProjectPicker)
    } else if m.shift && (is_text(c, '[') || is_text(c, '{')) {
        Some(ShortcutAction::PreviousTab)
    } else if m.shift && (is_text(c, ']') || is_text(c, '}')) {
        Some(ShortcutAction::NextTab)
    } else if is_text(c, '+') || is_text(c, '=') {
        Some(ShortcutAction::ZoomIn)
    } else if is_text(c, '-') || is_text(c, '_') {
        Some(ShortcutAction::ZoomOut)
    } else if is_text(c, '0') {
        Some(ShortcutAction::ZoomReset)
    } else {
        None
    }
}

/// The shortcut that pressing `key` with the modifiers `m` triggers: a bare `.` toggles
/// the actions panel, Escape closes what is active, and the primary modifier with a
/// character gives `primary_shortcut`.
pub open spec fn shortcut_for(platform: ShortcutPlatform, key: Key, m: Modifiers) -> Option<ShortcutAction> {
    match key {
        Key::Character(c) => {
            if is_text(c@, '.') && !m.shift && !m.control && !m.alt && !m.logo {
                Some(ShortcutAction::ToggleActionsPanel)
            } else if primary_pressed(platform, m) {
                primary_shortcut(c@, m)
            } else {
                None
            }
        },
        Key::Named(NamedKey::Escape) => Some(ShortcutAction::CloseActive),
        _ => None,
    }
}

/// The platform for the operating system `os`, named as `std::env::consts::OS` names it.
pub fn shortcut_platform_for_os(os: &str) -> (p: ShortcutPlatform)
    ensures
        p == platform_for_os(os@),
{
    let cs = to_chars(os);
    let mac = to_chars("macos");
    let win = to_chars("windows");
    proof {
        reveal_strlit("macos");
        reveal_strlit("windows");
    }
    if chars_equal(&cs, &mac) {
        ShortcutPlatform::Mac
    } else if chars_equal(&cs, &win) {
        ShortcutPlatform::Windows
    } else {
        ShortcutPlatform::Linux
    }
}

fn text_is(s: &Vec<char>, c: char) -> (r: bool)
    ensures
        r == is_text(s@, c),
{
    let r = s.len() == 1 && s[0] == c;
    proof {
        if s@.len() == 1 && s@[0] == c {
            assert(s@ =~= seq![c]);
        }
    }
    r
}

/// The modifiers of an event.
pub fn event_modifiers(event: &KeyboardEvent) -> (m: Modifiers)
    ensures
        m == match *event {
            KeyboardEvent::KeyPressed { modifiers, .. } => modifiers,
            KeyboardEvent::KeyReleased { modifiers, .. } => modifiers,
            KeyboardEvent::ModifiersChanged(modifiers) => modifiers,
        },
{
    match event {
        KeyboardEvent::KeyPressed { modifiers, .. } => *modifiers,
        KeyboardEvent::KeyReleased { modifiers, .. } => *modifiers,
        KeyboardEvent::ModifiersChanged(modifiers) => *modifiers,
    }
}

/// The shortcut that an event triggers: only key presses trigger one.
pub fn shortcut_action_for_event(platform: ShortcutPlatform, event: &KeyboardEvent) -> (r: Option<
    ShortcutAction,
>)
    ensures
        r == match *event {
            KeyboardEvent::KeyPressed { key, modifiers } => shortcut_for(platform, key, modifiers),
            _ => None,
        },
{
    match event {
        KeyboardEvent::KeyPressed { key, modifiers } => shortcut_action_for_key(platform, key, *modifiers),
        _ => None,
    }
}

/// The shortcut that pressing `key` with `modifiers` triggers (see `shortcut_for`).
pub fn shortcut_action_for_key(platform: ShortcutPlatform, key: &Key, modifiers: Modifiers) -> (r: Option<
    ShortcutAction,
>)
    ensures
        r == shortcut_for(platform, *key, modifiers),
{
    match key {
        Key::Character(s) => {
            let c = to_chars(s.as_str());
            let none = !modifiers.shift && !modifiers.control && !modifiers.alt && !modifiers.logo;
            if text_is(&c, '.') && none {
                Some(ShortcutAction::ToggleActionsPanel)
            } else if is_primary_modifier_pressed(platform, modifiers) {
                if text_is(&c, 'f') || text_is(&c, 'F') {
                    if modifiers.shift {
                        Some(ShortcutAction::OpenProject)
                    } else {
                        Some(ShortcutAction::OpenDiff)
                    }
                } else if (text_is(&c, 'b') || text_is(&c, 'B')) && !modifiers.shift {
                    Some(ShortcutAction::OpenBranchPicker)
                } else if (text_is(&c, 'p') || text_is(&c, 'P')) && !modifiers.shift {
                    Some(ShortcutAction::OpenProjectPicker)
                } else if modifiers.shift && (text_is(&c, '[') || text_is(&c, '{')) {
                    Some(ShortcutAction::PreviousTab)
                } else if modifiers.shift && (text_is(&c, ']') || text_is(&c, '}')) {
                    Some(ShortcutAction::NextTab)
                } else if text_is(&c, '+') || text_is(&c, '=') {
                    Some(ShortcutAction::ZoomIn)
                } else if text_is(&c, '-') || text_is(&c, '_') {
                    Some(ShortcutAction::ZoomOut)
                } else if text_is(&c, '0') {
                    Some(ShortcutAction::ZoomReset)
                } else {
                    None
                }
            } else {
                None
            }
        },
        Key::Named(NamedKey::Escape) => Some(ShortcutAction::CloseActive),
        _ => None,
    }
}

/// Whether the platform's primary modifier (Command on macOS, Control elsewhere) is held.
pub fn is_primary_modifier_pressed(platform: ShortcutPlatform, modifiers: Modifiers) -> (b: bool)
    ensures
        b == primary_pressed(platform, modifiers),
{
    match platform {
        ShortcutPlatform::Mac => modifiers.logo,
        ShortcutPlatform::Linux | ShortcutPlatform::Windows => modifiers.control,
    }
}

/// Escape closes what is active on every platform, whatever the modifiers.
pub proof fn lemma_escape_always_closes(platform: ShortcutPlatform, m: Modifiers)
    ensures
        shortcut_for(platform, Key::Named(NamedKey::Escape), m) == Some(ShortcutAction::CloseActive),
{
}

/// A shortcut that needs the primary modifier fires only when that modifier is held:
/// apart from the bare `.` and Escape, no key triggers anything without it.
pub proof fn lemma_shortcuts_need_primary(platform: ShortcutPlatform, key: Key, m: Modifiers)
    requires
        !primary_pressed(platform, m),
    ensures
        shortcut_for(platform, key, m) is Some ==> shortcut_for(platform, key, m) == Some(
            ShortcutAction::ToggleActionsPanel,
        ) || shortcut_for(platform, key, m) == Some(ShortcutAction::CloseActive),
{
}

/// The one-character texts of the shortcut keys differ from one another.
proof fn lemma_single_chars_differ()
    ensures
        forall|a: char, b: char| a != b ==> #[trigger] seq![a] != #[trigger] seq![b],
{
    assert forall|a: char, b: char| a != b implies #[trigger] seq![a] != #[trigger] seq![b] by {
        assert(seq![a][0] == a);
        assert(seq![b][0] == b);
    }
}

/// With the platform's primary modifier held, the letter shortcuts do not depend on the
/// letter's case: `f` and `F` open the diff search (with shift, the project search),
/// `b` and `B` the branch picker and `p` and `P` the project picker (both without
/// shift); `[`/`{` and `]`/`}` with shift switch tabs; `+`/`=`, `-`/`_` and `0` zoom.
pub proof fn lemma_primary_letters(platform: ShortcutPlatform, lower: String, upper: String, m: Modifiers)
    requires
        primary_pressed(platform, m),
        (lower@ == seq!['f'] && upper@ == seq!['F']) || (lower@ == seq!['b'] && upper@ == seq!['B']) || (lower@
            == seq!['p'] && upper@ == seq!['P']),
    ensures
        shortcut_for(platform, Key::Character(lower), m) == shortcut_for(platform, Key::Character(upper), m),
        lower@ == seq!['f'] ==> shortcut_for(platform, Key::Character(lower), m) == Some(
            if m.shift {
                ShortcutAction::OpenProject
            } else {
                ShortcutAction::OpenDiff
            },
        ),
        lower@ == seq!['b'] ==> shortcut_for(platform, Key::Character(lower), m) == if m.shift {
            None
        } else {
            Some(ShortcutAction::OpenBranchPicker)
        },
        lower@ == seq!['p'] ==> shortcut_for(platform, Key::Character(lower), m) == if m.shift {
            None
        } else {
            Some(ShortcutAction::OpenProjectPicker)
        },
{
    lemma_single_chars_differ();
}

/// With the platform's primary modifier held, the other shortcuts: shift with `[` or
/// `{` goes to the previous tab and with `]` or `}` to the next one; `+` or `=` zooms
/// in, `-` or `_` zooms out and `0` resets the zoom.
pub proof fn lemma_primary_symbols(platform: ShortcutPlatform, s: String, m: Modifiers)
    requires
        primary_pressed(platform, m),
    ensures
        m.shift && (s@ == seq!['['] || s@ == seq!['{']) ==> shortcut_for(platform, Key::Character(s), m) == Some(
            ShortcutAction::PreviousTab,
        ),
        m.shift && (s@ == seq![']'] || s@ == seq!['}']) ==> shortcut_for(platform, Key::Character(s), m) == Some(
            ShortcutAction::NextTab,
        ),
        (s@ == seq!['+'] || s@ == seq!['=']) ==> shortcut_for(platform, Key::Character(s), m) == Some(
            ShortcutAction::ZoomIn,
        ),
        (s@ == seq!['-'] || s@ == seq!['_']) ==> shortcut_for(platform, Key::Character(s), m) == Some(
            ShortcutAction::ZoomOut,
        ),
        s@ == seq!['0'] ==> shortcut_for(platform, Key::Character(s), m) == Some(ShortcutAction::ZoomReset),
{
    lemma_single_chars_differ();
}

/// A bare `.` opens or closes the actions panel on every platform.
pub proof fn lemma_bare_dot_toggles_panel(platform: ShortcutPlatform, s: String, m: Modifiers)
    requires
        s@ == seq!['.'],
        !m.shift && !m.control && !m.alt && !m.logo,
    ensures
        shortcut_for(platform, Key::Character(s), m) == Some(ShortcutAction::ToggleActionsPanel),
{
}

} // verus!
