//! The pointer, keyboard and configuration state that decides whether a URL is highlighted.

use vstd::prelude::*;

verus! {

/// Which modifier keys are held.
#[derive(Clone, Copy, Debug, PartialEq, Eq, Structural)]
pub struct ModifiersState {
    pub shift: bool,
    pub ctrl: bool,
    pub alt: bool,
    pub logo: bool,
}

/// The pointer: where it is and whether its primary button is down.
#[derive(Clone, Copy, Debug, PartialEq, Eq, Structural)]
pub struct Mouse {
    pub inside_text_area: bool,
    pub line: usize,
    pub column: usize,
    pub left_button_pressed: bool,
}

/// The configured way of opening URLs.
#[derive(Clone, Copy, Debug, PartialEq, Eq, Structural)]
pub struct UrlConfig {
    /// The modifiers to hold while clicking.
    pub mods: ModifiersState,
    /// Whether a program to open URLs with is configured.
    pub launcher_configured: bool,
}

/// The modifiers a click needs: the configured ones, plus shift while the terminal
/// application tracks the pointer.
pub open spec fn required_mods(config: UrlConfig, mouse_mode: bool) -> ModifiersState {
    if mouse_mode {
        ModifiersState { shift: true, ..config.mods }
    } else {
        config.mods
    }
}

/// Whether the interface state lets a URL under the pointer be highlighted.
pub open spec fn highlight_allowed(
    config: UrlConfig,
    mouse: Mouse,
    mods: ModifiersState,
    mouse_mode: bool,
    selection: bool,
) -> bool {
    &&& !selection
    &&& mouse.inside_text_area
    &&& config.launcher_configured
    &&& required_mods(config, mouse_mode) == mods
    &&& !mouse.left_button_pressed
}

} // verus!
