//! The decisions of the main menu: what a button shows and where a press or
//! the escape key leads.

use crate::AppState;
use vstd::prelude::*;

verus! {

/// The buttons of the main menu.
#[derive(Clone, Copy, Debug, PartialEq, Eq, Structural)]
pub enum MainMenuButton {
    Play,
    Settings,
    Exit,
}

/// What the pointer does to a button.
#[derive(Clone, Copy, Debug, PartialEq, Eq, Structural)]
pub enum Interaction {
    Pressed,
    Hovered,
    Idle,
}

/// The set of colours a button is drawn with.
#[derive(Clone, Copy, Debug, PartialEq, Eq, Structural)]
pub enum ButtonLook {
    Resting,
    Pressed,
    Hovered,
}

/// What a button does on an interaction: the look it takes and the state
/// the application is sent to, if any.
#[derive(Clone, Copy, Debug, PartialEq, Eq, Structural)]
pub struct ButtonResponse {
    pub look: ButtonLook,
    pub next: Option<AppState>,
}

impl MainMenuButton {
    /// The state a button leads to.
    pub open spec fn spec_target(self) -> AppState {
        match self {
            MainMenuButton::Play => AppState::Playing,
            MainMenuButton::Settings => AppState::Settings,
            MainMenuButton::Exit => AppState::Exit,
        }
    }

    /// The state a button leads to.
    pub fn target(&self) -> (state: AppState)
        ensures
            state == self.spec_target(),
    {
        match self {
            MainMenuButton::Play => AppState::Playing,
            MainMenuButton::Settings => AppState::Settings,
            MainMenuButton::Exit => AppState::Exit,
        }
    }

    /// The button at a place of the menu: play first, settings second and
    /// exit at every further place.
    pub fn at(index: usize) -> (button: MainMenuButton)
        ensures
            button == if index == 0 {
                MainMenuButton::Play
            } else if index == 1 {
                MainMenuButton::Settings
            } else {
                MainMenuButton::Exit
            },
    {
        match index {
            0 => MainMenuButton::Play,
            1 => MainMenuButton::Settings,
            _ => MainMenuButton::Exit,
        }
    }

    /// The text on a button.
    pub fn label(&self) -> (text: &'static str)
        ensures
            text@ == match *self {
                MainMenuButton::Play => "PLAY"@,
                MainMenuButton::Settings => "SETTINGS"@,
                MainMenuButton::Exit => "EXIT"@,
            },
    {
        match self {
            MainMenuButton::Play => "PLAY",
            MainMenuButton::Settings => "SETTINGS",
            MainMenuButton::Exit => "EXIT",
        }
    }
}

/// The look a button takes on an interaction.
pub open spec fn spec_look(interaction: Interaction) -> ButtonLook {
    match interaction {
        Interaction::Pressed => ButtonLook::Pressed,
        Interaction::Hovered => ButtonLook::Hovered,
        Interaction::Idle => ButtonLook::Resting,
    }
}

/// Where an interaction with a button leads: a press while the menu is
/// shown leads to the button's state, anything else nowhere.
pub open spec fn spec_pressed(
    interaction: Interaction,
    button: MainMenuButton,
    current_state: AppState,
) -> Option<AppState> {
    if interaction == Interaction::Pressed && current_state == AppState::Menu {
        Some(button.spec_target())
    } else {
        None
    }
}

/// Where the escape key leads: back to the menu from the settings, nowhere
/// from any other state or while the key is not pressed.
pub open spec fn spec_escaped(escape: bool, current_state: AppState) -> Option<AppState> {
    if escape && current_state == AppState::Settings {
        Some(AppState::Menu)
    } else {
        None
    }
}

/// Decides what a menu button does on an interaction.
pub fn menu_button_system(
    interaction: Interaction,
    button: MainMenuButton,
    current_state: AppState,
) -> (response: ButtonResponse)
    ensures
        response.look == spec_look(interaction),
        response.next == spec_pressed(interaction, button, current_state),
{
    match interaction {
        Interaction::Pressed => {
            let next = match current_state {
                AppState::Menu => Some(button.target()),
                _ => None,
            };
            ButtonResponse { look: ButtonLook::Pressed, next }
        },
        Interaction::Hovered => ButtonResponse { look: ButtonLook::Hovered, next: None },
        Interaction::Idle => ButtonResponse { look: ButtonLook::Resting, next: None },
    }
}

/// Decides where a press of a menu button leads while the menu is shown.
pub fn menu_button_press(interaction: Interaction, button: MainMenuButton) -> (next: Option<AppState>)
    ensures
        next == spec_pressed(interaction, button, AppState::Menu),
{
    match interaction {
        Interaction::Pressed => Some(button.target()),
        _ => None,
    }
}

/// Decides where the escape key leads.
pub fn escape_to_menu(escape: bool, current_state: AppState) -> (next: Option<AppState>)
    ensures
        next == spec_escaped(escape, current_state),
{
    if escape {
        match current_state {
            AppState::Settings => Some(AppState::Menu),
            _ => None,
        }
    } else {
        None
    }
}

} // verus!
