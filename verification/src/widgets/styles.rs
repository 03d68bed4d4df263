//! Styles: the tokens and the cursor that a widget's state calls for.

use vstd::prelude::*;

use crate::widgets::cursor::SystemCursor;

verus! {

/// A token of the theme that widgets are painted with.
#[derive(Debug, Clone, Copy, PartialEq, Eq, Structural)]
pub enum StyleToken {
    ButtonBg,
    ButtonBgHover,
    ButtonBgPressed,
    ButtonBgDisabled,
    ButtonText,
    ButtonTextDisabled,
    ButtonPrimaryBg,
    ButtonPrimaryBgHover,
    ButtonPrimaryBgPressed,
    ButtonPrimaryBgDisabled,
    ButtonPrimaryText,
    ButtonPrimaryTextDisabled,
    ButtonPlainBg,
    ButtonPlainBgHover,
    ButtonPlainBgPressed,
    ButtonPlainBgDisabled,
    TextInputText,
    TextInputTextDisabled,
    /// A token that no style calls for.
    Other,
}

/// The variants of a button.
#[derive(Debug, Clone, Copy, PartialEq, Eq, Structural)]
pub enum ButtonVariant {
    Normal,
    Primary,
    /// Transparent until it is hovered or pressed.
    Plain,
}

impl Default for ButtonVariant {
    fn default() -> (variant: ButtonVariant)
        ensures
            variant == ButtonVariant::Normal,
    {
        ButtonVariant::Normal
    }
}

/// What a button is in.
#[derive(Debug, Clone, Copy, PartialEq, Eq, Structural)]
pub enum ButtonState {
    Idle,
    Hovered,
    Pressed,
    Disabled,
}

/// The state that counts: being disabled before being pressed, and that before
/// being hovered.
pub open spec fn state_of(disabled: bool, pressed: bool, hovered: bool) -> ButtonState {
    if disabled {
        ButtonState::Disabled
    } else if pressed {
        ButtonState::Pressed
    } else if hovered {
        ButtonState::Hovered
    } else {
        ButtonState::Idle
    }
}

/// The background of a button.
pub open spec fn background_of(variant: ButtonVariant, state: ButtonState) -> StyleToken {
    match (variant, state) {
        (ButtonVariant::Normal, ButtonState::Disabled) => StyleToken::ButtonBgDisabled,
        (ButtonVariant::Normal, ButtonState::Pressed) => StyleToken::ButtonBgPressed,
        (ButtonVariant::Normal, ButtonState::Hovered) => StyleToken::ButtonBgHover,
        (ButtonVariant::Normal, ButtonState::Idle) => StyleToken::ButtonBg,
        (ButtonVariant::Primary, ButtonState::Disabled) => StyleToken::ButtonPrimaryBgDisabled,
        (ButtonVariant::Primary, ButtonState::Pressed) => StyleToken::ButtonPrimaryBgPressed,
        (ButtonVariant::Primary, ButtonState::Hovered) => StyleToken::ButtonPrimaryBgHover,
        (ButtonVariant::Primary, ButtonState::Idle) => StyleToken::ButtonPrimaryBg,
        (ButtonVariant::Plain, ButtonState::Disabled) => StyleToken::ButtonPlainBgDisabled,
        (ButtonVariant::Plain, ButtonState::Pressed) => StyleToken::ButtonPlainBgPressed,
        (ButtonVariant::Plain, ButtonState::Hovered) => StyleToken::ButtonPlainBgHover,
        (ButtonVariant::Plain, ButtonState::Idle) => StyleToken::ButtonPlainBg,
    }
}

/// The text of a button.
pub open spec fn text_of(variant: ButtonVariant, disabled: bool) -> StyleToken {
    if variant == ButtonVariant::Primary {
        if disabled {
            StyleToken::ButtonPrimaryTextDisabled
        } else {
            StyleToken::ButtonPrimaryText
        }
    } else if disabled {
        StyleToken::ButtonTextDisabled
    } else {
        StyleToken::ButtonText
    }
}

/// What changes on a button: tokens that are right already are left alone.
#[derive(Debug, Clone, Copy, PartialEq, Eq, Structural)]
pub struct ButtonStyle {
    pub background: Option<StyleToken>,
    pub text: Option<StyleToken>,
    pub cursor: SystemCursor,
}

/// A token where it differs from the one in place.
pub open spec fn if_new(wanted: StyleToken, present: StyleToken) -> Option<StyleToken> {
    if present != wanted {
        Some(wanted)
    } else {
        None
    }
}

fn unless_present(wanted: StyleToken, present: StyleToken) -> (token: Option<StyleToken>)
    ensures
        token == if_new(wanted, present),
{
    if present != wanted {
        Some(wanted)
    } else {
        None
    }
}

/// Chooses what changes on a button.
pub fn set_button_styles(
    variant: ButtonVariant,
    disabled: bool,
    pressed: bool,
    hovered: bool,
    background: StyleToken,
    text: StyleToken,
) -> (style: ButtonStyle)
    ensures
        style.background == if_new(
            background_of(variant, state_of(disabled, pressed, hovered)),
            background,
        ),
        style.text == if_new(text_of(variant, disabled), text),
        style.cursor == if disabled {
            SystemCursor::NotAllowed
        } else {
            SystemCursor::Pointer
        },
{
    let wanted_background = match (variant, disabled, pressed, hovered) {
        (ButtonVariant::Normal, true, _, _) => StyleToken::ButtonBgDisabled,
        (ButtonVariant::Normal, false, true, _) => StyleToken::ButtonBgPressed,
        (ButtonVariant::Normal, false, false, true) => StyleToken::ButtonBgHover,
        (ButtonVariant::Normal, false, false, false) => StyleToken::ButtonBg,
        (ButtonVariant::Primary, true, _, _) => StyleToken::ButtonPrimaryBgDisabled,
        (ButtonVariant::Primary, false, true, _) => StyleToken::ButtonPrimaryBgPressed,
        (ButtonVariant::Primary, false, false, true) => StyleToken::ButtonPrimaryBgHover,
        (ButtonVariant::Primary, false, false, false) => StyleToken::ButtonPrimaryBg,
        (ButtonVariant::Plain, true, _, _) => StyleToken::ButtonPlainBgDisabled,
        (ButtonVariant::Plain, false, true, _) => StyleToken::ButtonPlainBgPressed,
        (ButtonVariant::Plain, false, false, true) => StyleToken::ButtonPlainBgHover,
        (ButtonVariant::Plain, false, false, false) => StyleToken::ButtonPlainBg,
    };
    let wanted_text = match (variant, disabled) {
        (ButtonVariant::Primary, true) => StyleToken::ButtonPrimaryTextDisabled,
        (ButtonVariant::Primary, false) => StyleToken::ButtonPrimaryText,
        (_, true) => StyleToken::ButtonTextDisabled,
        (_, false) => StyleToken::ButtonText,
    };
    ButtonStyle {
        background: unless_present(wanted_background, background),
        text: unless_present(wanted_text, text),
        cursor: if disabled {
            SystemCursor::NotAllowed
        } else {
            SystemCursor::Pointer
        },
    }
}

/// A disabled button looks the same whether it is pressed or hovered.
pub proof fn law_disabled_buttons_do_not_react(variant: ButtonVariant, pressed: bool, hovered: bool)
    ensures
        background_of(variant, state_of(true, pressed, hovered)) == background_of(
            variant,
            ButtonState::Disabled,
        ),
{
}

/// Each state of each variant has a background of its own.
pub proof fn law_backgrounds_tell_states_apart(
    v: ButtonVariant,
    s: ButtonState,
    w: ButtonVariant,
    t: ButtonState,
)
    requires
        background_of(v, s) == background_of(w, t),
    ensures
        v == w,
        s == t,
{
}

/// Once the changes are made, there are none left to make.
pub proof fn law_styles_settle(wanted: StyleToken, present: StyleToken)
    ensures
        ({
            let after = match if_new(wanted, present) {
                Some(token) => token,
                None => present,
            };
            after == wanted && if_new(wanted, after) is None
        }),
{
}

/// What changes on a text input.
#[derive(Debug, Clone, Copy, PartialEq, Eq, Structural)]
pub struct TextInputStyle {
    pub text: Option<StyleToken>,
    pub cursor: SystemCursor,
}

/// Chooses what changes on a text input.
pub fn set_text_input_styles(disabled: bool, text: StyleToken) -> (style: TextInputStyle)
    ensures
        style.text == if_new(
            if disabled {
                StyleToken::TextInputTextDisabled
            } else {
                StyleToken::TextInputText
            },
            text,
        ),
        style.cursor == if disabled {
            SystemCursor::NotAllowed
        } else {
            SystemCursor::Text
        },
{
    let wanted = if disabled {
        StyleToken::TextInputTextDisabled
    } else {
        StyleToken::TextInputText
    };
    TextInputStyle {
        text: unless_present(wanted, text),
        cursor: if disabled {
            SystemCursor::NotAllowed
        } else {
            SystemCursor::Text
        },
    }
}

/// The toggle of a panel that folds away.
#[derive(Debug, Clone, Copy, PartialEq, Eq, Structural, Default)]
pub struct FeathersDisclosureToggle;

/// Styles the toggles of panels.
#[derive(Debug, Clone, Copy, PartialEq, Eq, Structural)]
pub struct DisclosureTogglePlugin;

/// How a toggle looks.
#[derive(Debug, Clone, Copy, PartialEq, Eq, Structural)]
pub struct ToggleStyle {
    pub icon: StyleToken,
    /// The turn of its chevron, in quarters.
    pub quarter_turns: u32,
}

impl FeathersDisclosureToggle {
    /// How the toggle looks: the chevron points down where the panel is open.
    pub fn style(&self, disabled: bool, checked: bool) -> (style: ToggleStyle)
        ensures
            style.icon == if disabled {
                StyleToken::ButtonTextDisabled
            } else {
                StyleToken::ButtonText
            },
            style.quarter_turns == if checked {
                1u32
            } else {
                0
            },
    {
        set_toggle_styles(disabled, checked)
    }
}

/// Chooses how a toggle looks.
pub fn set_toggle_styles(disabled: bool, checked: bool) -> (style: ToggleStyle)
    ensures
        style.icon == if disabled {
            StyleToken::ButtonTextDisabled
        } else {
            StyleToken::ButtonText
        },
        style.quarter_turns == if checked {
            1u32
        } else {
            0
        },
{
    ToggleStyle {
        icon: if disabled {
            StyleToken::ButtonTextDisabled
        } else {
            StyleToken::ButtonText
        },
        quarter_turns: if checked {
            1
        } else {
            0
        },
    }
}

} // verus!
