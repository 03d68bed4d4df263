//! Widget decisions: themes, cursors, styles, number inputs, colour planes.

use asha_ui::material::ColorPlaneAxes;
use asha_ui::widgets::color_plane::{
    hold_to_unit, on_plane_event, plane_axes, FeathersColorPlane, PlaneEvent, PlaneReaction,
};
use asha_ui::widgets::cursor::{
    update_cursor, CursorIcon, CursorIconPlugin, EntityCursor, SystemCursor,
};
use asha_ui::widgets::number_input::{
    accepts_character, emit_value_change, is_white_space, number_input_on_update, parse_integer,
    reads_text, show_integer, trim, FractionParse, InputChild, InputEvent, NumberFormat,
    NumberInputValue, ValueChange, MAX_CHARACTERS,
};
use asha_ui::widgets::plugins::{
    Control, ControlsPlugin, CorePart, FeathersCorePlugin, FeathersMember, FeathersPlugins,
};
use asha_ui::widgets::styles::{
    set_button_styles, set_text_input_styles, set_toggle_styles, ButtonVariant,
    FeathersDisclosureToggle, StyleToken,
};
use asha_ui::widgets::theme::{update_theme, Rgba, ThemeToken, UiTheme};
use bevy_math::Vec2;

fn chars(text: &str) -> Vec<char> {
    text.chars().collect()
}

// ---------------------------------------------------------------------------
// Themes

#[test]
fn copies_of_themes_stand_alone() {
    let token = ThemeToken::new("feathers.button.bg");
    let copy = token.clone();
    assert_eq!((copy.as_str(), &copy), ("feathers.button.bg", &token));
    assert_eq!(ThemeToken::default().as_str(), "");
    assert_ne!(ThemeToken::default(), token);
    let mut theme = UiTheme::default();
    theme.set_color("feathers.button.bg", gray(1));
    let mut changed = UiTheme(theme.0.clone());
    assert_eq!(changed.color(&token), gray(1));
    changed.set_color("feathers.button.bg", gray(2));
    assert_eq!((theme.color(&token), changed.color(&token)), (gray(1), gray(2)));
}

#[test]
fn defaults_are_plain() {
    assert_eq!(ButtonVariant::default(), ButtonVariant::Normal);
    assert_eq!(FeathersDisclosureToggle::default(), FeathersDisclosureToggle);
}

fn gray(level: u32) -> Rgba {
    Rgba { red: level, green: level, blue: level, alpha: 1.0f32.to_bits() }
}

#[test]
fn set_colors_are_looked_up_again() {
    let mut theme = UiTheme::default();
    let token = ThemeToken::new_static("feathers.button.bg");
    assert_eq!(token.as_str(), "feathers.button.bg");
    assert!(!theme.has_color(&token));
    assert_eq!(theme.color(&token), Rgba::fuchsia());
    theme.set_color("feathers.button.bg", gray(5));
    theme.set_color("other", gray(6));
    assert!(theme.has_color(&token));
    assert_eq!(theme.color(&ThemeToken::new("feathers.button.bg")), gray(5));
    theme.set_color("feathers.button.bg", gray(7));
    assert_eq!(theme.color(&token), gray(7));
    assert_eq!(theme.color(&ThemeToken::new("other")), gray(6));
}

#[test]
fn changed_themes_recolor_their_nodes() {
    let mut theme = UiTheme::default();
    theme.set_color("a", gray(1));
    let tokens = vec![ThemeToken::new("a"), ThemeToken::new("b")];
    let mut colors = vec![gray(9), gray(9)];
    update_theme(&theme, false, &tokens, &mut colors);
    assert_eq!(colors, vec![gray(9), gray(9)]);
    update_theme(&theme, true, &tokens, &mut colors);
    assert_eq!(colors, vec![gray(1), Rgba::fuchsia()]);
}

// ---------------------------------------------------------------------------
// Cursors

#[test]
fn cursors_come_from_what_is_hovered() {
    let pointer = EntityCursor::System(SystemCursor::Pointer);
    let default = EntityCursor::default();
    let shown = Some(CursorIcon::System(SystemCursor::Default));
    let chains = vec![vec![None, None], vec![None, Some(pointer)]];
    let (icon, changes) = update_cursor(None, &chains, default, &vec![shown, None]);
    assert_eq!(icon, CursorIcon::System(SystemCursor::Pointer));
    assert_eq!(changes, vec![true, true]);
    let (icon, changes) = update_cursor(None, &vec![], default, &vec![shown, None]);
    assert_eq!(icon, CursorIcon::System(SystemCursor::Default));
    assert_eq!(changes, vec![false, true]);
    let custom = EntityCursor::Custom(8);
    let (icon, _) = update_cursor(Some(custom), &chains, default, &vec![]);
    assert_eq!(icon, CursorIcon::Custom(8));
    assert!(custom.eq_cursor_icon(&icon));
    assert!(!custom.eq_cursor_icon(&CursorIcon::Custom(9)));
    assert!(!pointer.eq_cursor_icon(&icon));
    assert!(CursorIconPlugin.sets_up(false) && !CursorIconPlugin.sets_up(true));
}

#[test]
fn cursors_settle() {
    let wait = EntityCursor::Custom(3);
    let mut windows = vec![None, Some(CursorIcon::Custom(3)), Some(CursorIcon::Custom(4))];
    let (icon, changes) = update_cursor(Some(wait), &vec![], EntityCursor::default(), &windows);
    assert_eq!(changes, vec![true, false, true]);
    for (window, change) in windows.iter_mut().zip(changes) {
        if change {
            *window = Some(icon);
        }
    }
    let (_, changes) = update_cursor(Some(wait), &vec![], EntityCursor::default(), &windows);
    assert_eq!(changes, vec![false, false, false]);
}

// ---------------------------------------------------------------------------
// Styles

#[test]
fn buttons_change_only_what_differs() {
    let style = set_button_styles(
        ButtonVariant::Primary,
        false,
        true,
        true,
        StyleToken::ButtonPrimaryBg,
        StyleToken::ButtonPrimaryText,
    );
    assert_eq!(style.background, Some(StyleToken::ButtonPrimaryBgPressed));
    assert_eq!(style.text, None);
    assert_eq!(style.cursor, SystemCursor::Pointer);
    let disabled = set_button_styles(
        ButtonVariant::Normal,
        true,
        true,
        true,
        StyleToken::ButtonBgDisabled,
        StyleToken::ButtonText,
    );
    assert_eq!(disabled.background, None);
    assert_eq!(disabled.text, Some(StyleToken::ButtonTextDisabled));
    assert_eq!(disabled.cursor, SystemCursor::NotAllowed);
    let plain = set_button_styles(
        ButtonVariant::Plain,
        false,
        false,
        true,
        StyleToken::Other,
        StyleToken::Other,
    );
    assert_eq!(plain.background, Some(StyleToken::ButtonPlainBgHover));
    assert_eq!(plain.text, Some(StyleToken::ButtonText));
}

#[test]
fn inputs_and_toggles_have_their_styles() {
    let input = set_text_input_styles(false, StyleToken::Other);
    assert_eq!(input.text, Some(StyleToken::TextInputText));
    assert_eq!(input.cursor, SystemCursor::Text);
    let disabled = set_text_input_styles(true, StyleToken::TextInputTextDisabled);
    assert_eq!(disabled.text, None);
    assert_eq!(disabled.cursor, SystemCursor::NotAllowed);
    assert_eq!(set_toggle_styles(false, true).quarter_turns, 1);
    assert_eq!(FeathersDisclosureToggle.style(true, false).icon, StyleToken::ButtonTextDisabled);
}

// ---------------------------------------------------------------------------
// Number inputs

#[test]
fn white_space_is_what_chars_say() {
    for c in '\0'..=char::MAX {
        assert_eq!(is_white_space(c), c.is_whitespace(), "{c:?}");
    }
    for text in ["", "  ", " a b\t", "\u{3000}1\u{a0}", "x"] {
        assert_eq!(trim(&chars(text)), chars(text.trim()));
    }
}

#[test]
fn integers_are_read_as_strings_are() {
    let texts = [
        "", "0", "-0", "+7", "-", "+", "12a", " 1", "--1", "2147483647", "2147483648",
        "-2147483648", "-2147483649", "9223372036854775807", "9223372036854775808",
        "-9223372036854775808", "-9223372036854775809", "00012", "1e3", "99999999999999999999999",
    ];
    for text in texts {
        let expected = text.parse::<i64>().ok();
        assert_eq!(parse_integer(&chars(text), i64::MIN, i64::MAX), expected, "{text}");
        let expected = text.parse::<i32>().ok().map(|v| v as i64);
        assert_eq!(
            parse_integer(&chars(text), i32::MIN as i64, i32::MAX as i64),
            expected,
            "{text}"
        );
    }
}

#[test]
fn shown_integers_are_read_back() {
    for value in [0, 7, -7, 10, -10, 1234567890, i64::MIN, i64::MAX] {
        let shown = show_integer(value);
        assert_eq!(shown, chars(&format!("{value}")));
        assert!(shown.len() <= MAX_CHARACTERS);
        assert!(shown.iter().all(|c| accepts_character(*c)));
        assert_eq!(parse_integer(&shown, i64::MIN, i64::MAX), Some(value));
    }
    assert!(!accepts_character('f') && accepts_character('E') && accepts_character('.'));
}

#[test]
fn entered_text_becomes_a_value() {
    let none = FractionParse { single: None, double: None };
    let fraction = FractionParse {
        single: Some(1.5f32.to_bits()),
        double: Some(1.5f64.to_bits()),
    };
    let emit = |text, format, fraction| emit_value_change(&chars(text), format, fraction, true);
    assert_eq!(
        emit(" 42 ", NumberFormat::I32, none),
        Some(ValueChange { value: NumberInputValue::I32(42), is_final: true })
    );
    assert_eq!(
        emit("-5", NumberFormat::I64, none),
        Some(ValueChange { value: NumberInputValue::I64(-5), is_final: true })
    );
    assert_eq!(emit("2147483648", NumberFormat::I32, none), None);
    assert_eq!(emit("1.5", NumberFormat::I32, fraction), None);
    assert_eq!(
        emit("1.5", NumberFormat::F32, fraction),
        Some(ValueChange { value: NumberInputValue::F32(1.5f32.to_bits()), is_final: true })
    );
    assert_eq!(
        emit("1.5", NumberFormat::F64, fraction),
        Some(ValueChange { value: NumberInputValue::F64(1.5f64.to_bits()), is_final: true })
    );
    assert_eq!(emit("x", NumberFormat::F32, none), None);
    assert_eq!(emit("  ", NumberFormat::I32, none), None);
    assert_eq!(reads_text(InputEvent::TextChange), Some(false));
    assert_eq!(reads_text(InputEvent::Key { is_enter: true }), Some(true));
    assert_eq!(reads_text(InputEvent::Key { is_enter: false }), None);
    assert_eq!(reads_text(InputEvent::FocusLost), Some(true));
}

#[test]
fn inputs_in_use_keep_their_text() {
    let child = |focused, text: Option<&str>| InputChild { focused, text: text.map(chars) };
    let digits = chars("12");
    let update = |children| number_input_on_update(true, &children, &digits);
    let replaced = update(vec![child(false, None), child(false, Some("3"))]).unwrap();
    assert_eq!((replaced.child, replaced.replace), (1, true));
    let same = update(vec![child(false, Some("12"))]);
    assert!(same.is_none() || !same.unwrap().replace);
    assert!(update(vec![child(false, None)]).is_none());
    assert!(number_input_on_update(false, &vec![child(false, Some("3"))], &digits).is_none());
}

// ---------------------------------------------------------------------------
// Colour planes and plugins

#[test]
fn planes_have_their_axes() {
    assert_eq!(plane_axes(FeathersColorPlane::RedBlue), ColorPlaneAxes::RedBlue);
    assert_eq!(plane_axes(FeathersColorPlane::default()), ColorPlaneAxes::HueLightness);
    let held = |v: f32| f32::from_bits(hold_to_unit(v.to_bits()));
    for v in [-1.0, -0.0, 0.0, 0.25, 1.0, 1.5, f32::INFINITY, f32::NEG_INFINITY] {
        assert_eq!(held(v), v.clamp(0.0, 1.0));
        let clamped = Vec2::splat(v).clamp(Vec2::ZERO, Vec2::ONE);
        assert_eq!(held(v).to_bits(), clamped.x.to_bits());
    }
    assert_eq!(held(f32::NAN), 0.0);
    assert_eq!(Vec2::splat(f32::NAN).clamp(Vec2::ZERO, Vec2::ONE), Vec2::ZERO);
}

#[test]
fn drags_emit_until_they_end() {
    let mut dragging = false;
    let mut emitted = vec![];
    for event in [
        PlaneEvent::Drag,
        PlaneEvent::Press,
        PlaneEvent::DragStart,
        PlaneEvent::Drag,
        PlaneEvent::DragEnd,
        PlaneEvent::DragEnd,
    ] {
        let reaction = on_plane_event(event, true, dragging, false);
        dragging = reaction.dragging;
        emitted.push(reaction.emits);
    }
    assert_eq!(emitted, vec![None, Some(false), None, Some(false), Some(true), None]);
    let beside = on_plane_event(PlaneEvent::Press, false, true, false);
    assert_eq!(beside, PlaneReaction { dragging: true, consumed: false, emits: None });
    assert_eq!(on_plane_event(PlaneEvent::Press, true, false, true).emits, None);
    assert!(!on_plane_event(PlaneEvent::Cancel, true, true, false).dragging);
}

#[test]
fn plugins_list_their_parts() {
    assert_eq!(ControlsPlugin.controls(true).len(), 13);
    assert!(!ControlsPlugin.controls(false).contains(&Control::ColorPlane));
    assert!(ControlsPlugin.controls(false).contains(&Control::Button));
    let core = FeathersCorePlugin.parts(false);
    assert_eq!(core[0], CorePart::Controls);
    assert!(!core.contains(&CorePart::AlphaPattern));
    assert!(FeathersCorePlugin.parts(true).contains(&CorePart::AlphaPattern));
    assert_eq!(
        FeathersPlugins.members(),
        vec![FeathersMember::TabNavigation, FeathersMember::Core]
    );
}
