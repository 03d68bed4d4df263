//! What holds of the inputs of the widgets: number inputs, colour planes, themes
//! and the order of the plugins.

use vstd::prelude::*;

use crate::float_bits;
use crate::widgets::color_plane;
use crate::widgets::color_plane::{FeathersColorPlane, PlaneEvent};
use crate::widgets::number_input;
use crate::widgets::number_input::{FractionParse, InputChild, NumberFormat, NumberInputValue};
use crate::widgets::plugins;
use crate::widgets::plugins::{Control, CorePart};
use crate::widgets::theme;
use crate::widgets::theme::Rgba;

verus! {

// ---------------------------------------------------------------------------
// Characters

/// The characters of numbers are the ten digits, both signs, the point and the
/// letter of an exponent in either case.
pub proof fn law_number_characters(c: char)
    ensures
        number_input::is_number_character(c) <==> 0x30 <= c as u32 <= 0x39 || c as u32 == 0x2e
            || c as u32 == 0x2d || c as u32 == 0x2b || c as u32 == 0x65 || c as u32 == 0x45,
        number_input::is_digit(c) <==> 0x30 <= c as u32 <= 0x39,
        number_input::is_number_character(c) ==> !number_input::is_white(c),
{
}

/// White space is no letter, digit or sign: below the first letters beyond
/// ASCII it is the space and the five controls from the tab on, and behind that
/// the two controls and spaces of Latin-1 and the spaces and separators of the
/// other blocks.
pub proof fn law_white_space(c: char)
    ensures
        (c as u32) < 0x80 ==> (number_input::is_white(c) <==> c as u32 == 0x20 || c as u32 == 0x9
            || c as u32 == 0xa || c as u32 == 0xb || c as u32 == 0xc || c as u32 == 0xd),
        0x80 <= c as u32 <= 0xff ==> (number_input::is_white(c) <==> c as u32 == 0x85 || c as u32
            == 0xa0),
        0x100 <= c as u32 <= 0x1fff ==> (number_input::is_white(c) <==> c as u32 == 0x1680),
        0x2000 <= c as u32 <= 0x206f ==> (number_input::is_white(c) <==> c as u32 <= 0x200a
            || c as u32 == 0x2028 || c as u32 == 0x2029 || c as u32 == 0x202f || c as u32
            == 0x205f),
        c as u32 >= 0x2070 ==> (number_input::is_white(c) <==> c as u32 == 0x3000),
{
}

proof fn lemma_leading_taken_off(text: Seq<char>) -> (from: int)
    ensures
        0 <= from <= text.len(),
        number_input::without_leading(text) == text.skip(from),
        forall|i: int| 0 <= i < from ==> number_input::is_white(#[trigger] text[i]),
        from < text.len() ==> !number_input::is_white(text[from]),
    decreases text.len(),
{
    if text.len() > 0 && number_input::is_white(text[0]) {
        let rest = text.skip(1);
        let from = lemma_leading_taken_off(rest);
        assert(rest.skip(from) == text.skip(from + 1));
        assert forall|i: int| 0 <= i < from + 1 implies number_input::is_white(
            #[trigger] text[i],
        ) by {
            if i > 0 {
                assert(rest[i - 1] == text[i]);
            }
        }
        from + 1
    } else {
        assert(text.skip(0) == text);
        0
    }
}

proof fn lemma_trailing_taken_off(text: Seq<char>) -> (to: int)
    ensures
        0 <= to <= text.len(),
        number_input::without_trailing(text) == text.take(to),
        forall|i: int| to <= i < text.len() ==> number_input::is_white(#[trigger] text[i]),
        to > 0 ==> !number_input::is_white(text[to - 1]),
    decreases text.len(),
{
    if text.len() > 0 && number_input::is_white(text.last()) {
        let rest = text.drop_last();
        let to = lemma_trailing_taken_off(rest);
        assert(rest.take(to) == text.take(to));
        assert forall|i: int| to <= i < text.len() implies number_input::is_white(
            #[trigger] text[i],
        ) by {
            if i < text.len() - 1 {
                assert(rest[i] == text[i]);
            }
        }
        to
    } else {
        assert(text.take(text.len() as int) == text);
        text.len() as int
    }
}

/// Trimming keeps everything between the first and the last character that is
/// no white space, and nothing else.
pub proof fn law_trimming_keeps_the_middle(text: Seq<char>, from: int, to: int)
    requires
        0 <= from < to <= text.len(),
        !number_input::is_white(text[from]),
        !number_input::is_white(text[to - 1]),
        forall|i: int| 0 <= i < from ==> number_input::is_white(#[trigger] text[i]),
        forall|i: int| to <= i < text.len() ==> number_input::is_white(#[trigger] text[i]),
    ensures
        number_input::trimmed(text) == text.subrange(from, to),
{
    let a = lemma_leading_taken_off(text);
    if a < from {
        assert(number_input::is_white(text[a]));
    }
    if from < a {
        assert(number_input::is_white(text[from]));
    }
    let rest = text.skip(from);
    let b = lemma_trailing_taken_off(rest);
    if b < to - from {
        assert(rest[to - 1 - from] == text[to - 1]);
    }
    if b > to - from {
        assert(rest[b - 1] == text[from + b - 1]);
    }
    assert(rest.take(to - from) == text.subrange(from, to));
}

/// Of white space alone nothing is left.
pub proof fn law_white_space_is_trimmed_away(text: Seq<char>)
    requires
        forall|i: int| 0 <= i < text.len() ==> number_input::is_white(#[trigger] text[i]),
    ensures
        number_input::trimmed(text).len() == 0,
{
    let a = lemma_leading_taken_off(text);
    if a < text.len() {
        assert(number_input::is_white(text[a]));
    }
    lemma_trailing_taken_off(text.skip(a));
}

// ---------------------------------------------------------------------------
// Integers

/// A digit behind a number multiplies it by ten and adds the digit's value,
/// which is its distance from the first of the ten.
pub proof fn law_digits_are_decimal(text: Seq<char>, c: char)
    ensures
        number_input::digits_value(Seq::empty()) == 0,
        number_input::digits_value(text.push(c)) == 10 * number_input::digits_value(text) + (
        c as int - 0x30),
        0x30 <= c as u32 <= 0x39 ==> 0 <= number_input::digit_value(c) <= 9,
        number_input::digit_value('0') == 0,
        number_input::digit_value('7') == 7,
        number_input::digit_value('9') == 9,
{
    assert(text.push(c).drop_last() == text);
    assert(text.push(c).last() == c);
}

/// A sign is only looked at where it leads: a minus negates, a plus changes
/// nothing, and digits alone stand for their value.
pub proof fn law_signs_lead(digits: Seq<char>)
    requires
        digits.len() > 0,
        forall|i: int| 0 <= i < digits.len() ==> 0x30 <= (#[trigger] digits[i]) as u32 <= 0x39,
    ensures
        number_input::integer_of(digits) == Some(number_input::digits_value(digits)),
        number_input::integer_of(seq!['-'] + digits) == Some(-number_input::digits_value(digits)),
        number_input::integer_of(seq!['+'] + digits) == Some(number_input::digits_value(digits)),
        number_input::integer_of(seq!['-', '-'] + digits) is None,
        number_input::integer_of(seq!['-', '+'] + digits) is None,
        number_input::integer_of(seq!['+', '+'] + digits) is None,
{
    assert((seq!['-'] + digits).skip(1) == digits);
    assert((seq!['+'] + digits).skip(1) == digits);
    assert forall|i: int| 0 <= i < digits.len() implies number_input::is_digit(
        #[trigger] digits[i],
    ) by {
        law_number_characters(digits[i]);
    }
    assert(number_input::is_digit(digits[0]));
    let twice = (seq!['-', '-'] + digits).skip(1);
    assert(twice[0] == '-' && !number_input::is_digit(twice[0]));
    let mixed = (seq!['-', '+'] + digits).skip(1);
    assert(mixed[0] == '+' && !number_input::is_digit(mixed[0]));
    let plus = (seq!['+', '+'] + digits).skip(1);
    assert(plus[0] == '+' && !number_input::is_digit(plus[0]));
}

/// No text with anything but digits behind its first character stands for an
/// integer, and neither does one without digits.
pub proof fn law_other_texts_are_no_integers(text: Seq<char>, i: int)
    ensures
        number_input::integer_of(Seq::empty()) is None,
        number_input::integer_of(seq!['-']) is None,
        number_input::integer_of(seq!['+']) is None,
        1 <= i < text.len() && !(0x30 <= text[i] as u32 <= 0x39) ==> number_input::integer_of(
            text,
        ) is None,
        text.len() > 0 && !(0x30 <= text[0] as u32 <= 0x39) && text[0] != '-' && text[0] != '+'
            ==> number_input::integer_of(text) is None,
{
    if 1 <= i < text.len() && !(0x30 <= text[i] as u32 <= 0x39) {
        assert(!number_input::is_digit(text[i]));
        if text[0] == '-' || text[0] == '+' {
            assert(number_input::unsigned(text)[i - 1] == text[i]);
        } else {
            assert(number_input::unsigned(text)[i] == text[i]);
        }
    }
    if text.len() > 0 && !(0x30 <= text[0] as u32 <= 0x39) && text[0] != '-' && text[0] != '+' {
        assert(!number_input::is_digit(text[0]));
        assert(number_input::unsigned(text)[0] == text[0]);
    }
    assert(seq!['-'].skip(1).len() == 0);
    assert(seq!['+'].skip(1).len() == 0);
}

/// An integer is taken just if it lies within the bounds, both of which are
/// allowed.
pub proof fn law_bounds_are_allowed(text: Seq<char>, value: int, min: int, max: int)
    requires
        number_input::integer_of(text) == Some(value),
    ensures
        min <= value && value <= max ==> number_input::integer_within(text, min, max) == Some(
            value,
        ),
        value < min || value > max ==> number_input::integer_within(text, min, max) is None,
        min <= value ==> number_input::integer_within(text, min, value) == Some(value),
        value <= max ==> number_input::integer_within(text, value, max) == Some(value),
{
}

/// An integer is shown without leading zeros, and with a minus just if it is
/// less than zero.
pub proof fn law_integers_are_shown_short(value: int)
    ensures
        number_input::shown(value).len() > 0,
        value < 0 <==> number_input::shown(value)[0] == '-',
        value > 0 ==> number_input::shown(value)[0] != '0',
        value < 0 ==> number_input::shown(value).len() > 1 && number_input::shown(value)[1] != '0',
        value == 0 ==> number_input::shown(value) == seq!['0'],
        value > 0 ==> number_input::shown(-value) == seq!['-'] + number_input::shown(value),
{
    if value >= 0 {
        lemma_first_digit(value as nat);
    } else {
        lemma_first_digit((-value) as nat);
    }
}

proof fn lemma_first_digit(n: nat)
    ensures
        number_input::digits_of(n).len() > 0,
        number_input::digits_of(n)[0] != '-',
        n > 0 ==> number_input::digits_of(n)[0] != '0',
        n == 0 ==> number_input::digits_of(n) == seq!['0'],
    decreases n,
{
    if n >= 10 {
        lemma_first_digit(n / 10);
    }
}

// ---------------------------------------------------------------------------
// Values

/// Text without a character other than white space has no value in any format.
pub proof fn law_blank_texts_have_no_value(
    text: Seq<char>,
    format: NumberFormat,
    fraction: FractionParse,
)
    requires
        forall|i: int| 0 <= i < text.len() ==> number_input::is_white(#[trigger] text[i]),
    ensures
        number_input::value_of(text, format, fraction) is None,
{
    law_white_space_is_trimmed_away(text);
}

/// A value has the format that was asked for. Formats with a fraction take what
/// the text was read as in their own precision; those without take the integer
/// that the trimmed text stands for, if their bits hold it.
pub proof fn law_values_have_the_format(
    text: Seq<char>,
    from: int,
    to: int,
    fraction: FractionParse,
)
    requires
        0 <= from < to <= text.len(),
        !number_input::is_white(text[from]),
        !number_input::is_white(text[to - 1]),
        forall|i: int| 0 <= i < from ==> number_input::is_white(#[trigger] text[i]),
        forall|i: int| to <= i < text.len() ==> number_input::is_white(#[trigger] text[i]),
    ensures
        number_input::value_of(text, NumberFormat::F32, fraction) == match fraction.single {
            Some(bits) => Some(NumberInputValue::F32(bits)),
            None => None,
        },
        number_input::value_of(text, NumberFormat::F64, fraction) == match fraction.double {
            Some(bits) => Some(NumberInputValue::F64(bits)),
            None => None,
        },
        ({
            let integer = number_input::integer_of(text.subrange(from, to));
            let short = number_input::value_of(text, NumberFormat::I32, fraction);
            let long = number_input::value_of(text, NumberFormat::I64, fraction);
            &&& integer is None ==> short is None && long is None
            &&& integer matches Some(value) ==> {
                &&& -0x8000_0000 <= value < 0x8000_0000 ==> (short matches Some(
                    NumberInputValue::I32(v),
                ) && v == value)
                &&& !(-0x8000_0000 <= value < 0x8000_0000) ==> short is None
                &&& -0x8000_0000_0000_0000 <= value < 0x8000_0000_0000_0000 ==> (long matches Some(
                    NumberInputValue::I64(v),
                ) && v == value)
                &&& !(-0x8000_0000_0000_0000 <= value < 0x8000_0000_0000_0000) ==> long is None
            }
        }),
{
    law_trimming_keeps_the_middle(text, from, to);
}

/// A child's text is replaced only where it has one and is not being edited.
pub proof fn law_edited_texts_are_left_alone(child: InputChild)
    ensures
        child.focused ==> !number_input::replaceable(child),
        child.text is None ==> !number_input::replaceable(child),
        !child.focused && child.text is Some ==> number_input::replaceable(child),
{
}

// ---------------------------------------------------------------------------
// Colour planes

/// Each plane has axes of its own, which the shader numbers from zero on.
pub proof fn law_planes_are_numbered(plane: FeathersColorPlane, other: FeathersColorPlane)
    ensures
        color_plane::axes_of(FeathersColorPlane::RedGreen).plane() == 0,
        color_plane::axes_of(FeathersColorPlane::RedBlue).plane() == 1,
        color_plane::axes_of(FeathersColorPlane::GreenBlue).plane() == 2,
        color_plane::axes_of(FeathersColorPlane::HueSaturation).plane() == 3,
        color_plane::axes_of(FeathersColorPlane::HueLightness).plane() == 4,
        plane != other ==> color_plane::axes_of(plane) != color_plane::axes_of(other),
{
}

/// A number between zero and one is kept; a greater one becomes one, and a
/// lesser one, or what is no number, becomes zero.
pub proof fn law_numbers_are_held_to_unit(value: u32)
    ensures
        float_bits::less(0, value) && float_bits::less(value, 0x3f80_0000)
            ==> color_plane::held_to_unit(value) == value,
        float_bits::less(0x3f80_0000, value) ==> color_plane::held_to_unit(value) == 0x3f80_0000,
        float_bits::less(value, 0) ==> color_plane::held_to_unit(value) == 0,
        float_bits::is_nan(value) ==> color_plane::held_to_unit(value) == 0,
        color_plane::held_to_unit(0x3f80_0000) == 0x3f80_0000,
        color_plane::held_to_unit(0) == 0,
        color_plane::held_to_unit(color_plane::held_to_unit(value))
            == color_plane::held_to_unit(value),
{
}

/// A press changes the value at once without beginning a drag; a drag begins
/// where it starts on a plane that is not disabled, goes on as long as it is
/// dragged and ends where it ends or is cancelled. Only a cancelled one is
/// passed on.
pub proof fn law_drags_go_from_start_to_end(dragging: bool, disabled: bool)
    ensures
        ({
            let press = color_plane::reaction(PlaneEvent::Press, dragging, disabled);
            let start = color_plane::reaction(PlaneEvent::DragStart, dragging, disabled);
            let drag = color_plane::reaction(PlaneEvent::Drag, dragging, disabled);
            let end = color_plane::reaction(PlaneEvent::DragEnd, dragging, disabled);
            let cancel = color_plane::reaction(PlaneEvent::Cancel, dragging, disabled);
            &&& press.dragging == dragging
            &&& drag.dragging == dragging
            &&& dragging ==> start.dragging
            &&& !disabled ==> start.dragging
            &&& disabled && !dragging ==> !start.dragging
            &&& !end.dragging
            &&& !cancel.dragging
            &&& press.consumed && start.consumed && drag.consumed && end.consumed
            &&& !cancel.consumed
            &&& start.emits is None
            &&& cancel.emits is None
            &&& !disabled ==> press.emits == Some(false)
            &&& !disabled && dragging ==> drag.emits == Some(false) && end.emits == Some(true)
            &&& !dragging ==> drag.emits is None && end.emits is None
            &&& disabled ==> press.emits is None && drag.emits is None && end.emits is None
        }),
{
}

// ---------------------------------------------------------------------------
// Themes and plugins

/// A token has the colour that the theme holds for it; one without is painted
/// in full red and blue without green, opaquely.
pub proof fn law_missing_colors_stand_out(colors: Map<Seq<char>, Rgba>, token: Seq<char>)
    ensures
        colors.dom().contains(token) ==> theme::color_in(colors, token) == colors[token],
        !colors.dom().contains(token) ==> {
            let color = theme::color_in(colors, token);
            &&& color.red == 0x3f80_0000
            &&& color.green == 0
            &&& color.blue == 0x3f80_0000
            &&& color.alpha == 0x3f80_0000
        },
        theme::no_tokens().dom() == Set::<Seq<char>>::empty(),
{
}

/// The controls are added in the order of their names; those for colours only
/// with the colour tools.
pub proof fn law_controls_are_added_in_order()
    ensures
        plugins::controls(true) == seq![
            Control::Button,
            Control::Checkbox,
            Control::ColorPlane,
            Control::ColorSlider,
            Control::ColorSwatch,
            Control::DisclosureToggle,
            Control::ListView,
            Control::Menu,
            Control::Radio,
            Control::Scrollbar,
            Control::Slider,
            Control::TextInput,
            Control::ToggleSwitch,
        ],
        plugins::controls(false).len() == 10,
        plugins::controls(false).take(2) == plugins::controls(true).take(2),
        plugins::controls(false).skip(2) == plugins::controls(true).skip(5),
{
}

/// The core adds its controls first and its outlines of the focus last; the
/// alpha pattern comes between the fonts and the outlines, only with the colour
/// tools.
pub proof fn law_core_parts_are_added_in_order(color_tools: bool)
    ensures
        plugins::core_parts(color_tools)[0] == CorePart::Controls,
        plugins::core_parts(color_tools)[1] == CorePart::CursorIcon,
        plugins::core_parts(color_tools)[2] == CorePart::PropagateTextColor,
        plugins::core_parts(color_tools)[3] == CorePart::PropagateTextFont,
        plugins::core_parts(color_tools).last() == CorePart::FocusOutlines,
        color_tools ==> plugins::core_parts(color_tools).len() == 6 && plugins::core_parts(
            color_tools,
        )[4] == CorePart::AlphaPattern,
        !color_tools ==> plugins::core_parts(color_tools).len() == 5,
{
}

} // verus!
