//! Number inputs: text that is read as a number while it is edited, and numbers
//! that are shown as text.

use vstd::prelude::*;

verus! {

/// The format of the number that is edited.
#[derive(Debug, Clone, Copy, PartialEq, Eq, Structural)]
pub enum NumberFormat {
    F32,
    F64,
    I32,
    I64,
}

impl Default for NumberFormat {
    fn default() -> (format: NumberFormat)
        ensures
            format == NumberFormat::F32,
    {
        NumberFormat::F32
    }
}

/// A number in one of the formats; those with a fraction as bit patterns.
#[derive(Debug, Clone, Copy, PartialEq, Eq, Structural)]
pub enum NumberInputValue {
    F32(u32),
    F64(u64),
    I32(i32),
    I64(i64),
}

/// A number that the user has entered.
#[derive(Debug, Clone, Copy, PartialEq, Eq, Structural)]
pub struct ValueChange {
    pub value: NumberInputValue,
    /// Whether the user is done.
    pub is_final: bool,
}

/// The most characters that a number takes.
pub const MAX_CHARACTERS: usize = 20;

/// Whether a character can be part of a number.
pub open spec fn is_number_character(c: char) -> bool {
    is_digit(c) || c == '.' || c == '-' || c == '+' || c == 'e' || c == 'E'
}

/// Accepts the characters that can be part of a number.
pub fn accepts_character(c: char) -> (yes: bool)
    ensures
        yes == is_number_character(c),
{
    ('0' <= c && c <= '9') || c == '.' || c == '-' || c == '+' || c == 'e' || c == 'E'
}

// ---------------------------------------------------------------------------
// White space

/// The characters with the property White_Space.
pub open spec fn is_white(c: char) -> bool {
    let code = c as u32;
    ||| 0x9 <= code <= 0xd
    ||| code == 0x20
    ||| code == 0x85
    ||| code == 0xa0
    ||| code == 0x1680
    ||| 0x2000 <= code <= 0x200a
    ||| code == 0x2028
    ||| code == 0x2029
    ||| code == 0x202f
    ||| code == 0x205f
    ||| code == 0x3000
}

/// Tells whether a character is white space.
pub fn is_white_space(c: char) -> (yes: bool)
    ensures
        yes == is_white(c),
{
    let code: u32 = c as u32;
    (0x9 <= code && code <= 0xd) || code == 0x20 || code == 0x85 || code == 0xa0 || code == 0x1680
        || (0x2000 <= code && code <= 0x200a) || code == 0x2028 || code == 0x2029 || code == 0x202f
        || code == 0x205f || code == 0x3000
}

/// Text without the white space that it starts with.
pub open spec fn without_leading(text: Seq<char>) -> Seq<char>
    decreases text.len(),
{
    if text.len() > 0 && is_white(text[0]) {
        without_leading(text.skip(1))
    } else {
        text
    }
}

/// Text without the white space that it ends with.
pub open spec fn without_trailing(text: Seq<char>) -> Seq<char>
    decreases text.len(),
{
    if text.len() > 0 && is_white(text.last()) {
        without_trailing(text.drop_last())
    } else {
        text
    }
}

/// Text without the white space around it.
pub open spec fn trimmed(text: Seq<char>) -> Seq<char> {
    without_trailing(without_leading(text))
}

/// Takes the white space off both ends.
pub fn trim(text: &Vec<char>) -> (kept: Vec<char>)
    ensures
        kept@ == trimmed(text@),
{
    let count: usize = text.len();
    let mut from: usize = 0;
    proof {
        assert(text@.skip(0) =~= text@);
    }
    while from < count && is_white_space(text[from])
        invariant
            from <= count,
            count == text@.len(),
            without_leading(text@) == without_leading(text@.skip(from as int)),
        decreases count - from,
    {
        proof {
            assert(text@.skip(from as int).skip(1) =~= text@.skip(from + 1));
        }
        from = from + 1;
    }
    let ghost rest = text@.skip(from as int);
    assert(without_leading(text@) == rest);
    let mut to: usize = count;
    proof {
        assert(text@.subrange(from as int, to as int) =~= rest);
    }
    while from < to && is_white_space(text[to - 1])
        invariant
            from <= to <= count,
            count == text@.len(),
            without_trailing(rest) == without_trailing(text@.subrange(from as int, to as int)),
        decreases to - from,
    {
        proof {
            assert(text@.subrange(from as int, to as int).drop_last() =~= text@.subrange(
                from as int,
                to - 1,
            ));
        }
        to = to - 1;
    }
    let mut kept: Vec<char> = Vec::new();
    let mut i: usize = from;
    while i < to
        invariant
            from <= i <= to <= count,
            count == text@.len(),
            kept@ == text@.subrange(from as int, i as int),
        decreases to - i,
    {
        kept.push(text[i]);
        proof {
            assert(text@.subrange(from as int, i + 1) =~= text@.subrange(
                from as int,
                i as int,
            ).push(text@[i as int]));
        }
        i = i + 1;
    }
    kept
}

// ---------------------------------------------------------------------------
// Integers

pub open spec fn is_digit(c: char) -> bool {
    '0' <= c && c <= '9'
}

/// The value of a digit.
pub open spec fn digit_value(c: char) -> int {
    c as int - '0' as int
}

/// Whether all characters are digits.
pub open spec fn all_digits(text: Seq<char>) -> bool {
    forall|i: int| 0 <= i < text.len() ==> is_digit(#[trigger] text[i])
}

/// The value of digits.
pub open spec fn digits_value(text: Seq<char>) -> int
    decreases text.len(),
{
    if text.len() == 0 {
        0
    } else {
        10 * digits_value(text.drop_last()) + digit_value(text.last())
    }
}

/// The text behind a sign.
pub open spec fn unsigned(text: Seq<char>) -> Seq<char> {
    if text.len() > 0 && (text[0] == '-' || text[0] == '+') {
        text.skip(1)
    } else {
        text
    }
}

/// The integer that a text stands for: a sign, or none, and at least one digit.
pub open spec fn integer_of(text: Seq<char>) -> Option<int> {
    let digits = unsigned(text);
    if digits.len() == 0 || !all_digits(digits) {
        None
    } else if text[0] == '-' {
        Some(-digits_value(digits))
    } else {
        Some(digits_value(digits))
    }
}

/// The integer that a text stands for, where it fits.
pub open spec fn integer_within(text: Seq<char>, min: int, max: int) -> Option<int> {
    match integer_of(text) {
        Some(value) => if min <= value <= max {
            Some(value)
        } else {
            None
        },
        None => None,
    }
}

proof fn lemma_value_grows(text: Seq<char>, n: int)
    requires
        0 <= n <= text.len(),
        all_digits(text),
    ensures
        0 <= digits_value(text.take(n)) <= digits_value(text),
    decreases text.len(),
{
    if n < text.len() {
        let shorter = text.drop_last();
        assert(all_digits(shorter)) by {
            assert forall|i: int| 0 <= i < shorter.len() implies is_digit(#[trigger] shorter[i]) by {
                assert(shorter[i] == text[i]);
            }
        }
        lemma_value_grows(shorter, n);
        assert(shorter.take(n) =~= text.take(n));
        assert(is_digit(text[text.len() - 1]));
    } else {
        assert(text.take(n) =~= text);
        if n > 0 {
            let shorter = text.drop_last();
            assert(all_digits(shorter)) by {
                assert forall|i: int| 0 <= i < shorter.len() implies is_digit(
                    #[trigger] shorter[i],
                ) by {
                    assert(shorter[i] == text[i]);
                }
            }
            lemma_value_grows(shorter, n - 1);
            assert(shorter.take(n - 1) =~= shorter);
            assert(is_digit(text[text.len() - 1]));
        }
    }
}

/// The most that an accumulator holds before the text is out of range.
const OUT_OF_RANGE: i128 = 0x8000_0000_0000_0000;

/// Reads an integer that has to lie between two bounds.
pub fn parse_integer(text: &Vec<char>, min: i64, max: i64) -> (value: Option<i64>)
    ensures
        match integer_within(text@, min as int, max as int) {
            Some(v) => value == Some(v as i64),
            None => value is None,
        },
{
    let count: usize = text.len();
    if count == 0 {
        return None;
    }
    let negative = text[0] == '-';
    let start: usize = if text[0] == '-' || text[0] == '+' {
        1
    } else {
        0
    };
    let ghost digits = unsigned(text@);
    proof {
        if start == 0 {
            assert(text@.skip(0) =~= text@);
        }
        assert(digits =~= text@.skip(start as int));
        assert(digits.take(0) =~= Seq::<char>::empty());
    }
    if start == count {
        return None;
    }
    let mut magnitude: i128 = 0;
    let mut i: usize = start;
    while i < count
        invariant
            start <= i <= count,
            count == text@.len(),
            start <= 1,
            digits == text@.skip(start as int),
            digits == unsigned(text@),
            0 <= magnitude <= OUT_OF_RANGE,
            magnitude == digits_value(digits.take(i - start)),
            forall|p: int| 0 <= p < i - start ==> is_digit(#[trigger] digits[p]),
        decreases count - i,
    {
        let c = text[i];
        assert(c == digits[i - start]);
        if c < '0' || c > '9' {
            assert(!is_digit(digits[i - start]));
            return None;
        }
        let digit: u32 = (c as u32) - ('0' as u32);
        proof {
            let longer = digits.take(i - start + 1);
            assert(longer.drop_last() =~= digits.take(i - start));
            assert(longer.last() == c);
        }
        magnitude = 10 * magnitude + digit as i128;
        if magnitude > OUT_OF_RANGE {
            proof {
                if all_digits(digits) {
                    lemma_value_grows(digits, i - start + 1);
                }
            }
            return None;
        }
        i = i + 1;
    }
    proof {
        assert(digits.take(count - start) =~= digits);
        assert(all_digits(digits));
    }
    let value: i128 = if negative {
        -magnitude
    } else {
        magnitude
    };
    if min as i128 <= value && value <= max as i128 {
        Some(value as i64)
    } else {
        None
    }
}

/// A digit's character.
pub open spec fn digit_char(digit: int) -> char {
    ('0' as int + digit) as char
}

/// The digits of a number.
pub open spec fn digits_of(n: nat) -> Seq<char>
    decreases n,
{
    if n < 10 {
        seq![digit_char(n as int)]
    } else {
        digits_of(n / 10).push(digit_char((n % 10) as int))
    }
}

/// How an integer is shown.
pub open spec fn shown(value: int) -> Seq<char> {
    if value < 0 {
        seq!['-'] + digits_of((-value) as nat)
    } else {
        digits_of(value as nat)
    }
}

fn character_of(digit: u64) -> (c: char)
    requires
        digit < 10,
    ensures
        c == digit_char(digit as int),
{
    match digit {
        0 => '0',
        1 => '1',
        2 => '2',
        3 => '3',
        4 => '4',
        5 => '5',
        6 => '6',
        7 => '7',
        8 => '8',
        _ => '9',
    }
}

fn push_digits(text: &mut Vec<char>, n: u64)
    ensures
        final(text)@ == old(text)@ + digits_of(n as nat),
    decreases n,
{
    if n >= 10 {
        push_digits(text, n / 10);
        text.push(character_of(n % 10));
        proof {
            assert(text@ =~= old(text)@ + digits_of(n as nat));
        }
    } else {
        text.push(character_of(n));
        proof {
            assert(text@ =~= old(text)@ + digits_of(n as nat));
        }
    }
}

/// Shows an integer.
pub fn show_integer(value: i64) -> (text: Vec<char>)
    ensures
        text@ == shown(value as int),
{
    let mut text: Vec<char> = Vec::new();
    if value < 0 {
        text.push('-');
        let magnitude: u64 = (-(value as i128)) as u64;
        push_digits(&mut text, magnitude);
        assert(text@ =~= shown(value as int));
    } else {
        push_digits(&mut text, value as u64);
        assert(text@ =~= shown(value as int));
    }
    text
}

proof fn lemma_digits_are_read_back(n: nat)
    ensures
        digits_of(n).len() > 0,
        all_digits(digits_of(n)),
        digits_value(digits_of(n)) == n,
    decreases n,
{
    let text = digits_of(n);
    if n < 10 {
        assert(text.drop_last() =~= Seq::<char>::empty());
        assert(text.last() == digit_char(n as int));
        reveal_with_fuel(digits_value, 2);
    } else {
        lemma_digits_are_read_back(n / 10);
        let shorter = digits_of(n / 10);
        assert(text.drop_last() =~= shorter);
        assert(text.last() == digit_char((n % 10) as int));
        assert forall|i: int| 0 <= i < text.len() implies is_digit(#[trigger] text[i]) by {
            if i < shorter.len() {
                assert(text[i] == shorter[i]);
            }
        }
    }
}

/// An integer that is shown is read back as it was, in every range that holds
/// it.
pub proof fn law_shown_integers_are_read_back(value: int, min: int, max: int)
    requires
        min <= value <= max,
    ensures
        integer_within(shown(value), min, max) == Some(value),
{
    if value < 0 {
        let digits = digits_of((-value) as nat);
        lemma_digits_are_read_back((-value) as nat);
        assert(shown(value).skip(1) =~= digits);
        assert(shown(value)[0] == '-');
    } else {
        lemma_digits_are_read_back(value as nat);
        assert(is_digit(shown(value)[0]));
    }
}

proof fn lemma_number_characters(text: Seq<char>)
    requires
        text.len() > 0,
        !is_white(text[0]),
        !is_white(text.last()),
    ensures
        trimmed(text) == text,
{
}

/// What is shown of an integer has no white space to take off, and is made of
/// characters that the input accepts.
pub proof fn law_shown_integers_are_accepted(value: int)
    ensures
        trimmed(shown(value)) == shown(value),
        forall|i: int| 0 <= i < shown(value).len() ==> is_number_character(#[trigger] shown(value)[i]),
{
    let text = shown(value);
    if value < 0 {
        let digits = digits_of((-value) as nat);
        lemma_digits_are_read_back((-value) as nat);
        assert(text.last() == digits.last());
        assert(is_digit(digits[digits.len() - 1]));
        assert forall|i: int| 0 <= i < text.len() implies is_number_character(#[trigger] text[i]) by {
            if i > 0 {
                assert(text[i] == digits[i - 1]);
            }
        }
    } else {
        lemma_digits_are_read_back(value as nat);
        assert(is_digit(text[0]));
        assert(is_digit(text[text.len() - 1]));
    }
    lemma_number_characters(text);
}

// ---------------------------------------------------------------------------
// Edits

/// What a text with a fraction was read as; none where it could not be.
#[derive(Debug, Clone, Copy, PartialEq, Eq, Structural)]
pub struct FractionParse {
    pub single: Option<u32>,
    pub double: Option<u64>,
}

/// The number that a text stands for in a format.
pub open spec fn value_of(text: Seq<char>, format: NumberFormat, fraction: FractionParse) -> Option<NumberInputValue> {
    if trimmed(text).len() == 0 {
        None
    } else {
        match format {
            NumberFormat::F32 => match fraction.single {
                Some(bits) => Some(NumberInputValue::F32(bits)),
                None => None,
            },
            NumberFormat::F64 => match fraction.double {
                Some(bits) => Some(NumberInputValue::F64(bits)),
                None => None,
            },
            NumberFormat::I32 => match integer_within(
                trimmed(text),
                i32::MIN as int,
                i32::MAX as int,
            ) {
                Some(value) => Some(NumberInputValue::I32(value as i32)),
                None => None,
            },
            NumberFormat::I64 => match integer_within(
                trimmed(text),
                i64::MIN as int,
                i64::MAX as int,
            ) {
                Some(value) => Some(NumberInputValue::I64(value as i64)),
                None => None,
            },
        }
    }
}

/// Reads the text of an input. `fraction` says what the trimmed text is as a
/// number with a fraction. Text without a number changes nothing.
pub fn emit_value_change(
    text: &Vec<char>,
    format: NumberFormat,
    fraction: FractionParse,
    is_final: bool,
) -> (change: Option<ValueChange>)
    ensures
        change == match value_of(text@, format, fraction) {
            Some(value) => Some(ValueChange { value, is_final }),
            None => None,
        },
{
    let kept = trim(text);
    if kept.len() == 0 {
        return None;
    }
    match format {
        NumberFormat::F32 => match fraction.single {
            Some(bits) => Some(ValueChange { value: NumberInputValue::F32(bits), is_final }),
            None => None,
        },
        NumberFormat::F64 => match fraction.double {
            Some(bits) => Some(ValueChange { value: NumberInputValue::F64(bits), is_final }),
            None => None,
        },
        NumberFormat::I32 => match parse_integer(&kept, i32::MIN as i64, i32::MAX as i64) {
            Some(value) => Some(
                ValueChange { value: NumberInputValue::I32(value as i32), is_final },
            ),
            None => None,
        },
        NumberFormat::I64 => match parse_integer(&kept, i64::MIN, i64::MAX) {
            Some(value) => Some(ValueChange { value: NumberInputValue::I64(value), is_final }),
            None => None,
        },
    }
}

/// An integer that is shown in an input is entered as it was.
pub proof fn law_shown_integers_are_entered(value: i32, fraction: FractionParse)
    ensures
        value_of(shown(value as int), NumberFormat::I32, fraction) == Some(
            NumberInputValue::I32(value),
        ),
        value_of(shown(value as int), NumberFormat::I64, fraction) == Some(
            NumberInputValue::I64(value as i64),
        ),
{
    law_shown_integers_are_accepted(value as int);
    law_shown_integers_are_read_back(value as int, i32::MIN as int, i32::MAX as int);
    law_shown_integers_are_read_back(value as int, i64::MIN as int, i64::MAX as int);
    if value < 0 {
        lemma_digits_are_read_back((-value) as nat);
    } else {
        lemma_digits_are_read_back(value as nat);
    }
}

/// What happened to the text of an input.
#[derive(Debug, Clone, Copy, PartialEq, Eq, Structural)]
pub enum InputEvent {
    TextChange,
    Key { is_enter: bool },
    FocusLost,
}

/// Whether an event reads the text, and whether the user is done then.
pub fn reads_text(event: InputEvent) -> (is_final: Option<bool>)
    ensures
        is_final == match event {
            InputEvent::TextChange => Some(false),
            InputEvent::Key { is_enter } => if is_enter {
                Some(true)
            } else {
                None
            },
            InputEvent::FocusLost => Some(true),
        },
{
    match event {
        InputEvent::TextChange => Some(false),
        InputEvent::Key { is_enter } => if is_enter {
            Some(true)
        } else {
            None
        },
        InputEvent::FocusLost => Some(true),
    }
}

/// A child of an input.
pub struct InputChild {
    pub focused: bool,
    /// Its text, where it can be edited.
    pub text: Option<Vec<char>>,
}

/// Whether a child's text can be replaced.
pub open spec fn replaceable(child: InputChild) -> bool {
    !child.focused && child.text is Some
}

/// What an update does: the child whose text counts, and whether it is replaced.
#[derive(Debug, Clone, Copy, PartialEq, Eq, Structural)]
pub struct TextUpdate {
    pub child: usize,
    pub replace: bool,
}

fn same_text(a: &Vec<char>, b: &Vec<char>) -> (same: bool)
    ensures
        same == (a@ == b@),
{
    let count: usize = a.len();
    if b.len() != count {
        return false;
    }
    let mut i: usize = 0;
    while i < count
        invariant
            i <= count,
            count == a@.len(),
            count == b@.len(),
            forall|p: int| 0 <= p < i ==> #[trigger] a@[p] == b@[p],
        decreases count - i,
    {
        if a[i] != b[i] {
            assert(a@[i as int] != b@[i as int]);
            return false;
        }
        i = i + 1;
    }
    assert(a@ =~= b@);
    true
}

/// Finds the text that an update replaces: that of the first child which is not
/// being edited, unless it shows the number already.
pub fn number_input_on_update(is_number_input: bool, children: &Vec<InputChild>, digits: &Vec<char>) -> (update: Option<TextUpdate>)
    ensures
        update is Some <==> is_number_input && exists|i: int|
            0 <= i < children@.len() && replaceable(#[trigger] children@[i]),
        update matches Some(u) ==> {
            &&& u.child < children@.len()
            &&& replaceable(children@[u.child as int])
            &&& forall|i: int| 0 <= i < u.child ==> !replaceable(#[trigger] children@[i])
            &&& u.replace == (children@[u.child as int].text->0@ != digits@)
        },
{
    if !is_number_input {
        return None;
    }
    let count: usize = children.len();
    let mut i: usize = 0;
    while i < count
        invariant
            i <= count,
            count == children@.len(),
            is_number_input,
            forall|p: int| 0 <= p < i ==> !replaceable(#[trigger] children@[p]),
        decreases count - i,
    {
        if !children[i].focused {
            if let Some(text) = &children[i].text {
                assert(replaceable(children@[i as int]));
                return Some(TextUpdate { child: i, replace: !same_text(text, digits) });
            }
        }
        i = i + 1;
    }
    None
}

} // verus!
