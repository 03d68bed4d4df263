//! Themes: colours by token.

use bevy_platform::collections::HashMap;
use bevy_platform::hash::FixedHasher;
use smol_str::SmolStr;
use vstd::prelude::*;

verus! {

/// A short immutable string.
#[verifier::external_type_specification]
#[verifier::external_body]
pub struct ExSmolStr(SmolStr);

/// A hash map with a fixed hasher.
#[verifier::external_type_specification]
#[verifier::external_body]
#[verifier::reject_recursive_types(K)]
#[verifier::reject_recursive_types(V)]
#[verifier::reject_recursive_types(S)]
pub struct ExHashMap<K, V, S>(HashMap<K, V, S>);

/// A fixed hasher.
#[verifier::external_type_specification]
#[verifier::external_body]
pub struct ExFixedHasher(FixedHasher);

/// A colour, each channel as a bit pattern.
#[derive(Debug, Clone, Copy, PartialEq, Eq, Structural)]
pub struct Rgba {
    pub red: u32,
    pub green: u32,
    pub blue: u32,
    pub alpha: u32,
}

impl Rgba {
    /// The colour that stands out where a token has none.
    #[verifier::allow_in_spec]
    pub fn fuchsia() -> Rgba
        returns
            (Rgba { red: 0x3f80_0000, green: 0, blue: 0x3f80_0000, alpha: 0x3f80_0000 }),
    {
        Rgba { red: 0x3f80_0000, green: 0, blue: 0x3f80_0000, alpha: 0x3f80_0000 }
    }
}

/// The characters of a short string.
pub uninterp spec fn smol_text(text: SmolStr) -> Seq<char>;

/// The colours that a map holds, by the characters of their tokens.
pub uninterp spec fn theme_colors(colors: HashMap<SmolStr, Rgba, FixedHasher>) -> Map<
    Seq<char>,
    Rgba,
>;

/// No token has a colour.
pub open spec fn no_tokens() -> Map<Seq<char>, Rgba> {
    Map::empty()
}

/// Calls `SmolStr::new`: the string holds the characters that it is made of.
#[verifier::external_body]
fn smol_new(text: &str) -> (smol: SmolStr)
    ensures
        smol_text(smol) == text@,
{
    SmolStr::new(text)
}

/// Calls `SmolStr::new_static`: the string holds the characters that it is made
/// of.
#[verifier::external_body]
fn smol_static(text: &'static str) -> (smol: SmolStr)
    ensures
        smol_text(smol) == text@,
{
    SmolStr::new_static(text)
}

/// Calls `SmolStr::as_str`: the slice has the characters of the string.
#[verifier::external_body]
fn smol_str(smol: &SmolStr) -> (text: &str)
    ensures
        text@ == smol_text(*smol),
{
    smol.as_str()
}

/// Calls `SmolStr::clone`: the copy has the same characters.
#[verifier::external_body]
fn smol_clone(smol: &SmolStr) -> (copy: SmolStr)
    ensures
        smol_text(copy) == smol_text(*smol),
{
    smol.clone()
}

/// Calls `HashMap::clone`: the copy has the same tokens with the same colours.
#[verifier::external_body]
fn clone_colors(colors: &HashMap<SmolStr, Rgba, FixedHasher>) -> (copy: HashMap<
    SmolStr,
    Rgba,
    FixedHasher,
>)
    ensures
        theme_colors(copy) == theme_colors(*colors),
{
    colors.clone()
}

/// Calls `HashMap::new`: the map is empty.
#[verifier::external_body]
fn no_colors() -> (colors: HashMap<SmolStr, Rgba, FixedHasher>)
    ensures
        theme_colors(colors) == no_tokens(),
{
    HashMap::new()
}

/// Calls `HashMap::get` with a string slice, which hashes and compares as the
/// short string of the same characters does: the colour of the token, if the
/// map has one.
#[verifier::external_body]
fn color_of(colors: &HashMap<SmolStr, Rgba, FixedHasher>, token: &str) -> (color: Option<Rgba>)
    ensures
        color == if theme_colors(*colors).contains_key(token@) {
            Some(theme_colors(*colors)[token@])
        } else {
            None
        },
{
    colors.get(token).copied()
}

/// Calls `HashMap::insert`: the token has the colour from then on, and no other
/// token changes.
#[verifier::external_body]
fn insert_color(colors: &mut HashMap<SmolStr, Rgba, FixedHasher>, token: SmolStr, color: Rgba)
    ensures
        theme_colors(*final(colors)) == theme_colors(*old(colors)).insert(smol_text(token), color),
{
    colors.insert(token, color);
}

/// The key of a property of a theme.
#[derive(Debug, PartialEq, Eq, Hash)]
pub struct ThemeToken(SmolStr);

impl Clone for ThemeToken {
    fn clone(&self) -> (token: ThemeToken)
        ensures
            token@ == self@,
    {
        ThemeToken(smol_clone(&self.0))
    }
}

impl Default for ThemeToken {
    fn default() -> (token: ThemeToken)
        ensures
            token@ == Seq::<char>::empty(),
    {
        proof {
            reveal_strlit("");
        }
        ThemeToken(smol_static(""))
    }
}

impl View for ThemeToken {
    type V = Seq<char>;

    closed spec fn view(&self) -> Seq<char> {
        smol_text(self.0)
    }
}

impl ThemeToken {
    /// A token of some characters.
    pub fn new(text: &str) -> (token: ThemeToken)
        ensures
            token@ == text@,
    {
        ThemeToken(smol_new(text))
    }

    /// A token that is known beforehand.
    pub fn new_static(text: &'static str) -> (token: ThemeToken)
        ensures
            token@ == text@,
    {
        ThemeToken(smol_static(text))
    }

    /// The token's characters.
    pub fn as_str(&self) -> (text: &str)
        ensures
            text@ == self@,
    {
        smol_str(&self.0)
    }
}

/// The properties that make up a theme.
#[derive(Debug)]
pub struct ThemeProps {
    /// The colours of the theme, by the characters of their token.
    pub color: HashMap<SmolStr, Rgba, FixedHasher>,
}

impl Clone for ThemeProps {
    fn clone(&self) -> (props: ThemeProps)
        ensures
            props@ == self@,
    {
        ThemeProps { color: clone_colors(&self.color) }
    }
}

impl Default for ThemeProps {
    fn default() -> (props: ThemeProps)
        ensures
            props@ == no_tokens(),
    {
        ThemeProps { color: no_colors() }
    }
}

/// The theme in use.
#[derive(Debug)]
pub struct UiTheme(pub ThemeProps);

impl Default for UiTheme {
    fn default() -> (theme: UiTheme)
        ensures
            theme.0@ == no_tokens(),
    {
        UiTheme(ThemeProps::default())
    }
}

impl View for ThemeProps {
    type V = Map<Seq<char>, Rgba>;

    open spec fn view(&self) -> Map<Seq<char>, Rgba> {
        theme_colors(self.color)
    }
}

/// What a theme says of a token: its colour, or the one that stands out.
pub open spec fn color_in(colors: Map<Seq<char>, Rgba>, token: Seq<char>) -> Rgba {
    if colors.contains_key(token) {
        colors[token]
    } else {
        Rgba::fuchsia()
    }
}

impl UiTheme {
    /// Whether a token has a colour.
    pub fn has_color(&self, token: &ThemeToken) -> (yes: bool)
        ensures
            yes == self.0@.contains_key(token@),
    {
        color_of(&self.0.color, token.as_str()).is_some()
    }

    /// Looks up the colour of a token.
    pub fn color(&self, token: &ThemeToken) -> (color: Rgba)
        ensures
            color == color_in(self.0@, token@),
    {
        match color_of(&self.0.color, token.as_str()) {
            Some(color) => color,
            None => Rgba::fuchsia(),
        }
    }

    /// Gives a token a colour.
    pub fn set_color(&mut self, token: &str, color: Rgba)
        ensures
            final(self).0@ == old(self).0@.insert(token@, color),
    {
        insert_color(&mut self.0.color, smol_new(token), color);
    }
}

/// A colour that was set is looked up again, and setting it changes no other
/// token.
pub proof fn law_set_colors_are_found(
    colors: Map<Seq<char>, Rgba>,
    token: Seq<char>,
    color: Rgba,
    other: Seq<char>,
)
    ensures
        color_in(colors.insert(token, color), token) == color,
        other != token ==> color_in(colors.insert(token, color), other) == color_in(colors, other),
{
}

/// Gives each node the colour of its token; colours are looked up only where
/// the theme has changed.
pub fn update_theme(theme: &UiTheme, changed: bool, tokens: &Vec<ThemeToken>, colors: &mut Vec<Rgba>)
    requires
        old(colors)@.len() == tokens@.len(),
    ensures
        final(colors)@.len() == old(colors)@.len(),
        forall|i: int|
            0 <= i < final(colors)@.len() ==> #[trigger] final(colors)@[i] == (if changed {
                color_in(theme.0@, tokens@[i]@)
            } else {
                old(colors)@[i]
            }),
{
    if !changed {
        return;
    }
    let count: usize = tokens.len();
    let mut i: usize = 0;
    while i < count
        invariant
            i <= count,
            count == tokens@.len(),
            colors@.len() == count,
            forall|p: int|
                0 <= p < i ==> #[trigger] colors@[p] == color_in(theme.0@, tokens@[p]@),
        decreases count - i,
    {
        colors.set(i, theme.color(&tokens[i]));
        i = i + 1;
    }
}

/// Marks text that takes inherited colours and fonts.
#[derive(Debug, Clone, Copy, PartialEq, Eq, Structural, Default)]
pub struct ThemedText;

} // verus!
