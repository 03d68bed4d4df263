//! What the widget plugins add, in order.

use vstd::prelude::*;

use crate::material::{UiMaterialData, UiMaterialTag};
use crate::abi::UI_MODE_ALPHA_PATTERN;

verus! {

/// A control with a plugin of its own.
#[derive(Debug, Clone, Copy, PartialEq, Eq, Structural)]
pub enum Control {
    Button,
    Checkbox,
    ColorPlane,
    ColorSlider,
    ColorSwatch,
    DisclosureToggle,
    ListView,
    Menu,
    Radio,
    Scrollbar,
    Slider,
    TextInput,
    ToggleSwitch,
}

/// Adds all controls.
#[derive(Debug, Clone, Copy, PartialEq, Eq, Structural)]
pub struct ControlsPlugin;

/// The controls, in the order in which they are added.
pub open spec fn controls(color_tools: bool) -> Seq<Control> {
    let colors = if color_tools {
        seq![Control::ColorPlane, Control::ColorSlider, Control::ColorSwatch]
    } else {
        Seq::empty()
    };
    seq![Control::Button, Control::Checkbox] + colors + seq![
        Control::DisclosureToggle,
        Control::ListView,
        Control::Menu,
        Control::Radio,
        Control::Scrollbar,
        Control::Slider,
        Control::TextInput,
        Control::ToggleSwitch,
    ]
}

impl ControlsPlugin {
    /// Lists the controls in the order in which they are added.
    pub fn controls(&self, color_tools: bool) -> (list: Vec<Control>)
        ensures
            list@ == controls(color_tools),
    {
        let mut list: Vec<Control> = Vec::new();
        list.push(Control::Button);
        list.push(Control::Checkbox);
        if color_tools {
            list.push(Control::ColorPlane);
            list.push(Control::ColorSlider);
            list.push(Control::ColorSwatch);
        }
        list.push(Control::DisclosureToggle);
        list.push(Control::ListView);
        list.push(Control::Menu);
        list.push(Control::Radio);
        list.push(Control::Scrollbar);
        list.push(Control::Slider);
        list.push(Control::TextInput);
        list.push(Control::ToggleSwitch);
        assert(list@ =~= controls(color_tools));
        list
    }
}

/// A part of the core.
#[derive(Debug, Clone, Copy, PartialEq, Eq, Structural)]
pub enum CorePart {
    Controls,
    CursorIcon,
    PropagateTextColor,
    PropagateTextFont,
    AlphaPattern,
    FocusOutlines,
}

/// Adds themes, cursors and controls.
#[derive(Debug, Clone, Copy, PartialEq, Eq, Structural)]
pub struct FeathersCorePlugin;

/// The parts of the core, in the order in which they are added.
pub open spec fn core_parts(color_tools: bool) -> Seq<CorePart> {
    let patterns = if color_tools {
        seq![CorePart::AlphaPattern]
    } else {
        Seq::empty()
    };
    seq![
        CorePart::Controls,
        CorePart::CursorIcon,
        CorePart::PropagateTextColor,
        CorePart::PropagateTextFont,
    ] + patterns + seq![CorePart::FocusOutlines]
}

impl FeathersCorePlugin {
    /// Lists the parts of the core in the order in which they are added.
    pub fn parts(&self, color_tools: bool) -> (list: Vec<CorePart>)
        ensures
            list@ == core_parts(color_tools),
    {
        let mut list: Vec<CorePart> = Vec::new();
        list.push(CorePart::Controls);
        list.push(CorePart::CursorIcon);
        list.push(CorePart::PropagateTextColor);
        list.push(CorePart::PropagateTextFont);
        if color_tools {
            list.push(CorePart::AlphaPattern);
        }
        list.push(CorePart::FocusOutlines);
        assert(list@ =~= core_parts(color_tools));
        list
    }
}

/// A member of the plugin group.
#[derive(Debug, Clone, Copy, PartialEq, Eq, Structural)]
pub enum FeathersMember {
    TabNavigation,
    Core,
}

/// All that the widgets depend on.
#[derive(Debug, Clone, Copy, PartialEq, Eq, Structural)]
pub struct FeathersPlugins;

impl FeathersPlugins {
    /// Lists the members of the group in the order in which they are added.
    pub fn members(&self) -> (list: Vec<FeathersMember>)
        ensures
            list@ == seq![FeathersMember::TabNavigation, FeathersMember::Core],
    {
        let mut list: Vec<FeathersMember> = Vec::new();
        list.push(FeathersMember::TabNavigation);
        list.push(FeathersMember::Core);
        assert(list@ =~= seq![FeathersMember::TabNavigation, FeathersMember::Core]);
        list
    }
}

/// Gives marked entities the alpha pattern.
#[derive(Debug, Clone, Copy, PartialEq, Eq, Structural)]
pub struct AlphaPatternPlugin;

impl AlphaPatternPlugin {
    /// The material that an entity gets when it is marked.
    pub fn material(&self) -> (tag: UiMaterialTag)
        ensures
            tag.mode == UI_MODE_ALPHA_PATTERN,
            tag.data == (UiMaterialData { variant: 0, fixed_channel: 0 }),
    {
        UiMaterialTag::alpha_pattern()
    }
}

} // verus!
