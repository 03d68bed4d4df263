//! Behaviour of the widgets: themes, styles, cursors, number inputs and colour
//! pickers.

pub mod theme;
pub mod cursor;
pub mod styles;
pub mod style_laws;
pub mod number_input;
pub mod input_laws;
pub mod color_plane;
pub mod plugins;
