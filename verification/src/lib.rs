//! UI painting, glyph and icon bookkeeping, GPU draw planning and shader-side
//! control logic, with every rule stated as a contract and proved.
//!
//! Real numbers never appear here: a single-precision value is carried as its
//! bit pattern (see [`float_bits`]) and only compared, never computed with.

pub mod abi;
pub mod bits;
pub mod bridge;
pub mod camera;
pub mod float_bits;
pub mod font_file;
pub mod frame_laws;
pub mod glyph_laws;
pub mod glyphs;
pub mod gradient;
pub mod icons;
pub mod material;
pub mod module_laws;
pub mod paint;
pub mod paint_batches;
pub mod paint_flags;
pub mod paint_item_laws;
pub mod paint_items;
pub mod paint_laws;
pub mod paint_list_laws;
pub mod paint_text_laws;
pub mod painter_order;
pub mod pass;
pub mod segments;
pub mod shading;
pub mod spirv;
pub mod srgb;
pub mod stack_z_offsets;
pub mod value_laws;
pub mod widgets;
