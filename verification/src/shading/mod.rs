//! Control logic of the shaders: selection, traversal, binning and dispatch
//! decisions, with the arithmetic on real numbers left to the shaders.

pub mod local_shadow;
pub mod local_shadow_laws;
pub mod mesh_nodes;
pub mod mesh_traversal;
pub mod world_traversal;
pub mod traversal_laws;
pub mod scan;
pub mod segment_clip;
pub mod reduce;
pub mod extinction;
pub mod fog;
pub mod volume_laws;
pub mod clusters;
pub mod linework;
pub mod local_light;
pub mod surface_laws;
pub mod particles;
pub mod particle_laws;
pub mod glyph_coverage;
pub mod quads;
pub mod outline;
pub mod gizmos;
pub mod post;
