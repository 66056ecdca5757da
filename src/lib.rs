//! A terminal ray tracer's verified core: integer vector algebra, the
//! reflection-sampling schedule of a trace, the renderer's work partition and
//! frame assembly, and the readers for mesh text and keyboard input.
pub mod color;
pub mod input;
pub mod mesh_text;
pub mod recent;
pub mod render;
pub mod sampler;
pub mod trace_stats;
pub mod vector;
pub mod view_mode;
