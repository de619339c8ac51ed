//! Resource identity and frame sequencing for a real-time renderer.
//!
//! Every texture a scene refers to, whether an asset path or a constant
//! placeholder colour, is loaded and registered with the renderer exactly
//! once, and every material map slot ends up holding the renderer's bindless
//! handle for it. The crate holds the decisions only: reading files, talking
//! to the GPU and polling the window are left to the caller, who performs the
//! actions the state machines here ask for and hands the results back.

pub mod frame_loop;
pub mod handle_table;
pub mod image;
pub mod image_cache;
pub mod input;
pub mod mesh;
pub mod resolver;
pub mod sequences;
