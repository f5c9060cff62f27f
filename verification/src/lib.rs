//! A sphere-tracing renderer over exact fixed-point arithmetic.
//!
//! The scene is a single sphere described by a signed distance field.  Every
//! quantity is an integer number of fixed-point units of 1e-6, so each stage
//! of the pipeline — vector algebra, the distance field, the per-pixel camera
//! rays, the marching loop, and the diffuse shader — is specified exactly and
//! verified against that specification.  Terminal output and frame pacing are
//! left to the caller: the renderer turns a configuration and a light
//! direction into a grid of palette cells and nothing else.

pub mod fix;
pub mod render;
pub mod scene;
pub mod shade;
pub mod vec3;
