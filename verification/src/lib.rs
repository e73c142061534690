//! Verified core of a CPU ray tracer that renders animated scenes to numbered
//! PNG frames: nearest-hit selection and bounce control for traced rays, the
//! checkerboard floor rule, the layout of the race-track path, the row-major
//! RGB frame buffer, and the zero-padded frame file names.

pub mod naming;
pub mod trace;
pub mod framebuf;
pub mod track;
