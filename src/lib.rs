//! Integer core of a Monte-Carlo ray tracer: the image raster and its
//! row-major pixel order, the plain-text (P3) image encoding, and the
//! depth-bounded termination model that decides how far a traced path goes.

pub mod raster;
pub mod ppm;
pub mod image;
pub mod path;
pub mod render;
