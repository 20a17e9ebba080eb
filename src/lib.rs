pub mod algebra;
pub mod dimension;
pub mod fractal;
pub mod image_format;
pub mod layout;
pub mod matrix;
pub mod scalar;
pub mod transform;
