pub mod colors;
pub mod dataset;
pub mod errors;
pub mod painter;
