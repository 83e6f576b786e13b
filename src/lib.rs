pub mod codec;
pub mod palette;
pub mod pixel;
pub mod raster;
