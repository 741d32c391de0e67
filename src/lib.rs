//! Text encoding of images in the plain-text portable pixmap format, and the
//! raster order in which a renderer visits their pixels.
pub mod ppm;
pub mod raster;
