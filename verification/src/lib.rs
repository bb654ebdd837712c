//! An edge-preserving smoothing filter for raster images: the Kuwahara
//! filter. For each output pixel it examines four overlapping rectangular
//! neighborhoods anchored around that pixel, picks the one with the lowest
//! color variance, and replaces the pixel with that neighborhood's mean
//! color.

pub mod error;
pub mod filter;
pub mod iter;
pub mod raster;
pub mod stats;

pub use error::Error;
pub use filter::kuwahara;
pub use iter::ImageIterator;
pub use raster::Image;
pub use stats::WindowEntry;
