//! Selection, cropping and text-recognition orchestration for a screen
//! capture OCR tool: the geometry of the selection, the pointer state
//! machine, pixel cropping and binarisation, the parser for the OCR engine's
//! tabular output, the grouping of words into lines, the socket framing of the
//! remote OCR service and the single-job bridge between background recognition
//! work and the rendering loop.

pub mod geometry;
pub mod text;
pub mod engine;
pub mod lines;
pub mod selection;
pub mod raster;
pub mod paddle;
pub mod bridge;
pub mod vision;
pub mod session;

pub use geometry::{Point, Rect};
