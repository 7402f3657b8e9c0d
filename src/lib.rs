use vstd::prelude::*;

pub mod alto;
pub mod calibrate;
pub mod engine;
pub mod geometry;
pub mod grid;
pub mod matrix;
pub mod placement;
pub mod raster;
pub mod regions;
pub mod report;
pub mod selection;
pub mod session;
pub mod text;

pub use engine::{CharacterMatrixEngine, ExtractionError};
pub use geometry::{CharBBox, PDFBBox};
pub use grid::MatrixGrid;
pub use matrix::CharacterMatrix;
pub use raster::{PageText, PreciseTextObject, TextSegment};
pub use regions::TextRegion;
pub use selection::MatrixSelection;
pub use session::ExtractionSession;

verus! {

} // verus!
