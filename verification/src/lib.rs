//! A character/color grid painting core: the colored-glyph canvas, its
//! mutation operations, a bounded undo history, and serialization to a
//! bitmap and to a tab-delimited project text format.

pub mod bitmap;
pub mod canvas;
pub mod codec;
pub mod color;
pub mod picker;
pub mod grid;
pub mod history;

pub use bitmap::Bitmap;
pub use canvas::Brush;
pub use canvas::CanvasView;
pub use canvas::PointerPhase;
pub use canvas::Tool;
pub use codec::FormatError;
pub use grid::Board;
pub use grid::Cell;
pub use grid::Rgb;
pub use picker::PickView;
