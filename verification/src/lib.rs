//! A small 2D drawing library for a memory-mapped dot-matrix display:
//! pixel addressing over two double-buffered layers, point/line/rect
//! primitives, fixed-point alpha blending, and a two-pass proportional
//! text layout engine with alignment, wrapping and vertical truncation.

pub mod color;
pub mod font;
pub mod lcd;
pub mod primitives;
pub mod text;

pub use color::Color;
pub use font::Error;
pub use font::FixedFont;
pub use font::Font;
pub use font::FontProvider;
pub use font::GlyphRaster;
pub use lcd::Layer;
pub use lcd::Lcd;
pub use primitives::Anchor;
pub use primitives::Line;
pub use primitives::Point;
pub use primitives::Rect;
pub use text::Alignment;
pub use text::RelPixel;
pub use text::TextBox;
