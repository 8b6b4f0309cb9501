//! Hex-grid geometry and token-icon compositing for a tabletop battle-map editor.
//!
//! `canvas` is an RGBA pixel buffer; `viewport`, `mask` and `icon` turn a framed portrait into
//! a hexagonal, bordered token icon; `grid` and `outline` lay out and rasterise a hexagon grid;
//! `cache` decides when a rendered grid can be reused; `chapter`, `ids` and `records` hold the
//! naming and merging rules of the chapter and entity records.

pub mod cache;
pub mod canvas;
pub mod chapter;
pub mod grid;
pub mod icon;
pub mod ids;
pub mod mask;
pub mod outline;
pub mod records;
pub mod text;
pub mod viewport;
