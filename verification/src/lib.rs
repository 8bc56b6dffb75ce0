//! Headless core of an annotation / overlay editor.
//!
//! The library keeps a document of freehand strokes and parametric shapes,
//! resolves connector arrows against obstacle geometry, supports undo/redo,
//! eraser-style hit testing, and versioned JSON persistence.
//!
//! All geometric scalars are IEEE-754 binary32 values carried as their raw
//! bit patterns (`u32`), so that the verified code never touches a
//! floating-point type; the handful of primitive rounding operations are
//! performed by a software float implementation behind trusted wrappers
//! (see `scalar`).

pub mod geometry;
pub mod hittest;
pub mod json;
pub mod model;
pub mod render;
pub mod scalar;
pub mod store;

pub use model::{ColorRgba8, Item, Point, Shape, ShapeKind, ShapeStyle, Stroke, TextAlignH,
    TextAlignV};
pub use render::{ArrowPath, ArrowRender};
pub use store::{Document, Store, StoreError};
