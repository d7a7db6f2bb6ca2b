//! A verified builder for single-page Encapsulated PostScript (EPS) documents.
//!
//! Geometry is held in signed fixed-point coordinates (ten-thousandths of a
//! unit), so every computation — bounding boxes, whole-document transforms,
//! canvas padding, stroke width, and the final text of the EPS stream — is
//! exact integer arithmetic with a proved contract.
//!
//! A document is an ordered sequence of shapes. Emission order is
//! significant: the color directive `SetRGB` changes the PostScript color
//! state for every shape emitted after it.

pub mod bounds;
pub mod document;
pub mod fixed;
pub mod position;
pub mod shape;

pub use bounds::Bounds;
pub use document::EpsDocument;
pub use position::Position;
pub use position::Vec2;
pub use shape::Shape;
