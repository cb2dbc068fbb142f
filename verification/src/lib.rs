//! Decorated shapes: a geometric primitive paired with a cascading set of
//! presentation attributes, rendered into an element description at a
//! translation offset.

pub mod attribute;
pub mod decimal;
pub mod element;
pub mod entries;
pub mod geometry;
pub mod shape;
pub mod style;

pub use crate::attribute::AttributeField;
pub use crate::element::Element;
pub use crate::geometry::{CircleProps, PathProps};
pub use crate::shape::{Shape, SubShape};
pub use crate::style::ShapeStyle;
