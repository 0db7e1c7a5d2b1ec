//! A small compiler for a declarative UI block language.
//!
//! Source text arrives as a stream of tokens describing one nested block
//! (a component-type name and a braced body of property assignments and
//! child blocks). The library parses that stream into an abstract syntax
//! tree, analyzes property values for reads of reactive signal variables,
//! generates the equivalent component tree with densely assigned pre-order
//! identifiers, and serializes the resulting versioned document to JSON
//! text that round-trips losslessly back into the same document.

pub mod codec;
pub mod codegen;
pub mod color;
pub mod dimension;
pub mod ir;
pub mod json;
pub mod num;
pub mod parser;
pub mod reactive;
pub mod signal;
pub mod strutil;

pub use color::Color;
pub use dimension::Dimension;
pub use ir::{Alignment, AlignmentValue, ComponentType, IRComponent, IRDocument, Logic, ReactiveManifest};
pub use signal::{signal, Computed, Signal};
