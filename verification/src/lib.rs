//! A compiler for a keyboard-layout definition language: an S-expression
//! reader, a template preprocessor, the layer resolution pipeline, the layer
//! dependency sort, and two back-ends that lower the resolved layers to a
//! remapper configuration text and to a firmware programming plan.

pub mod error;
pub mod keys;
pub mod layout;
pub mod parser;
pub mod reread;
pub mod sexpr;
pub mod text;
pub mod transform;

pub use error::Error;
pub use keys::{Key, KeyIndex};
