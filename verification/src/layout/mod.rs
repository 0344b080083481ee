//! The layer resolution pipeline: actions, layers, templates and the layout
//! assembler.

pub mod action;
pub mod assemble;
pub mod closure;
pub mod coverage;
pub mod layer;
pub mod layers;
pub mod minimal;
pub mod prepare;
pub mod preprocess;
pub mod template;
pub mod unicode;
pub mod unwrap;

pub use action::{Action, ActionV};
pub use assemble::{Layout, LayoutV, Resources};
pub use layer::{Keymap, Layer, LayerV, Override};
pub use unicode::{Keymaps, UnicodeTable};
