//! The binary back-end: lowers resolved layers to what the firmware is
//! programmed with.

pub mod actions;
pub mod keycode;
pub mod overrides;
pub mod pools;
pub mod program;

pub use actions::{Macro, MacroAction, TapDance, VialAction};
pub use keycode::Keycode;
pub use overrides::{KeyOverride, Override};
pub use pools::Vial;
pub use program::{LayerPlan, Plan};
