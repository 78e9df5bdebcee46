//! A minimal terminal rendering toolkit: a grid of colored character cells
//! with drawing primitives, an ANSI escape-sequence serializer, and the
//! decision logic of a raw terminal input controller.

pub mod color;
pub mod gui;
pub mod line;
pub mod render;
pub mod term;

pub use color::Color;
pub use gui::Gui;
pub use term::Term;
pub use term::TermError;
