//! Parsing of CSS gradient values and the colour and archive logic of a
//! Discord theme editor.

pub mod text;
pub mod css_gradients;
pub mod theme;
pub mod archive;
