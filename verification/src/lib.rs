pub mod style;
pub mod layout;
pub mod unicode;
pub mod buffer;
pub mod flex_layout;
pub mod text;
pub mod symbols;
pub mod widgets;
pub mod viewport;
pub mod error;
pub mod backend;
