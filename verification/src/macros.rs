//! Macros in prompt text.

pub mod effects;
pub mod evaluate;
pub mod laws;
pub mod render;
pub mod replies;
pub mod shorthand_laws;
pub mod syntax;
pub mod tag_laws;
pub mod text_laws;
