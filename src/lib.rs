//! A live dashboard over log documents: the document model, the projection of
//! its first row, the shared store that holds both, the text that the display
//! shows, and the quit decision of the input loop.

pub mod json;
pub mod document;
pub mod projection;
pub mod store;
pub mod render;
pub mod control;
