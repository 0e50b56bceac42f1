pub mod address;
pub mod buffer;
pub mod editor;
pub mod laws;
pub mod output;
pub mod pattern;
pub mod subst;
