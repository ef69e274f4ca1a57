//! A terminal e-book reader: chapter markup rendered to styled, wrapped lines, paged in a
//! viewport, and driven by a state machine over key and resize events.

pub mod text;
pub mod wrap;
pub mod styler;
pub mod html;
pub mod config;
pub mod misc;
pub mod term;
pub mod pager;
pub mod papcio;
pub mod manifest;
