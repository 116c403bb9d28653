//! Discovery and rendering of user-authored prompt files.
//!
//! A prompt is a Markdown file whose leading block may carry metadata. The
//! crate extracts that metadata, merges the prompts of a global and a
//! project-local source under a precedence rule, and renders a prompt body
//! against positional or named arguments.
//!
//! Every function is pure: callers list directories and read files, and hand
//! the library what they found.

pub mod custom_prompts;
pub mod front_matter;
pub mod merge;
pub mod name_order;
pub mod paths;
pub mod protocol;
pub mod sorting;
pub mod template_processor;
pub mod text;
