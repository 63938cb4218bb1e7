//! Core of a minimal static-site generator.
//!
//! The library holds the pure logic of the pipeline: deciding which files of
//! the content tree are markup, mapping each markup file to its mirrored
//! output path, turning markup text into HTML pages, and resolving a
//! requested route name against the built output tree.  All file-system and
//! network work stays outside, in thin callers that hand plain values in and
//! take plain values back.

pub mod builder;
pub mod paths;
pub mod resolver;
pub mod scaffold;
pub mod transform;
