//! Resolves which font files on disk satisfy the font names referenced by a
//! batch of subtitle files, and tracks a registry of activated fonts.
//!
//! The library owns the logic: classifying paths, parsing font binaries for
//! their declared names, parsing ASS/SSA subtitle text for referenced names,
//! building a modification-time-cached name index, and reconciling required
//! names against that index while keeping the loaded-font registry exact.
//! Platform work (reading files, activating fonts, the interactive shell)
//! happens outside and enters here as plain values.

pub mod cache;
pub mod classify;
pub mod numfmt;
pub mod ext;
pub mod fswalk;
pub mod laws;
pub mod fontbin;
pub mod registry;
pub mod scheduler;
pub mod subtitle;
pub mod text;
pub mod utf16;
