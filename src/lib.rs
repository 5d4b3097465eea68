//! Workspace-scoped file access: every path a caller supplies is joined to a
//! replaceable workspace root, normalised, and refused unless it stays inside
//! that root; directory listings are rendered and ordered here as well.

pub mod laws;
pub mod listing;
pub mod path;
pub mod text;
pub mod workspace;
