//! A miniature document-rendering pipeline: parse a small markup language
//! (`content_tree`) and a companion stylesheet language (`style`), resolve
//! the cascade into a style tree (`style_tree`), compute a box-model layout
//! in character-cell units (`layout`), and paint the laid-out boxes onto a
//! character grid (`display`).
//!
//! Every stage is specified against a mathematical model: the parsers against
//! spec-level grammars over character sequences, the cascade against a
//! per-property winner function, layout against an exact integer-geometry
//! recursion, and painting against a cell-by-cell description of the grid.
pub mod chars;
pub mod content_tree;
pub mod display;
pub mod layout;
pub mod style;
pub mod style_tree;
