//! Assembler front-end for a small pedagogical CISC architecture.
//!
//! The crate covers the textual pipeline that turns assembly source into a
//! fully resolved memory image description:
//!
//! * a preprocessor with object-like definitions, conditional blocks and
//!   file inclusion (with cycle detection),
//! * a grammar for program lines, instructions, directives and the
//!   constant-expression sub-language,
//! * a layout engine that walks a parsed program with a monotone address
//!   cursor and produces a label table plus an address-to-cell map.
//!
//! Every data structure is modelled by spec-level views, and the executable
//! functions carry contracts that pin their results down against those views.

use vstd::prelude::*;

pub mod location;
pub mod strings;
pub mod literal;
pub mod expression;
pub mod line;
pub mod layout;
pub mod render;
pub mod preprocessor;
pub mod layout_laws;
