//! Extraction, demangling and filtering of functions in textual assembly.
//!
//! A single pass over the lines of an assembly listing keeps the bodies of
//! the functions that a [`filter::FilterCriteria`] accepts, replaces each
//! function label by its demangled name, and rewrites the targets of call
//! instructions into their demangled form.

pub mod text;
pub mod demangle;
pub mod filter;
pub mod line;
pub mod machine;
