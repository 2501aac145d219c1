//! A verified GLSL preprocessor core.
//!
//! Given an already-decoded shader source, the library tokenizes it into a
//! lossless preprocessor syntax tree, interprets directives (`#define`,
//! `#undef`, `#ifdef`, `#ifndef`, `#else`, `#endif`, `#version`,
//! `#extension`, `#error`, `#include`, `#line`), expands macros with the
//! painted-identifier rule, and produces an ordered stream of events
//! (tokens, directive records, errors, file-boundary markers).

use vstd::prelude::*;

pub mod cst;
pub mod defs;
pub mod directive;
pub mod events;
pub mod expand;
pub mod exts;
pub mod lex;
pub mod mask;
pub mod parse;
pub mod processor;

verus! {

/// An opaque non-zero integer uniquely identifying a source file within one
/// processor run.
#[derive(Clone, Copy, Debug, PartialEq, Eq, Structural)]
pub struct FileId {
    pub id: u32,
}

impl FileId {
    /// A file id is valid when it is non-zero.
    pub open spec fn wf(self) -> bool {
        self.id >= 1
    }

    pub fn new(id: u32) -> (r: FileId)
        requires
            id >= 1,
        ensures
            r.id == id,
            r.wf(),
    {
        FileId { id }
    }
}

} // verus!
