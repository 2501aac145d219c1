//! Options for the downstream parsing stage, and the trait its parsers
//! implement.

use vstd::prelude::*;

verus! {

/// The set of identifiers the downstream parser treats as type names.
#[derive(Debug)]
pub struct TypeNames {
    pub names: Vec<Vec<char>>,
}

impl Default for TypeNames {
    fn default() -> (r: Self)
        ensures
            r.names@.len() == 0,
    {
        TypeNames { names: Vec::new() }
    }
}

/// Comments collected while parsing, in source order.
#[derive(Debug)]
pub struct Comments {
    pub texts: Vec<Vec<char>>,
}

impl Default for Comments {
    fn default() -> (r: Self)
        ensures
            r.texts@.len() == 0,
    {
        Comments { texts: Vec::new() }
    }
}

/// Options controlling a parse.
#[derive(Debug)]
pub struct ParseOptions {
    pub target_vulkan: bool,
    pub source_id: usize,
    pub allow_rs_ident: bool,
    pub type_names: TypeNames,
    pub comments: Option<Comments>,
}

impl Default for ParseOptions {
    fn default() -> (r: Self)
        ensures
            !r.target_vulkan,
            r.source_id == 0,
            !r.allow_rs_ident,
            r.type_names.names@.len() == 0,
            (r.comments matches Option::None),
    {
        ParseOptions {
            target_vulkan: false,
            source_id: 0,
            allow_rs_ident: false,
            type_names: TypeNames::default(),
            comments: Option::None,
        }
    }
}

impl ParseOptions {
    /// The default options: no Vulkan targeting, source number zero, no
    /// comment collection.
    pub fn new() -> (r: Self)
        ensures
            !r.target_vulkan,
            r.source_id == 0,
            !r.allow_rs_ident,
            r.type_names.names@.len() == 0,
            (r.comments matches Option::None),
    {
        ParseOptions::default()
    }

    /// The default options, with comment collection turned on.
    pub fn with_comments() -> (r: Self)
        ensures
            !r.target_vulkan,
            r.source_id == 0,
            !r.allow_rs_ident,
            r.type_names.names@.len() == 0,
            (r.comments matches Option::Some(c) && c.texts@.len() == 0),
    {
        ParseOptions {
            comments: Option::Some(Comments::default()),
            target_vulkan: false,
            source_id: 0,
            allow_rs_ident: false,
            type_names: TypeNames::default(),
        }
    }
}

/// A parser for one grammar of the language, constructed once and reused.
pub trait LangParser: Sized {
    fn new() -> Self;
}

} // verus!
