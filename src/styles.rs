use vstd::prelude::*;

verus! {

/// Why the stylesheet could not be compiled.
#[derive(Debug)]
pub struct SassCompileError(pub String);

/// The compiled stylesheet, if there is one.
#[derive(Debug)]
pub enum Styles {
    NotProcessed,
    StyleError(SassCompileError),
    Styles(String),
}

/// The stylesheet text of `s`, if it holds one.
pub open spec fn style_text(s: Styles) -> Option<String> {
    match s {
        Styles::Styles(v) => Some(v),
        _ => None,
    }
}

impl Default for Styles {
    fn default() -> (r: Styles)
        ensures
            r is NotProcessed,
    {
        Styles::NotProcessed
    }
}

impl Styles {
    /// The stylesheet text, if there is one.
    pub fn as_option(&self) -> (r: Option<String>)
        ensures
            r == style_text(*self),
    {
        match self {
            Styles::Styles(v) => Some(v.clone()),
            _ => None,
        }
    }
}

impl From<Result<String, SassCompileError>> for Styles {
    fn from(result: Result<String, SassCompileError>) -> (r: Styles) {
        match result {
            Ok(v) => Styles::Styles(v),
            Err(e) => Styles::StyleError(e),
        }
    }
}

impl vstd::std_specs::convert::FromSpecImpl<Result<String, SassCompileError>> for Styles {
    open spec fn obeys_from_spec() -> bool {
        true
    }

    open spec fn from_spec(result: Result<String, SassCompileError>) -> Styles {
        match result {
            Ok(v) => Styles::Styles(v),
            Err(e) => Styles::StyleError(e),
        }
    }
}

} // verus!
