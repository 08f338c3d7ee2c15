use vstd::prelude::*;

verus! {

/// Rendering options.
pub struct Config {
    /// Spaces per nesting level.
    pub ident: usize,
}

impl Config {
    pub fn new(ident: usize) -> (r: Config)
        ensures
            r.ident == ident,
    {
        Config { ident }
    }
}

impl Default for Config {
    /// Four spaces per nesting level.
    fn default() -> (r: Config)
        ensures
            r.ident == 4,
    {
        Config { ident: 4 }
    }
}

} // verus!
