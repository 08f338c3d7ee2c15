use vstd::prelude::*;

verus! {

/// The role of a node in the parsed tree.
#[derive(Debug, Clone, Copy, PartialEq, Eq, Structural)]
pub enum NodeKind {
    /// A paired `<x>...</x>` tag.
    Tag,
    /// A self-closing `<x />` tag.
    SoloTag,
    /// `<!-- ... -->`
    CommentTag,
    /// `<!doctype ...>`
    DoctypeTag,
    /// One `key="value"` attribute.
    Parameter,
    /// The attribute list of a tag.
    Parameters,
    Identifier,
    VString,
    Text,
}

} // verus!
