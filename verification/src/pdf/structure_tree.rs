//! Roles of the structure tree of tagged PDFs.

use vstd::prelude::*;

verus! {

/// The structure type of an element in a tagged PDF's structure tree.
#[derive(Debug, Clone, Copy, PartialEq, Eq, Structural)]
#[non_exhaustive]
pub enum StructRole {
    Document,
    Part,
    Art,
    Sect,
    Div,
    NonStruct,
    Span,
    Private,
    H,
    H1,
    H2,
    H3,
    H4,
    H5,
    H6,
    LI,
    Code,
    Caption,
    BlockQuote,
}

/// Roles that only group other content and say nothing about a line.
pub open spec fn grouping_role(role: StructRole) -> bool {
    match role {
        StructRole::Document | StructRole::Part | StructRole::Art | StructRole::Sect
        | StructRole::Div | StructRole::NonStruct | StructRole::Span | StructRole::Private => true,
        _ => false,
    }
}

} // verus!
