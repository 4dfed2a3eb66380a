use vstd::prelude::*;

verus! {

/// What a highlighted span of text is.
#[derive(Debug, Clone, Copy, PartialEq, Eq, Structural)]
pub enum AnnotationKind {
    Noun,
    Verb,
    Pronoun,
    Adverb,
    Adjective,
    Person,
    Location,
    Organization,
}

/// A highlighted byte range `[start_offset, end_offset)` of the book text.
#[derive(Debug, Clone, Copy, PartialEq, Eq, Structural)]
pub struct Annotation {
    pub start_offset: u64,
    pub end_offset: u64,
    pub kind: AnnotationKind,
}

} // verus!
