//! Diagnostics of a failed read.
use vstd::prelude::*;

verus! {

/// Why a document could not be read. Each names the offending field or tag.
#[derive(Debug, PartialEq)]
pub enum ParseError {
    /// A required attribute is absent.
    MissingAttribute { field: String },
    /// An attribute is present but its text is not a value of the expected kind.
    InvalidValue { field: String, raw: String, expected: String },
    /// A required child element is absent.
    MissingElement { tag: String },
    /// A child element that may appear at most once appeared again.
    DuplicateElement { tag: String },
    /// An element that takes no children has one.
    UnexpectedChildElement { tag: String },
    /// The event stream ended inside an element, or held no root element.
    UnexpectedEnd,
    /// The markup below the event stream was malformed.
    Markup { message: String },
}

/// What a diagnostic holds, as mathematical values.
pub enum ParseErrorView {
    MissingAttribute { field: Seq<char> },
    InvalidValue { field: Seq<char>, raw: Seq<char>, expected: Seq<char> },
    MissingElement { tag: Seq<char> },
    DuplicateElement { tag: Seq<char> },
    UnexpectedChildElement { tag: Seq<char> },
    UnexpectedEnd,
    Markup { message: Seq<char> },
}

impl View for ParseError {
    type V = ParseErrorView;

    open spec fn view(&self) -> ParseErrorView {
        match self {
            ParseError::MissingAttribute { field } => ParseErrorView::MissingAttribute {
                field: field@,
            },
            ParseError::InvalidValue { field, raw, expected } => ParseErrorView::InvalidValue {
                field: field@,
                raw: raw@,
                expected: expected@,
            },
            ParseError::MissingElement { tag } => ParseErrorView::MissingElement { tag: tag@ },
            ParseError::DuplicateElement { tag } => ParseErrorView::DuplicateElement { tag: tag@ },
            ParseError::UnexpectedChildElement { tag } => ParseErrorView::UnexpectedChildElement {
                tag: tag@,
            },
            ParseError::UnexpectedEnd => ParseErrorView::UnexpectedEnd,
            ParseError::Markup { message } => ParseErrorView::Markup { message: message@ },
        }
    }
}

} // verus!
