//! The error taxonomy of the library.
//!
//! Every failure is a deterministic function of the input being processed
//! and carries enough context — a source file path, a template id, an
//! argument name — to diagnose it without re-running.

use vstd::prelude::*;

verus! {

/// A failure while rendering a template.
#[derive(Debug)]
pub enum RenderError {
    /// No template with the requested id is in the store.
    TemplateNotFound(String),
    /// A `val` placeholder named an argument that the context does not hold.
    ArgumentNotFound(String),
    /// A placeholder called a function outside the closed set, or called
    /// one with too few arguments.
    UnrecognizedFunction(String),
    /// A chain of `layout` inclusions exceeded the recursion bound.
    RecursionTooDeep,
}

/// The mathematical value of a [`RenderError`].
pub enum RenderErrorRep {
    TemplateNotFound(Seq<char>),
    ArgumentNotFound(Seq<char>),
    UnrecognizedFunction(Seq<char>),
    RecursionTooDeep,
}

impl View for RenderError {
    type V = RenderErrorRep;

    open spec fn view(&self) -> RenderErrorRep {
        match self {
            RenderError::TemplateNotFound(n) => RenderErrorRep::TemplateNotFound(n@),
            RenderError::ArgumentNotFound(n) => RenderErrorRep::ArgumentNotFound(n@),
            RenderError::UnrecognizedFunction(n) => RenderErrorRep::UnrecognizedFunction(n@),
            RenderError::RecursionTooDeep => RenderErrorRep::RecursionTooDeep,
        }
    }
}

impl DeepView for RenderError {
    type V = RenderErrorRep;

    open spec fn deep_view(&self) -> RenderErrorRep {
        self.view()
    }
}

/// A failure while extracting a frontmatter region from an event stream:
/// the region's delimiters are misplaced or an entry has no colon.
#[derive(Debug)]
pub enum FrontmatterError {
    Malformed,
}

/// A failure while building a document from a markdown source file.
#[derive(Debug)]
pub enum DocError {
    /// A required frontmatter key is absent.
    MissingFrontmatterField { path: String, key: String },
    /// The frontmatter region is malformed: a bad delimiter, an entry
    /// without a colon, or an unparseable publish date.
    MalformedFrontmatter { path: String },
    /// The syntax highlighter failed on a code block.
    HighlightFailed { message: String },
}

/// The mathematical value of a [`DocError`].
pub enum DocErrorRep {
    MissingFrontmatterField { path: Seq<char>, key: Seq<char> },
    MalformedFrontmatter { path: Seq<char> },
    HighlightFailed { message: Seq<char> },
}

impl View for DocError {
    type V = DocErrorRep;

    open spec fn view(&self) -> DocErrorRep {
        match self {
            DocError::MissingFrontmatterField { path, key } => {
                DocErrorRep::MissingFrontmatterField { path: path@, key: key@ }
            },
            DocError::MalformedFrontmatter { path } => {
                DocErrorRep::MalformedFrontmatter { path: path@ }
            },
            DocError::HighlightFailed { message } => {
                DocErrorRep::HighlightFailed { message: message@ }
            },
        }
    }
}

impl DeepView for DocError {
    type V = DocErrorRep;

    open spec fn deep_view(&self) -> DocErrorRep {
        self.view()
    }
}

/// A plain error message, the failure value of the legacy placeholder
/// engine.
#[derive(Debug)]
pub struct ErrMsg(pub String);

impl View for ErrMsg {
    type V = Seq<char>;

    open spec fn view(&self) -> Seq<char> {
        self.0@
    }
}

} // verus!
