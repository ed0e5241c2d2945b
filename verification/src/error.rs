//! The error type shared by every fallible operation.

use vstd::prelude::*;

verus! {

/// Result of a layout operation.
pub type LayoutResult<T> = Result<T, LayoutError>;

/// What went wrong in a layout operation.
#[derive(Debug, Clone, PartialEq, Eq)]
pub enum LayoutError {
    /// A failure described by its message.
    Message(String),
    /// A failure while exporting to a foreign format.
    Export,
    /// A failure that has no category yet.
    Tbd,
}

/// A [`LayoutError`] as a value.
pub enum ErrView {
    Message(Seq<char>),
    Export,
    Tbd,
}

impl View for LayoutError {
    type V = ErrView;

    open spec fn view(&self) -> ErrView {
        match self {
            LayoutError::Message(s) => ErrView::Message(s@),
            LayoutError::Export => ErrView::Export,
            LayoutError::Tbd => ErrView::Tbd,
        }
    }
}

/// The error whose message is `text`.
pub open spec fn failure(text: Seq<char>) -> ErrView {
    ErrView::Message(text)
}

/// A result as a value.
pub open spec fn outcome<T: View>(r: LayoutResult<T>) -> Result<T::V, ErrView> {
    match r {
        Ok(t) => Ok(t@),
        Err(e) => Err(e@),
    }
}

impl LayoutError {
    /// A `Message` error carrying a copy of `s`.
    pub fn msg(s: &str) -> (r: LayoutError)
        ensures
            r@ == failure(s@),
    {
        LayoutError::Message(s.to_string())
    }

    /// The text of a `Message` error; a fixed word for the other variants.
    pub fn describe(&self) -> (r: String)
        ensures
            self matches LayoutError::Message(s) ==> r@ == s@,
            self is Export ==> r@ == "Export"@,
            self is Tbd ==> r@ == "Tbd"@,
    {
        match self {
            LayoutError::Message(s) => s.clone(),
            LayoutError::Export => "Export".to_string(),
            LayoutError::Tbd => "Tbd".to_string(),
        }
    }
}

} // verus!
