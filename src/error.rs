//! What can go wrong while reading a session description or an `extmap`
//! attribute.

use vstd::prelude::*;

verus! {

/// Why a parse failed. Each variant that carries text carries the piece of the
/// input that was rejected.
#[derive(Debug, Clone, PartialEq, Eq)]
pub enum Error {
    /// The input bytes are not UTF-8.
    Utf8,
    /// A field key that the grammar does not accept at this point (empty at the
    /// end of the input); carries the raw key, `=` included.
    SdpUnexpectedKey(String),
    /// A line without `=`, or a value with too few tokens; carries the line.
    SdpInvalidSyntax(String),
    /// A token that is well formed but not allowed: an unregistered name, a
    /// number out of range, an overflow in a unit expansion.
    SdpInvalidValue(String),
    /// A token that should be an integer and is not (or does not fit).
    ParseInt(String),
    /// A repeat time with no time description to attach to.
    SdpEmptyTimeDescription,
    /// A media-level field with no media description to attach to.
    SdpEmptyMediaDescription,
    /// An `extmap` attribute whose shape is wrong; carries the line.
    ParseExtMap(String),
    /// An `extmap` direction that is not one of the four known ones.
    UnknownDirection(String),
    /// A `u=` value that is not a URL.
    Url(String),
}

/// [`Error`] with its text as characters.
pub enum ErrorView {
    Utf8,
    SdpUnexpectedKey(Seq<char>),
    SdpInvalidSyntax(Seq<char>),
    SdpInvalidValue(Seq<char>),
    ParseInt(Seq<char>),
    SdpEmptyTimeDescription,
    SdpEmptyMediaDescription,
    ParseExtMap(Seq<char>),
    UnknownDirection(Seq<char>),
    Url(Seq<char>),
}

impl View for Error {
    type V = ErrorView;

    open spec fn view(&self) -> ErrorView {
        match self {
            Error::Utf8 => ErrorView::Utf8,
            Error::SdpUnexpectedKey(s) => ErrorView::SdpUnexpectedKey(s@),
            Error::SdpInvalidSyntax(s) => ErrorView::SdpInvalidSyntax(s@),
            Error::SdpInvalidValue(s) => ErrorView::SdpInvalidValue(s@),
            Error::ParseInt(s) => ErrorView::ParseInt(s@),
            Error::SdpEmptyTimeDescription => ErrorView::SdpEmptyTimeDescription,
            Error::SdpEmptyMediaDescription => ErrorView::SdpEmptyMediaDescription,
            Error::ParseExtMap(s) => ErrorView::ParseExtMap(s@),
            Error::UnknownDirection(s) => ErrorView::UnknownDirection(s@),
            Error::Url(s) => ErrorView::Url(s@),
        }
    }
}

} // verus!
