use vstd::prelude::*;

verus! {

/// Every way a discovery request can fail.
#[derive(Debug, PartialEq, Eq)]
pub enum DiscoverError {
    /// The offending argument (or its key) and what was expected of it.
    MalformedArgument(String, String),
    DuplicateArgument(String),
    UnexpectedArgument(String),
    MissingArgument(String),
    /// The provider's API could not be queried; the detail is kept verbatim.
    ProviderRequestFailed(String),
    UnsupportedProvider(String),
}

/// The mathematical model of a [`DiscoverError`]: each text as a character sequence.
pub enum DiscoverErrorView {
    MalformedArgument(Seq<char>, Seq<char>),
    DuplicateArgument(Seq<char>),
    UnexpectedArgument(Seq<char>),
    MissingArgument(Seq<char>),
    ProviderRequestFailed(Seq<char>),
    UnsupportedProvider(Seq<char>),
}

impl View for DiscoverError {
    type V = DiscoverErrorView;

    open spec fn view(&self) -> DiscoverErrorView {
        match self {
            DiscoverError::MalformedArgument(a, m) => DiscoverErrorView::MalformedArgument(a@, m@),
            DiscoverError::DuplicateArgument(k) => DiscoverErrorView::DuplicateArgument(k@),
            DiscoverError::UnexpectedArgument(k) => DiscoverErrorView::UnexpectedArgument(k@),
            DiscoverError::MissingArgument(k) => DiscoverErrorView::MissingArgument(k@),
            DiscoverError::ProviderRequestFailed(d) => DiscoverErrorView::ProviderRequestFailed(d@),
            DiscoverError::UnsupportedProvider(p) => DiscoverErrorView::UnsupportedProvider(p@),
        }
    }
}

} // verus!
