//! Why a chunk was not loaded.

use crate::cache::{decimal, push_decimal};
use vstd::prelude::*;
use vstd::string::StringExecFns;

verus! {

/// The ways in which the load of a chunk ends without features.
#[derive(Debug, PartialEq, Eq)]
pub enum LoadError {
    /// The chunk is loaded or being loaded: nothing was done for it.
    ChunkAlreadyLoaded((i32, i32)),
    /// The map service did not deliver, for the reason held.
    FetchFailed(String),
    /// The parser gave up with the code held.
    ParseFailed(i32),
    /// A cache file could not be read.
    IoFailed(String),
    /// A position that cannot be projected.
    InvalidCoordinate,
    /// Whoever waited for the result is gone.
    ChannelClosed,
}

/// A `LoadError` with its strings as sequences of characters.
pub enum LoadErrorView {
    ChunkAlreadyLoaded((i32, i32)),
    FetchFailed(Seq<char>),
    ParseFailed(i32),
    IoFailed(Seq<char>),
    InvalidCoordinate,
    ChannelClosed,
}

impl View for LoadError {
    type V = LoadErrorView;

    open spec fn view(&self) -> LoadErrorView {
        match *self {
            LoadError::ChunkAlreadyLoaded(c) => LoadErrorView::ChunkAlreadyLoaded(c),
            LoadError::FetchFailed(s) => LoadErrorView::FetchFailed(s@),
            LoadError::ParseFailed(code) => LoadErrorView::ParseFailed(code),
            LoadError::IoFailed(s) => LoadErrorView::IoFailed(s@),
            LoadError::InvalidCoordinate => LoadErrorView::InvalidCoordinate,
            LoadError::ChannelClosed => LoadErrorView::ChannelClosed,
        }
    }
}

/// What an error says of itself.
pub open spec fn message_text(e: LoadErrorView) -> Seq<char> {
    match e {
        LoadErrorView::ChunkAlreadyLoaded(c) => "the chunk ("@ + decimal(c.0 as int) + ", "@
            + decimal(c.1 as int) + ") is already loaded"@,
        LoadErrorView::FetchFailed(reason) => "osm request failed: "@ + reason,
        LoadErrorView::ParseFailed(code) => "failed to parse osm with err code "@ + decimal(
            code as int,
        ),
        LoadErrorView::IoFailed(reason) => reason,
        LoadErrorView::InvalidCoordinate => "invalid coordinate"@,
        LoadErrorView::ChannelClosed => "receiving on a closed channel"@,
    }
}

impl LoadError {
    /// What the error says of itself.
    pub fn message(&self) -> (text: String)
        ensures
            text@ == message_text(self@),
    {
        match self {
            LoadError::ChunkAlreadyLoaded(c) => {
                let mut text = String::from_str("the chunk (");
                push_decimal(&mut text, c.0);
                text.append(", ");
                push_decimal(&mut text, c.1);
                text.append(") is already loaded");
                text
            },
            LoadError::FetchFailed(reason) => {
                let mut text = String::from_str("osm request failed: ");
                text.append(reason.as_str());
                text
            },
            LoadError::ParseFailed(code) => {
                let mut text = String::from_str("failed to parse osm with err code ");
                push_decimal(&mut text, *code);
                text
            },
            LoadError::IoFailed(reason) => reason.clone(),
            LoadError::InvalidCoordinate => String::from_str("invalid coordinate"),
            LoadError::ChannelClosed => String::from_str("receiving on a closed channel"),
        }
    }
}

} // verus!
