//! What a frame of a streamed response carries.

use crate::wire::{End, EndView, Trailers, TrailersView};
use vstd::prelude::*;

verus! {

/// The content of a [`crate::wire::ResponseFrame`].
#[derive(Clone, Debug, PartialEq)]
pub enum Frame {
    /// Bytes of the response body.
    Message(Vec<u8>),
    /// HTTP trailers.
    Trailers(Box<Trailers>),
    /// The body failed, with this text.
    Error(String),
    /// No frame follows.
    End(Box<End>),
}

/// What a [`Frame`] says.
pub enum FrameView {
    Message(Seq<u8>),
    Trailers(TrailersView),
    Error(Seq<char>),
    End(EndView),
}

impl FrameView {
    /// The mark behind which no frame follows.
    pub open spec fn end() -> FrameView {
        FrameView::End(EndView { unknown: Seq::empty() })
    }
}

impl View for Frame {
    type V = FrameView;

    open spec fn view(&self) -> FrameView {
        match self {
            Frame::Message(bytes) => FrameView::Message(bytes@),
            Frame::Trailers(trailers) => FrameView::Trailers((**trailers)@),
            Frame::Error(text) => FrameView::Error(text@),
            Frame::End(end) => FrameView::End((**end)@),
        }
    }
}

} // verus!
