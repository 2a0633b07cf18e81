use vstd::prelude::*;

verus! {

/// The failure taxonomy of the pipeline.
///
/// `Transport` is a network or HTTP failure and aborts the pipeline.
/// `Download` is a transient content-length sanity failure; the one segment is
/// retried. `Padding` reports malformed ciphertext. `ParsePlaylist` reports a
/// malformed playlist or a missing variant or alternative.
/// `SessionNegotiation` reports a delivery endpoint answer that lacks the
/// session fields. `LongFileName` reports an output path the transcoder
/// refused.
#[derive(Clone, Copy, Debug, PartialEq, Eq, Structural)]
pub enum Error {
    Transport,
    Download,
    Padding,
    ParsePlaylist,
    SessionNegotiation,
    LongFileName,
}

impl Error {
    /// A short stable label for each failure class.
    pub fn label(&self) -> (r: &'static str)
        ensures
            self is Download ==> r@ == "DownloadError"@,
            self is Padding ==> r@ == "PaddingError"@,
    {
        match self {
            Error::Transport => "TransportError",
            Error::Download => "DownloadError",
            Error::Padding => "PaddingError",
            Error::ParsePlaylist => "ParsePlaylistError",
            Error::SessionNegotiation => "SessionNegotiationError",
            Error::LongFileName => "LongFileNameError",
        }
    }
}

} // verus!
