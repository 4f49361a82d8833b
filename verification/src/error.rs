//! The closed sets of failures, one per component.

use vstd::prelude::*;

verus! {

/// Why a frame could not be loaded. The frame is then none of this
/// dataplane's business and goes on unchanged.
#[derive(Clone, Copy, Debug, PartialEq, Eq, Structural)]
pub enum LoadError {
    /// The frame ends before the headers, or before the datagram that its
    /// IPv4 header announces.
    Truncated,
    /// The frame does not carry IPv4 over Ethernet.
    UnsupportedLink,
    /// The IPv4 header is not one: wrong version, or lengths that cannot be.
    UnsupportedNetwork,
    /// The datagram carries neither TCP nor UDP.
    UnsupportedTransport,
}

/// An access that would have left the buffer.
#[derive(Clone, Copy, Debug, PartialEq, Eq, Structural)]
pub struct BoundsError {
    /// Where the access began.
    pub offset: usize,
    /// How many bytes it asked for.
    pub width: usize,
    /// How many bytes the buffer holds.
    pub len: usize,
}

/// Why a DNS message was not taken as a question to answer.
#[derive(Clone, Copy, Debug, PartialEq, Eq, Structural)]
pub enum ParseError {
    /// The frame was not classified as DNS.
    NotDns,
    /// The message is a response, or not a standard query.
    NotQuery,
    /// The message does not hold exactly one question and nothing in its
    /// answer and authority sections.
    SectionCount,
    /// The message ends inside the question.
    Truncated,
    /// The name uses a compression pointer.
    Compression,
    /// A label announces a length above 63.
    LabelLength,
    /// The name is longer than 255 bytes.
    NameLength,
}

/// Why a table refused a change.
#[derive(Clone, Copy, Debug, PartialEq, Eq, Structural)]
pub enum MapError {
    /// The table holds as many entries as it may, and the key is not among
    /// them.
    Full,
}

/// What becomes of a frame after a hook has seen it.
#[derive(Clone, Copy, Debug, PartialEq, Eq, Structural)]
pub enum Disposition {
    /// The frame goes on through the network stack.
    Pass,
    /// The frame was rewritten into an answer and goes back towards the
    /// sender of the frame it was made from.
    Redirect,
}

} // verus!
