//! What a stream frame is about.
use vstd::prelude::*;

verus! {

/// Bytes of the stream.
pub const DATA: i32 = 0;

/// The end of the stream.
pub const CLOSE: i32 = 1;

/// A WebTransport datagram.
pub const DATAGRAM: i32 = 2;

/// A WebTransport stream was opened.
pub const STREAM_OPEN: i32 = 3;

/// Bytes of a WebTransport stream.
pub const STREAM_DATA: i32 = 4;

/// A WebTransport stream was closed.
pub const STREAM_CLOSE: i32 = 5;

} // verus!
