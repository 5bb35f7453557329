//! What can go wrong with a frame, by the step that failed.

use vstd::prelude::*;

verus! {

/// A failure of writing or reading one frame. `E` is what the stream reports
/// when a transfer fails.
#[derive(Debug)]
pub enum FrameError<E> {
    /// The encoder refused the length of the payload.
    EncodeLen(Box<bincode::ErrorKind>),
    /// The sink failed before it had taken the whole prefix.
    WriteLen(E),
    /// The sink took the prefix and failed before it had taken the whole payload.
    WritePayload(E),
    /// The source ended or failed before it had delivered a whole prefix.
    ReadLen(E),
    /// The decoder refused the bytes read for the prefix.
    DecodeLen(Box<bincode::ErrorKind>),
    /// The prefix declares more bytes than one buffer in memory can hold.
    TooLong(u64),
    /// The source ended or failed before it had delivered the whole payload.
    ReadPayload(E),
}

impl<E> FrameError<E> {
    /// Whether the failure is one of the stream, not of an encoding.
    pub open spec fn spec_is_io(&self) -> bool {
        self is WriteLen || self is WritePayload || self is ReadLen || self is ReadPayload
    }

    /// The step that failed, in words.
    pub open spec fn spec_context(&self) -> Seq<char> {
        match self {
            FrameError::EncodeLen(_) => "serialization of len"@,
            FrameError::WriteLen(_) => "error during writing of len"@,
            FrameError::WritePayload(_) => "error during writing some T"@,
            FrameError::ReadLen(_) => "during reading of len"@,
            FrameError::DecodeLen(_) => "during deserializing len"@,
            FrameError::TooLong(_) => "length of T exceeds what memory can hold"@,
            FrameError::ReadPayload(_) => "during reading of T"@,
        }
    }

    /// Whether the failure is one of the stream, not of an encoding.
    pub fn is_io(&self) -> (b: bool)
        ensures
            b == self.spec_is_io(),
    {
        match self {
            FrameError::WriteLen(_) => true,
            FrameError::WritePayload(_) => true,
            FrameError::ReadLen(_) => true,
            FrameError::ReadPayload(_) => true,
            _ => false,
        }
    }

    /// The step that failed, in words.
    pub fn context(&self) -> (text: &'static str)
        ensures
            text@ == self.spec_context(),
    {
        match self {
            FrameError::EncodeLen(_) => "serialization of len",
            FrameError::WriteLen(_) => "error during writing of len",
            FrameError::WritePayload(_) => "error during writing some T",
            FrameError::ReadLen(_) => "during reading of len",
            FrameError::DecodeLen(_) => "during deserializing len",
            FrameError::TooLong(_) => "length of T exceeds what memory can hold",
            FrameError::ReadPayload(_) => "during reading of T",
        }
    }
}

} // verus!
