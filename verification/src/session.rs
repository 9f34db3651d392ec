//! The writer path's command language: what a session's writer consumes
//! from the bounded outbound queue, and what each command makes it do.
//!
//! The queue itself, the socket writes and the half-close live in the
//! surrounding runtime; the step function here fixes, for every command,
//! the exact bytes to write or the decision to shut down.

use vstd::prelude::*;

verus! {

use crate::codec::{FrameError, frame_bytes, encode_frame, MAX_PACKET_SIZE};

/// One command on a session's outbound queue.
#[derive(Debug)]
pub enum SessionCommand {
    /// Send this payload to the peer, length-prefix framed.
    Send(Vec<u8>),
    /// Stop consuming and half-close the write direction.
    Close,
}

/// What the writer does for one command.
#[derive(Debug)]
pub enum WriterAction {
    /// Write exactly these bytes to the stream.
    Write(Vec<u8>),
    /// Perform the write-side half-close and exit.
    Shutdown,
}

/// One step of the writer path: frames a payload for the wire, or decides
/// to shut down. Frames are produced in command order, so bytes go out in
/// `send` call order.
pub fn writer_step(cmd: SessionCommand) -> (r: Result<WriterAction, FrameError>)
    ensures
        match cmd {
            SessionCommand::Send(data) => {
                &&& data@.len() <= MAX_PACKET_SIZE ==> (r matches Ok(a) && a matches
                    WriterAction::Write(f) && f@ == frame_bytes(data@))
                &&& data@.len() > MAX_PACKET_SIZE ==> r == Err::<WriterAction, FrameError>(
                    FrameError::TooLarge,
                )
            },
            SessionCommand::Close => r matches Ok(a) && a is Shutdown,
        },
{
    match cmd {
        SessionCommand::Send(data) => match encode_frame(&data) {
            Ok(framed) => Ok(WriterAction::Write(framed)),
            Err(e) => Err(e),
        },
        SessionCommand::Close => Ok(WriterAction::Shutdown),
    }
}

} // verus!
