//! The NBD request loop's decisions: what each request asks of the block
//! backend and what is sent back. The caller reads requests and write payloads
//! from the NBD socket, calls the backend and sends the replies.
use vstd::prelude::*;
use crate::block_backend::BlockWriteOutcome;
use crate::error::IoError;
use crate::nbd::protocol::{
    spec_parse_request, spec_reply, status_response, NbdCommand, NbdRequest, NBD_EIO, NBD_REQUEST_SIZE,
};

verus! {

/// What the loop does with a request.
#[derive(Debug)]
pub enum LoopAction {
    /// Read `len` bytes at `from` from the backend and send `read_response`.
    Read { handle: u64, from: u64, len: u32 },
    /// Receive `len` bytes of payload, write them at `from` and send `write_reply`.
    Write { handle: u64, from: u64, len: u32 },
    /// Flush the backend and send `status_response`.
    Flush { handle: u64 },
    /// Shut the backend down and end the loop.
    Disconnect,
    /// Send these bytes and carry on.
    Reply(Vec<u8>),
    /// End the loop: the request does not parse.
    Stop,
}

/// The action for the request `buf`: by command; an unknown command is
/// answered with an I/O error; a request with the wrong magic number ends
/// the loop.
pub fn next_action(buf: &[u8; NBD_REQUEST_SIZE]) -> (r: LoopAction)
    ensures
        match spec_parse_request(buf@) {
            None => r is Stop,
            Some(req) => match req.command {
                NbdCommand::Read => r == LoopAction::Read { handle: req.handle, from: req.from, len: req.len },
                NbdCommand::Write => r == LoopAction::Write { handle: req.handle, from: req.from, len: req.len },
                NbdCommand::Flush => r == LoopAction::Flush { handle: req.handle },
                NbdCommand::Disconnect => r is Disconnect,
                NbdCommand::Unknown(_) => r matches LoopAction::Reply(b) && b@ == spec_reply(req.handle, NBD_EIO),
            },
        },
{
    match NbdRequest::parse(buf) {
        None => LoopAction::Stop,
        Some(req) => match req.command {
            NbdCommand::Read => LoopAction::Read { handle: req.handle, from: req.from, len: req.len },
            NbdCommand::Write => LoopAction::Write { handle: req.handle, from: req.from, len: req.len },
            NbdCommand::Flush => LoopAction::Flush { handle: req.handle },
            NbdCommand::Disconnect => LoopAction::Disconnect,
            NbdCommand::Unknown(_) => LoopAction::Reply(status_response(req.handle, false)),
        },
    }
}

/// The reply to a write: success when the backend committed it or absorbed
/// a policy rejection, an I/O error when it failed.
pub fn write_reply(handle: u64, outcome: &Result<BlockWriteOutcome, IoError>) -> (r: Vec<u8>)
    ensures
        r@ == spec_reply(handle, if outcome is Ok { 0 } else { NBD_EIO }),
{
    let ok = match outcome {
        Ok(o) => o.is_success_for_block_device(),
        Err(_) => false,
    };
    status_response(handle, ok)
}

} // verus!
