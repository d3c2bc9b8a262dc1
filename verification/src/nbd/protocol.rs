//! NBD request and reply encoding.
use vstd::prelude::*;
use crate::bytes::{be32, be64, get_be32, get_be64, read_be32, read_be64, u32_be, u64_be};

verus! {

/// Magic number of an NBD request.
pub const NBD_REQUEST_MAGIC: u32 = 0x2560_9513;

/// Magic number of an NBD reply.
pub const NBD_REPLY_MAGIC: u32 = 0x6744_6698;

/// Size of an NBD request in bytes.
pub const NBD_REQUEST_SIZE: usize = 28;

/// NBD I/O error code (EIO).
pub const NBD_EIO: u32 = 5;

/// An NBD command.
#[derive(Debug, Clone, Copy, PartialEq, Eq, Structural)]
pub enum NbdCommand {
    Read,
    Write,
    Disconnect,
    Flush,
    Unknown(u32),
}

/// An NBD request.
#[derive(Debug, Clone, Copy, PartialEq, Eq, Structural)]
pub struct NbdRequest {
    pub command: NbdCommand,
    pub handle: u64,
    pub from: u64,
    pub len: u32,
}

/// The command of a request whose type field is `type_val` (its low 16 bits).
pub open spec fn spec_command(type_val: u32) -> NbdCommand {
    let t = type_val % 65536;
    if t == 0 {
        NbdCommand::Read
    } else if t == 1 {
        NbdCommand::Write
    } else if t == 2 {
        NbdCommand::Disconnect
    } else if t == 3 {
        NbdCommand::Flush
    } else {
        NbdCommand::Unknown(t)
    }
}

/// The request encoded in the 28 bytes `b` (big-endian fields), or `None` when
/// the magic number is wrong.
pub open spec fn spec_parse_request(b: Seq<u8>) -> Option<NbdRequest> {
    if read_be32(b, 0) != NBD_REQUEST_MAGIC {
        None
    } else {
        Some(
            NbdRequest {
                command: spec_command(read_be32(b, 4)),
                handle: read_be64(b, 8),
                from: read_be64(b, 16),
                len: read_be32(b, 24),
            },
        )
    }
}

/// The 16-byte reply header: magic, error, handle, all big-endian.
pub open spec fn spec_reply(handle: u64, error: u32) -> Seq<u8> {
    be32(NBD_REPLY_MAGIC) + be32(error) + be64(handle)
}

impl NbdRequest {
    /// Parses a 28-byte NBD request; `None` when the magic number is wrong.
    pub fn parse(buf: &[u8; NBD_REQUEST_SIZE]) -> (r: Option<Self>)
        ensures
            r == spec_parse_request(buf@),
    {
        let b = buf.as_slice();
        let magic = get_be32(b, 0);
        if magic != NBD_REQUEST_MAGIC {
            return None;
        }
        let type_val = get_be32(b, 4);
        let low = type_val & 0xffff;
        assert(low == type_val % 65536) by (bit_vector)
            requires
                low == type_val & 0xffff,
        ;
        let command = if low == 0 {
            NbdCommand::Read
        } else if low == 1 {
            NbdCommand::Write
        } else if low == 2 {
            NbdCommand::Disconnect
        } else if low == 3 {
            NbdCommand::Flush
        } else {
            NbdCommand::Unknown(low)
        };
        Some(NbdRequest { command, handle: get_be64(b, 8), from: get_be64(b, 16), len: get_be32(b, 24) })
    }
}

/// Builds the 16-byte NBD reply header.
pub fn build_reply(handle: u64, error: u32) -> (reply: Vec<u8>)
    ensures
        reply@ == spec_reply(handle, error),
{
    let mut reply = u32_be(NBD_REPLY_MAGIC);
    let mut e = u32_be(error);
    let mut h = u64_be(handle);
    reply.append(&mut e);
    reply.append(&mut h);
    reply
}

/// Reading the fields back from a reply header gives the magic number, the
/// error and the handle it was built from.
pub proof fn lemma_reply_fields(handle: u64, error: u32)
    ensures
        spec_reply(handle, error).len() == 16,
        read_be32(spec_reply(handle, error), 0) == NBD_REPLY_MAGIC,
        read_be32(spec_reply(handle, error), 4) == error,
        read_be64(spec_reply(handle, error), 8) == handle,
{
    let r = spec_reply(handle, error);
    crate::bytes::lemma_be32_read(NBD_REPLY_MAGIC, r, 0);
    crate::bytes::lemma_be32_read(error, r, 4);
    crate::bytes::lemma_be64_read(handle, r, 8);
}

/// The reply to a read of `len` bytes: success and the data when the backend
/// returned exactly `len` bytes, else an I/O error.
pub open spec fn spec_read_response(handle: u64, len: nat, data: Option<Seq<u8>>) -> Seq<u8> {
    match data {
        Some(d) => if d.len() == len {
            spec_reply(handle, 0) + d
        } else {
            spec_reply(handle, NBD_EIO)
        },
        None => spec_reply(handle, NBD_EIO),
    }
}

/// The reply bytes to a read request, given what the backend returned
/// (`None` when it failed).
pub fn read_response(handle: u64, len: u32, data: Option<&[u8]>) -> (r: Vec<u8>)
    ensures
        r@ == spec_read_response(handle, len as nat, match data {
            Some(d) => Some(d@),
            None => None,
        }),
{
    match data {
        Some(d) => {
            if d.len() as u64 == len as u64 {
                let mut out = build_reply(handle, 0);
                let ghost head = out@;
                let mut i: usize = 0;
                while i < d.len()
                    invariant
                        i <= d@.len(),
                        out@ == head + d@.take(i as int),
                    decreases d@.len() - i,
                {
                    out.push(d[i]);
                    i = i + 1;
                    assert(out@ =~= head + d@.take(i as int));
                }
                assert(d@.take(d@.len() as int) =~= d@);
                out
            } else {
                build_reply(handle, NBD_EIO)
            }
        },
        None => build_reply(handle, NBD_EIO),
    }
}

/// The reply to a write or flush: success, or an I/O error when the backend
/// failed.
pub fn status_response(handle: u64, ok: bool) -> (r: Vec<u8>)
    ensures
        r@ == spec_reply(handle, if ok { 0 } else { NBD_EIO }),
{
    build_reply(handle, if ok { 0 } else { NBD_EIO })
}

} // verus!
