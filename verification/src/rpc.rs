//! ONC-RPC (RFC 5531) message framing shared by every service: call headers,
//! authentication fields, accepted replies and TCP record marking.

use vstd::prelude::*;
use crate::xdr::{be32, get_u32, lemma_pad_mod, pad4, put_bytes, put_u32, u32_bytes};

verus! {

/// `msg_type` of a call.
pub const RPC_CALL: u32 = 0;
/// `msg_type` of a reply.
pub const RPC_REPLY: u32 = 1;
/// `reply_stat` of an accepted reply.
pub const RPC_MSG_ACCEPTED: u32 = 0;
/// `accept_stat` values.
pub const SUCCESS: u32 = 0;
pub const PROG_UNAVAIL: u32 = 1;
pub const PROG_MISMATCH: u32 = 2;
pub const PROC_UNAVAIL: u32 = 3;
pub const GARBAGE_ARGS: u32 = 4;

/// Program numbers served on the NFS port.
pub const NFS_PROGRAM: u32 = 100003;
pub const NFS_V3: u32 = 3;
pub const NFS_V4: u32 = 4;
pub const NFS_ACL_PROGRAM: u32 = 100227;

/// Largest opaque field (credential, verifier, tag) the server accepts.
pub const MAX_XDR_OPAQUE: usize = 4194304;
/// Largest NFS record accepted on a TCP stream.
pub const MAX_RECORD_LENGTH: usize = 1048576;
/// Largest amount of unprocessed data kept for one TCP stream.
pub const MAX_RECV_BUF: usize = 4194304;
/// Largest UDP reply the NFS service sends.
pub const MAX_UDP_RESPONSE_SIZE: usize = 65536;

/// An offset clamped to what `usize` can hold; any offset beyond `usize::MAX`
/// is beyond every buffer, so clamping does not change a bounds check.
pub open spec fn clamp(x: int) -> int {
    if x <= usize::MAX { x } else { usize::MAX as int }
}

/// Clamps a 64-bit length to `usize`.
pub fn clamp_len(x: u64) -> (r: usize)
    ensures
        r == clamp(x as int),
{
    if x <= usize::MAX as u64 {
        x as usize
    } else {
        usize::MAX
    }
}

/// Offset just past an `opaque_auth` (flavor, length, body) starting at `off`.
pub open spec fn after_auth(s: Seq<u8>, off: int) -> int {
    off + 8 + pad4(be32(s, off + 4) as int)
}

/// The bytes of an accepted reply with an AUTH_NONE verifier, followed by `body`.
pub open spec fn accept_reply(xid: u32, accept_stat: u32, body: Seq<u8>) -> Seq<u8> {
    u32_bytes(xid) + u32_bytes(RPC_REPLY) + u32_bytes(RPC_MSG_ACCEPTED) + u32_bytes(0) + u32_bytes(0)
        + u32_bytes(accept_stat) + body
}

/// Skips the `opaque_auth` at `off`: `None` when its two header words do not
/// fit in the buffer, otherwise the (clamped) offset past its body.
pub fn skip_auth(req: &[u8], off: usize) -> (r: Option<usize>)
    ensures
        r == (if off + 8 <= req@.len() { Some(clamp(after_auth(req@, off as int)) as usize) } else { None::<usize> }),
{
    if off <= req.len() && req.len() - off >= 8 {
        let len = get_u32(req, off + 4) as usize;
        let padded: u64 = (len as u64 + 3) / 4 * 4;
        proof { lemma_pad_mod(len as int); }
        if (off as u64) <= usize::MAX as u64 - 8 && padded <= (usize::MAX - 8 - off) as u64 {
            Some(off + 8 + padded as usize)
        } else {
            Some(usize::MAX)
        }
    } else {
        None
    }
}

/// Builds an accepted reply with an AUTH_NONE verifier; `body` follows the
/// `accept_stat` word.
pub fn make_accept_reply(xid: u32, accept_stat: u32, body: &[u8]) -> (r: Vec<u8>)
    ensures
        r@ == accept_reply(xid, accept_stat, body@),
{
    let mut r: Vec<u8> = Vec::new();
    put_u32(&mut r, xid);
    put_u32(&mut r, RPC_REPLY);
    put_u32(&mut r, RPC_MSG_ACCEPTED);
    put_u32(&mut r, 0);
    put_u32(&mut r, 0);
    put_u32(&mut r, accept_stat);
    put_bytes(&mut r, body);
    r
}

/// The NFSv4 service's name for [`make_accept_reply`].
pub fn make_rpc_accepted_reply(xid: u32, accept_stat: u32, body: &[u8]) -> (r: Vec<u8>)
    ensures
        r@ == accept_reply(xid, accept_stat, body@),
{
    make_accept_reply(xid, accept_stat, body)
}

/// The error reply sent for an RPC program this server does not implement:
/// the request's xid, REPLY, ACCEPTED, an AUTH_NONE verifier, and
/// `error_code` as the accept status.
pub open spec fn error_reply(xid: u32, error_code: u32) -> Seq<u8> {
    u32_bytes(xid) + u32_bytes(RPC_REPLY) + u32_bytes(RPC_MSG_ACCEPTED) + u32_bytes(0) + u32_bytes(0) + u32_bytes(error_code)
}

/// Builds the [`error_reply`] for a request; `None` for a request shorter
/// than twenty bytes.
pub fn make_rpc_error_reply(request: &[u8], error_code: u32) -> (r: Option<Vec<u8>>)
    ensures
        request@.len() < 20 <==> r is None,
        r matches Some(v) ==> v@ == error_reply(be32(request@, 0), error_code),
{
    if request.len() < 20 {
        return None;
    }
    let xid = get_u32(request, 0);
    let mut r: Vec<u8> = Vec::new();
    put_u32(&mut r, xid);
    put_u32(&mut r, RPC_REPLY);
    put_u32(&mut r, RPC_MSG_ACCEPTED);
    put_u32(&mut r, 0);
    put_u32(&mut r, 0);
    put_u32(&mut r, error_code);
    Some(r)
}

/// The record-marking header of a last fragment holding `len` bytes
/// (the length is kept to its low 31 bits).
pub open spec fn record_mark(len: nat) -> u32 {
    (0x8000_0000 + len % 0x8000_0000) as u32
}

/// A reply framed as one last-fragment record: the marking word, then the reply.
pub fn frame_record(resp: &[u8]) -> (r: Vec<u8>)
    ensures
        r@ == u32_bytes(record_mark(resp@.len())) + resp@,
{
    let n = resp.len() as u64;
    let mark: u32 = 0x8000_0000 + (n % 0x8000_0000) as u32;
    let mut r: Vec<u8> = Vec::new();
    put_u32(&mut r, mark);
    put_bytes(&mut r, resp);
    r
}

/// What the NFS TCP reader does next with its receive buffer.
pub enum RecordStep {
    /// Wait for more bytes from the stream.
    NeedMore,
    /// Close the connection (a non-final fragment or an oversized record).
    Close,
    /// Discard the four-byte marking word of a record too short to hold a call.
    SkipHeader,
    /// A whole record of this many bytes follows the marking word.
    Record(usize),
}

/// The next step for a receive buffer holding `buf`.
pub open spec fn record_step(buf: Seq<u8>) -> RecordStep {
    if buf.len() < 4 {
        RecordStep::NeedMore
    } else {
        let rm = be32(buf, 0);
        let len = (rm % 0x8000_0000) as int;
        if rm < 0x8000_0000 {
            RecordStep::Close
        } else if len < 20 {
            RecordStep::SkipHeader
        } else if len > MAX_RECORD_LENGTH {
            RecordStep::Close
        } else if buf.len() < 4 + len {
            RecordStep::NeedMore
        } else {
            RecordStep::Record(len as usize)
        }
    }
}

/// Decides what to do with the bytes buffered from an NFS TCP stream.
pub fn next_record(buf: &[u8]) -> (r: RecordStep)
    ensures
        r == record_step(buf@),
{
    if buf.len() < 4 {
        return RecordStep::NeedMore;
    }
    let rm = get_u32(buf, 0);
    let len = (rm % 0x8000_0000) as usize;
    if rm < 0x8000_0000 {
        RecordStep::Close
    } else if len < 20 {
        RecordStep::SkipHeader
    } else if len > MAX_RECORD_LENGTH {
        RecordStep::Close
    } else if buf.len() - 4 < len {
        RecordStep::NeedMore
    } else {
        RecordStep::Record(len)
    }
}

/// A reply framed by [`frame_record`] and read back by [`next_record`] is
/// one whole record of the reply's length, holding the reply.
pub proof fn lemma_frame_then_read(resp: Seq<u8>)
    requires
        20 <= resp.len() <= MAX_RECORD_LENGTH,
    ensures
        record_step(u32_bytes(record_mark(resp.len())) + resp) == RecordStep::Record(resp.len() as usize),
        (u32_bytes(record_mark(resp.len())) + resp).subrange(4, 4 + resp.len() as int) == resp,
{
    let m = record_mark(resp.len());
    let buf = u32_bytes(m) + resp;
    crate::xdr::lemma_u32_roundtrip(m);
    assert(buf.subrange(0, 4) =~= u32_bytes(m));
    assert(be32(buf, 0) == be32(u32_bytes(m), 0));
    assert(m == 0x8000_0000 + resp.len());
    assert(buf.subrange(4, 4 + resp.len() as int) =~= resp);
}

/// On a stream, a framed reply followed by any further bytes is read as one
/// whole record holding the reply, and what is left after it is exactly the
/// further bytes: records sent one after another are read back one by one,
/// in order.
pub proof fn lemma_framed_stream(resp: Seq<u8>, rest: Seq<u8>)
    requires
        20 <= resp.len() <= MAX_RECORD_LENGTH,
    ensures
        record_step(u32_bytes(record_mark(resp.len())) + resp + rest) == RecordStep::Record(resp.len() as usize),
        (u32_bytes(record_mark(resp.len())) + resp + rest).subrange(4, 4 + resp.len() as int) == resp,
        (u32_bytes(record_mark(resp.len())) + resp + rest).subrange(
            4 + resp.len() as int,
            (u32_bytes(record_mark(resp.len())) + resp + rest).len() as int,
        ) == rest,
{
    let m = record_mark(resp.len());
    let buf = u32_bytes(m) + resp + rest;
    crate::xdr::lemma_u32_roundtrip(m);
    assert(buf.subrange(0, 4) =~= u32_bytes(m));
    assert(be32(buf, 0) == be32(u32_bytes(m), 0));
    assert(m == 0x8000_0000 + resp.len());
    assert(buf.subrange(4, 4 + resp.len() as int) =~= resp);
    assert(buf.subrange(4 + resp.len() as int, buf.len() as int) =~= rest);
}

/// The record length announced by a PORTMAP or MOUNT marking word, or
/// `None` when the stream must be closed (an empty or oversized record).
pub fn simple_record_len(mark: u32) -> (r: Option<usize>)
    ensures
        r == (if mark % 0x8000_0000 == 0 || mark % 0x8000_0000 > 65536 {
            None::<usize>
        } else {
            Some((mark % 0x8000_0000) as usize)
        }),
{
    let len = mark % 0x8000_0000;
    if len == 0 || len > 65536 {
        None
    } else {
        Some(len as usize)
    }
}

/// Which handler an RPC call on the NFS port goes to.
pub enum Route {
    /// Too short to hold a call header: ignored.
    Invalid,
    NfsV3,
    NfsV4,
    /// The NFS program with another version: ignored.
    UnsupportedVersion,
    /// The NFS ACL side program: answered with an error reply.
    Acl,
    /// Any other program: ignored.
    UnsupportedProgram,
}

/// The route of a call by its program and version words.
pub open spec fn route_of(req: Seq<u8>) -> Route {
    if req.len() < 20 {
        Route::Invalid
    } else if be32(req, 12) == NFS_PROGRAM {
        if be32(req, 16) == NFS_V3 {
            Route::NfsV3
        } else if be32(req, 16) == NFS_V4 {
            Route::NfsV4
        } else {
            Route::UnsupportedVersion
        }
    } else if be32(req, 12) == NFS_ACL_PROGRAM {
        Route::Acl
    } else {
        Route::UnsupportedProgram
    }
}

/// Picks the handler for a call received on the NFS port.
pub fn route_request(req: &[u8]) -> (r: Route)
    ensures
        r == route_of(req@),
{
    if req.len() < 20 {
        return Route::Invalid;
    }
    let program = get_u32(req, 12);
    let version = get_u32(req, 16);
    if program == NFS_PROGRAM {
        if version == NFS_V3 {
            Route::NfsV3
        } else if version == NFS_V4 {
            Route::NfsV4
        } else {
            Route::UnsupportedVersion
        }
    } else if program == NFS_ACL_PROGRAM {
        Route::Acl
    } else {
        Route::UnsupportedProgram
    }
}

/// The AUTH_SYS flavor number.
pub const AUTH_SYS: u32 = 1;

/// The uid of an AUTH_SYS credential body: a stamp word, the machine name as
/// `opaque<>`, then the uid; `None` for another flavor or a body too short.
pub open spec fn auth_sys_uid(flavor: u32, data: Seq<u8>) -> Option<u32> {
    if flavor != AUTH_SYS || data.len() < 8 {
        None
    } else {
        let uid_off = 8 + pad4(be32(data, 4) as int);
        if uid_off + 4 <= data.len() {
            Some(be32(data, uid_off))
        } else {
            None
        }
    }
}

/// Extracts the caller's uid from an AUTH_SYS credential.
pub fn parse_auth_sys_uid(flavor: u32, data: &[u8]) -> (r: Option<u32>)
    ensures
        r == auth_sys_uid(flavor, data@),
{
    if flavor != AUTH_SYS || data.len() < 8 {
        return None;
    }
    let name_len = get_u32(data, 4) as u64;
    let padded = (name_len + 3) / 4 * 4;
    let uid_off = 8 + padded;
    if uid_off + 4 <= data.len() as u64 {
        Some(get_u32(data, uid_off as usize))
    } else {
        None
    }
}

} // verus!
