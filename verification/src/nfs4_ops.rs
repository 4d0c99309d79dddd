//! NFSv4 operations that need no file system access: file-handle
//! juggling, security negotiation and other fixed replies.

use vstd::prelude::*;
use crate::nfs4_consts::{NFS4ERR_BADXDR, NFS4ERR_NOFILEHANDLE, NFS4ERR_RESTOREFH, NFS4_OK};
use crate::rpc::{clamp, clamp_len};
use vstd::string::StringSliceAdditionalSpecFns;
use crate::xdr::{
    be32, be64, copy_range, get_u32, get_u64, opaque_bytes, pad4, put_bytes, put_opaque, put_u32,
    put_zeros, u32_bytes, u64_bytes, zeros,
};

verus! {

/// What one operation of a COMPOUND produced: its result body (sent only on
/// success), how many argument bytes it consumed, the new current and saved
/// file handles (if it changes them) and its status.
pub struct OpOutcome {
    pub result: Vec<u8>,
    pub advance: usize,
    pub new_fh: Option<Vec<u8>>,
    pub new_saved: Option<Vec<u8>>,
    pub status: u32,
}

/// The value of an [`OpOutcome`].
pub struct Outcome {
    pub result: Seq<u8>,
    pub advance: int,
    pub new_fh: Option<Seq<u8>>,
    pub new_saved: Option<Seq<u8>>,
    pub status: u32,
}

/// The value of an optional byte vector.
pub open spec fn opt_view(o: Option<Vec<u8>>) -> Option<Seq<u8>> {
    match o {
        Some(v) => Some(v@),
        None => None,
    }
}

impl View for OpOutcome {
    type V = Outcome;

    open spec fn view(&self) -> Outcome {
        Outcome {
            result: self.result@,
            advance: self.advance as int,
            new_fh: opt_view(self.new_fh),
            new_saved: opt_view(self.new_saved),
            status: self.status,
        }
    }
}

/// A successful outcome.
pub open spec fn ok(result: Seq<u8>, advance: int, new_fh: Option<Seq<u8>>, new_saved: Option<Seq<u8>>) -> Outcome {
    Outcome { result, advance, new_fh, new_saved, status: NFS4_OK }
}

/// A failed outcome: no result, no handle change.
pub open spec fn fail(advance: int, status: u32) -> Outcome {
    Outcome { result: Seq::empty(), advance, new_fh: None, new_saved: None, status }
}

/// Builds a failed outcome.
pub fn failed(advance: usize, status: u32) -> (r: OpOutcome)
    ensures
        r@ == fail(advance as int, status),
{
    OpOutcome { result: Vec::new(), advance, new_fh: None, new_saved: None, status }
}

/// Builds a successful outcome.
pub fn succeeded(result: Vec<u8>, advance: usize, new_fh: Option<Vec<u8>>, new_saved: Option<Vec<u8>>) -> (r: OpOutcome)
    ensures
        r@ == ok(result@, advance as int, opt_view(new_fh), opt_view(new_saved)),
{
    OpOutcome { result, advance, new_fh, new_saved, status: NFS4_OK }
}

/// The 32-byte synthetic handle for `fhid`: the ID, inode 1, generation 1,
/// the magic bytes, zero-padded (or cut) to 32 bytes.
pub open spec fn synthetic_handle(fhid: u64, magic: Seq<u8>) -> Seq<u8> {
    (u64_bytes(fhid) + u64_bytes(1) + u32_bytes(1) + magic + zeros(32)).subrange(0, 32)
}

/// The NFSv4 pseudo-root handle: handle ID `u64::MAX` with magic `nfs4root`.
pub open spec fn root_handle() -> Seq<u8> {
    synthetic_handle(u64::MAX, "nfs4root".spec_bytes())
}

/// Builds a synthetic handle.
pub fn encode_synthetic_handle(fhid: u64, magic: &[u8]) -> (r: Vec<u8>)
    ensures
        r@ == synthetic_handle(fhid, magic@),
{
    let mut fh: Vec<u8> = Vec::new();
    crate::xdr::put_u64(&mut fh, fhid);
    crate::xdr::put_u64(&mut fh, 1);
    put_u32(&mut fh, 1);
    put_bytes(&mut fh, magic);
    put_zeros(&mut fh, 32);
    let r = copy_range(fh.as_slice(), 0, 32);
    r
}

/// Whether a handle is the pseudo-root: at least 16 bytes, handle ID `u64::MAX`.
pub open spec fn is_root(fh: Seq<u8>) -> bool {
    fh.len() >= 16 && be64(fh, 0) == u64::MAX
}

/// Computes whether a handle is the pseudo-root.
pub fn is_root_handle(fh: &[u8]) -> (r: bool)
    ensures
        r == is_root(fh@),
{
    if fh.len() < 16 {
        return false;
    }
    get_u64(fh, 0) == u64::MAX
}

/// PUTROOTFH (and PUTPUBFH): the current handle becomes the pseudo-root.
pub fn op_putrootfh() -> (r: OpOutcome)
    ensures
        r@ == ok(Seq::empty(), 0, Some(root_handle()), None),
{
    let root = encode_synthetic_handle(u64::MAX, "nfs4root".as_bytes());
    succeeded(Vec::new(), 0, Some(root), None)
}

/// A handle as XDR `opaque<>` (the GETFH result).
pub fn encode_fh_for_result(fh: &[u8]) -> (r: Vec<u8>)
    ensures
        r@ == opaque_bytes(fh@),
{
    let mut r: Vec<u8> = Vec::new();
    put_opaque(&mut r, fh);
    r
}

/// GETFH: the current handle, or NOFILEHANDLE.
pub fn op_getfh(current_fh: &Option<Vec<u8>>) -> (r: OpOutcome)
    ensures
        r@ == (match opt_view(*current_fh) {
            None => fail(0, NFS4ERR_NOFILEHANDLE),
            Some(fh) => ok(opaque_bytes(fh), 0, None, None),
        }),
{
    match current_fh {
        None => failed(0, NFS4ERR_NOFILEHANDLE),
        Some(fh) => succeeded(encode_fh_for_result(fh.as_slice()), 0, None, None),
    }
}

/// SAVEFH: the saved handle becomes the current one.
pub fn op_savefh(current_fh: &Option<Vec<u8>>) -> (r: OpOutcome)
    ensures
        r@ == (match opt_view(*current_fh) {
            None => fail(0, NFS4ERR_NOFILEHANDLE),
            Some(fh) => ok(Seq::empty(), 0, None, Some(fh)),
        }),
{
    match current_fh {
        None => failed(0, NFS4ERR_NOFILEHANDLE),
        Some(fh) => succeeded(Vec::new(), 0, None, Some(crate::exports::clone_bytes(fh))),
    }
}

/// RESTOREFH: the current handle becomes the saved one.
pub fn op_restorefh(saved_fh: &Option<Vec<u8>>) -> (r: OpOutcome)
    ensures
        r@ == (match opt_view(*saved_fh) {
            None => fail(0, NFS4ERR_RESTOREFH),
            Some(fh) => ok(Seq::empty(), 0, Some(fh), None),
        }),
{
    match saved_fh {
        None => failed(0, NFS4ERR_RESTOREFH),
        Some(fh) => succeeded(Vec::new(), 0, Some(crate::exports::clone_bytes(fh)), None),
    }
}

/// ACCESS: every access bit supported and granted.
pub fn op_access(current_fh: &Option<Vec<u8>>) -> (r: OpOutcome)
    ensures
        r@ == (if current_fh is None {
            fail(4, NFS4ERR_NOFILEHANDLE)
        } else {
            ok(u32_bytes(0x3f) + u32_bytes(0x3f), 4, None, None)
        }),
{
    if current_fh.is_none() {
        return failed(4, NFS4ERR_NOFILEHANDLE);
    }
    let mut result: Vec<u8> = Vec::new();
    put_u32(&mut result, 0x3f);
    put_u32(&mut result, 0x3f);
    succeeded(result, 4, None, None)
}

/// OPEN_CONFIRM: echoes the stateid's other part with sequence 1 (sixteen
/// zero bytes when the stateid is cut short).
pub fn op_open_confirm(request: &[u8], p: usize, current_fh: &Option<Vec<u8>>) -> (r: OpOutcome)
    ensures
        r@ == (if current_fh is None {
            fail(16, NFS4ERR_NOFILEHANDLE)
        } else if p + 16 <= request@.len() {
            ok(u32_bytes(1) + request@.subrange(p + 4, p + 16), 20, None, None)
        } else {
            ok(zeros(16), 20, None, None)
        }),
{
    if current_fh.is_none() {
        return failed(16, NFS4ERR_NOFILEHANDLE);
    }
    let mut result: Vec<u8> = Vec::new();
    if p <= request.len() && request.len() - p >= 16 {
        put_u32(&mut result, 1);
        let other = copy_range(request, p + 4, 12);
        put_bytes(&mut result, other.as_slice());
    } else {
        put_zeros(&mut result, 16);
    }
    succeeded(result, 20, None, None)
}

/// RENEW: accepted; consumes the client ID.
pub fn op_renew() -> (r: OpOutcome)
    ensures
        r@ == ok(Seq::empty(), 8, None, None),
{
    succeeded(Vec::new(), 8, None, None)
}

/// SECINFO: AUTH_SYS is the only flavor.
pub fn op_secinfo(request: &[u8], p: usize) -> (r: OpOutcome)
    ensures
        r@ == (if p + 4 > request@.len() {
            fail(0, NFS4ERR_BADXDR)
        } else {
            ok(u32_bytes(1) + u32_bytes(1), clamp(4 + pad4(be32(request@, p as int) as int)), None, None)
        }),
{
    if p > request.len() || request.len() - p < 4 {
        return failed(0, NFS4ERR_BADXDR);
    }
    let name_len = get_u32(request, p) as u64;
    let consumed = clamp_len(4 + (name_len + 3) / 4 * 4);
    let mut result: Vec<u8> = Vec::new();
    put_u32(&mut result, 1);
    put_u32(&mut result, 1);
    succeeded(result, consumed, None, None)
}

/// SECINFO_NO_NAME: AUTH_SYS with empty flavor info.
pub fn op_secinfo_no_name(request: &[u8], p: usize) -> (r: OpOutcome)
    ensures
        r@ == (if p + 4 > request@.len() {
            fail(0, NFS4ERR_BADXDR)
        } else {
            ok(u32_bytes(1) + u32_bytes(1) + u32_bytes(0), 4, None, None)
        }),
{
    if p > request.len() || request.len() - p < 4 {
        return failed(0, NFS4ERR_BADXDR);
    }
    let mut result: Vec<u8> = Vec::new();
    put_u32(&mut result, 1);
    put_u32(&mut result, 1);
    put_u32(&mut result, 0);
    succeeded(result, 4, None, None)
}

/// DELEGRETURN: accepted; consumes the stateid.
pub fn op_delegreturn() -> (r: OpOutcome)
    ensures
        r@ == ok(Seq::empty(), 16, None, None),
{
    succeeded(Vec::new(), 16, None, None)
}

/// COMMIT: returns the server's write verifier.
pub fn op_commit(current_fh: &Option<Vec<u8>>, writeverf: &[u8]) -> (r: OpOutcome)
    ensures
        r@ == (if current_fh is None {
            fail(12, NFS4ERR_NOFILEHANDLE)
        } else {
            ok(writeverf@, 12, None, None)
        }),
{
    if current_fh.is_none() {
        return failed(12, NFS4ERR_NOFILEHANDLE);
    }
    let v = copy_range(writeverf, 0, writeverf.len());
    assert(writeverf@.subrange(0, writeverf@.len() as int) =~= writeverf@);
    succeeded(v, 12, None, None)
}

/// RECLAIM_COMPLETE: accepted; consumes its one flag.
pub fn op_reclaim_complete() -> (r: OpOutcome)
    ensures
        r@ == ok(Seq::empty(), 4, None, None),
{
    succeeded(Vec::new(), 4, None, None)
}

/// OPEN_DOWNGRADE: accepted without change; returns the stateid given.
pub fn op_open_downgrade(request: &[u8], p: usize) -> (r: OpOutcome)
    ensures
        r@ == (if p + 28 > request@.len() {
            fail(0, NFS4ERR_BADXDR)
        } else {
            ok(request@.subrange(p + 4, p + 20), 28, None, None)
        }),
{
    if p > request.len() || request.len() - p < 28 {
        return failed(0, NFS4ERR_BADXDR);
    }
    succeeded(copy_range(request, p + 4, 16), 28, None, None)
}

/// RELEASE_LOCKOWNER: accepted; consumes the client ID and owner.
pub fn op_release_lockowner(request: &[u8], p: usize) -> (r: OpOutcome)
    ensures
        r@ == (if p + 8 > request@.len() {
            fail(0, NFS4ERR_BADXDR)
        } else {
            ok(Seq::empty(), clamp(8 + pad4(be32(request@, p + 4) as int)), None, None)
        }),
{
    if p > request.len() || request.len() - p < 8 {
        return failed(0, NFS4ERR_BADXDR);
    }
    let owner_len = get_u32(request, p + 4) as u64;
    succeeded(Vec::new(), clamp_len(8 + (owner_len + 3) / 4 * 4), None, None)
}

} // verus!
