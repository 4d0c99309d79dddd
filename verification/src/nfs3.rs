//! NFSv3 (RFC 1813): the call header, the procedure table, and for each
//! procedure the reply, built from what the file system gave. Procedures
//! that touch files are split in a plan (arguments, handles, paths) and a
//! finish (the reply); the caller does the file system work between them.

use vstd::prelude::*;
use crate::exports::{ExportsManager, FhView, handle_for_path, handles_after_path, counter_after_path, index_by_path};
use crate::nfs4_attrs::{path_view, FileMeta};
use crate::nfs4_fs::{path_of, read_only, root_or};
use crate::paths::{join, join_path, starts_with, within};
use crate::rpc::{clamp, clamp_len, MAX_XDR_OPAQUE};
use crate::xdr::{
    add_clamped, be32, be64, copy_range, get_u32, get_u64, opaque_bytes, pad4, put_bytes, put_opaque, put_u32,
    put_u64, put_zeros, u32_bytes, u64_bytes, zeros,
};

verus! {

pub const NFS3_OK: u32 = 0;
pub const NFS3ERR_NOENT: u32 = 2;
pub const NFS3ERR_IO: u32 = 5;
pub const NFS3ERR_ROFS: u32 = 30;
pub const NFS3ERR_NOTEMPTY: u32 = 66;
pub const NFS3ERR_STALE: u32 = 70;
pub const NFS3ERR_NOTSUPP: u32 = 10004;
pub const NF3REG: u32 = 1;
pub const NF3DIR: u32 = 2;

/// How an NFSv3 call is to be handled.
pub enum V3Call {
    /// Not a call, too short, or with an over-long credential or verifier:
    /// no reply.
    NoReply,
    /// Procedure `procedure`, its arguments at `args_off`.
    Call { procedure: u32, args_off: usize },
}

/// The value of a [`V3Call`].
pub enum V3CallView {
    NoReply,
    Call { procedure: u32, args_off: int },
}

impl View for V3Call {
    type V = V3CallView;

    open spec fn view(&self) -> V3CallView {
        match self {
            V3Call::NoReply => V3CallView::NoReply,
            V3Call::Call { procedure, args_off } => V3CallView::Call { procedure: *procedure, args_off: *args_off as int },
        }
    }
}

/// The NFSv3 call a request makes. The credential is skipped when more
/// than its header is present, the verifier likewise.
pub open spec fn v3_call_of(s: Seq<u8>) -> V3CallView {
    if s.len() < 24 || be32(s, 4) != 0 {
        V3CallView::NoReply
    } else if s.len() <= 32 {
        V3CallView::Call { procedure: be32(s, 20), args_off: 24 }
    } else if be32(s, 28) > MAX_XDR_OPAQUE {
        V3CallView::NoReply
    } else {
        let a = 32 + pad4(be32(s, 28) as int);
        if s.len() <= a + 8 {
            V3CallView::Call { procedure: be32(s, 20), args_off: a }
        } else if be32(s, a + 4) > MAX_XDR_OPAQUE {
            V3CallView::NoReply
        } else {
            V3CallView::Call { procedure: be32(s, 20), args_off: a + 8 + pad4(be32(s, a + 4) as int) }
        }
    }
}

/// Reads an NFSv3 call's header.
pub fn parse_v3_call(request: &[u8]) -> (r: V3Call)
    ensures
        r@ == v3_call_of(request@),
{
    if request.len() < 24 || get_u32(request, 4) != 0 {
        return V3Call::NoReply;
    }
    let procedure = get_u32(request, 20);
    if request.len() <= 32 {
        return V3Call::Call { procedure, args_off: 24 };
    }
    let c = get_u32(request, 28) as usize;
    if c > MAX_XDR_OPAQUE {
        return V3Call::NoReply;
    }
    let a = 32 + (c + 3) / 4 * 4;
    if request.len() <= a + 8 {
        return V3Call::Call { procedure, args_off: a };
    }
    let v = get_u32(request, a + 4) as usize;
    if v > MAX_XDR_OPAQUE {
        return V3Call::NoReply;
    }
    V3Call::Call { procedure, args_off: a + 8 + (v + 3) / 4 * 4 }
}

/// The NFSv3 procedures.
#[derive(Clone, Copy, Debug, PartialEq, Eq)]
pub enum V3Proc {
    Null,
    GetAttr,
    SetAttr,
    Lookup,
    Access,
    ReadLink,
    Read,
    Write,
    Create,
    Mkdir,
    NotSupported,
    Remove,
    Rmdir,
    Rename,
    ReadDir,
    FsStat,
    FsInfo,
    PathConf,
    Commit,
    Unknown,
}

/// The procedure a number names: SYMLINK, MKNOD and LINK are not
/// supported, READDIRPLUS is answered as READDIR, numbers past COMMIT are
/// unknown.
pub open spec fn v3_proc_of(n: u32) -> V3Proc {
    if n == 0 { V3Proc::Null }
    else if n == 1 { V3Proc::GetAttr }
    else if n == 2 { V3Proc::SetAttr }
    else if n == 3 { V3Proc::Lookup }
    else if n == 4 { V3Proc::Access }
    else if n == 5 { V3Proc::ReadLink }
    else if n == 6 { V3Proc::Read }
    else if n == 7 { V3Proc::Write }
    else if n == 8 { V3Proc::Create }
    else if n == 9 { V3Proc::Mkdir }
    else if n == 10 || n == 11 || n == 15 { V3Proc::NotSupported }
    else if n == 12 { V3Proc::Remove }
    else if n == 13 { V3Proc::Rmdir }
    else if n == 14 { V3Proc::Rename }
    else if n == 16 || n == 17 { V3Proc::ReadDir }
    else if n == 18 { V3Proc::FsStat }
    else if n == 19 { V3Proc::FsInfo }
    else if n == 20 { V3Proc::PathConf }
    else if n == 21 { V3Proc::Commit }
    else { V3Proc::Unknown }
}

/// Each procedure the server carries out is named by its own RFC 1813
/// number and by no other: GETATTR 1, SETATTR 2, LOOKUP 3, ACCESS 4,
/// READLINK 5, READ 6, WRITE 7, CREATE 8, MKDIR 9, REMOVE 12, RMDIR 13,
/// RENAME 14, FSSTAT 18, FSINFO 19, PATHCONF 20, COMMIT 21 (NULL 0).
pub proof fn lemma_v3_numbers(n: u32)
    ensures
        v3_proc_of(n) == V3Proc::Null <==> n == 0,
        v3_proc_of(n) == V3Proc::GetAttr <==> n == 1,
        v3_proc_of(n) == V3Proc::SetAttr <==> n == 2,
        v3_proc_of(n) == V3Proc::Lookup <==> n == 3,
        v3_proc_of(n) == V3Proc::Access <==> n == 4,
        v3_proc_of(n) == V3Proc::ReadLink <==> n == 5,
        v3_proc_of(n) == V3Proc::Read <==> n == 6,
        v3_proc_of(n) == V3Proc::Write <==> n == 7,
        v3_proc_of(n) == V3Proc::Create <==> n == 8,
        v3_proc_of(n) == V3Proc::Mkdir <==> n == 9,
        v3_proc_of(n) == V3Proc::Remove <==> n == 12,
        v3_proc_of(n) == V3Proc::Rmdir <==> n == 13,
        v3_proc_of(n) == V3Proc::Rename <==> n == 14,
        v3_proc_of(n) == V3Proc::FsStat <==> n == 18,
        v3_proc_of(n) == V3Proc::FsInfo <==> n == 19,
        v3_proc_of(n) == V3Proc::PathConf <==> n == 20,
        v3_proc_of(n) == V3Proc::Commit <==> n == 21,
{
}

/// Two different procedure numbers that the server carries out never lead
/// to the same handling, except READDIR and READDIRPLUS, which are both
/// answered as READDIR.
pub proof fn lemma_v3_distinct(n: u32, m: u32)
    requires
        n != m,
        n <= 21 && m <= 21,
        !(n == 10 || n == 11 || n == 15) && !(m == 10 || m == 11 || m == 15),
        !((n == 16 || n == 17) && (m == 16 || m == 17)),
    ensures
        v3_proc_of(n) != v3_proc_of(m),
{
}

/// Computes [`v3_proc_of`].
pub fn v3_proc(n: u32) -> (r: V3Proc)
    ensures
        r == v3_proc_of(n),
{
    if n == 0 { V3Proc::Null }
    else if n == 1 { V3Proc::GetAttr }
    else if n == 2 { V3Proc::SetAttr }
    else if n == 3 { V3Proc::Lookup }
    else if n == 4 { V3Proc::Access }
    else if n == 5 { V3Proc::ReadLink }
    else if n == 6 { V3Proc::Read }
    else if n == 7 { V3Proc::Write }
    else if n == 8 { V3Proc::Create }
    else if n == 9 { V3Proc::Mkdir }
    else if n == 10 || n == 11 || n == 15 { V3Proc::NotSupported }
    else if n == 12 { V3Proc::Remove }
    else if n == 13 { V3Proc::Rmdir }
    else if n == 14 { V3Proc::Rename }
    else if n == 16 || n == 17 { V3Proc::ReadDir }
    else if n == 18 { V3Proc::FsStat }
    else if n == 19 { V3Proc::FsInfo }
    else if n == 20 { V3Proc::PathConf }
    else if n == 21 { V3Proc::Commit }
    else { V3Proc::Unknown }
}

/// The accepted-reply header: the request's xid bytes, REPLY, ACCEPTED, an
/// AUTH_NONE verifier and SUCCESS.
pub open spec fn v3_header(s: Seq<u8>) -> Seq<u8> {
    s.subrange(0, 4) + u32_bytes(1) + u32_bytes(0) + zeros(8) + u32_bytes(0)
}

/// Builds [`v3_header`].
pub fn make_v3_header(request: &[u8]) -> (r: Vec<u8>)
    requires
        request@.len() >= 4,
    ensures
        r@ == v3_header(request@),
{
    let mut r = copy_range(request, 0, 4);
    put_u32(&mut r, 1);
    put_u32(&mut r, 0);
    put_zeros(&mut r, 8);
    put_u32(&mut r, 0);
    r
}

/// A reply of a status and a FALSE post-op attribute flag.
pub open spec fn v3_error(s: Seq<u8>, status: u32) -> Seq<u8> {
    v3_header(s) + u32_bytes(status) + u32_bytes(0)
}

/// Builds [`v3_error`].
pub fn make_v3_error(request: &[u8], status: u32) -> (r: Vec<u8>)
    requires
        request@.len() >= 4,
    ensures
        r@ == v3_error(request@, status),
{
    let mut r = make_v3_header(request);
    put_u32(&mut r, status);
    put_u32(&mut r, 0);
    r
}

/// Empty weak cache consistency data (no pre-op, no post-op attributes).
pub open spec fn wcc() -> Seq<u8> {
    zeros(8)
}

/// What the server reports of a path: its metadata (`None` when it could
/// not be read) and its file ID.
#[derive(Clone, Copy, Debug, PartialEq, Eq)]
pub struct Attr3 {
    pub meta: Option<FileMeta>,
    pub fileid: u64,
}

/// The `fattr3` of a path: type, mode, one link, uid and gid 0, size (also
/// as space used), no device, file system 1, the file ID, and the
/// modification time's seconds (cut to 32 bits) as all three times.
pub open spec fn fattr3(a: Attr3) -> Seq<u8> {
    let is_dir = match a.meta { Some(m) => m.is_dir, None => false };
    let size = match a.meta { Some(m) => m.len, None => 0 };
    let mt = match a.meta {
        Some(m) => match m.modified { Some(t) => t.0, None => 0 },
        None => 0,
    };
    let t = u32_bytes(mt as u32) + u32_bytes(0);
    u32_bytes(if is_dir { NF3DIR } else { NF3REG }) + u32_bytes(if is_dir { 0o755u32 } else { 0o644u32 })
        + u32_bytes(1) + u32_bytes(0) + u32_bytes(0) + u64_bytes(size) + u64_bytes(size) + zeros(8) + u64_bytes(1)
        + u64_bytes(a.fileid) + t + t + t
}

/// Builds [`fattr3`].
pub fn build_fattr3(a: &Attr3) -> (r: Vec<u8>)
    ensures
        r@ == fattr3(*a),
{
    let is_dir = match a.meta { Some(m) => m.is_dir, None => false };
    let size = match a.meta { Some(m) => m.len, None => 0 };
    let mt: u64 = match a.meta {
        Some(m) => match m.modified { Some(t) => t.0, None => 0 },
        None => 0,
    };
    let mut r: Vec<u8> = Vec::new();
    put_u32(&mut r, if is_dir { NF3DIR } else { NF3REG });
    put_u32(&mut r, if is_dir { 0o755 } else { 0o644 });
    put_u32(&mut r, 1);
    put_u32(&mut r, 0);
    put_u32(&mut r, 0);
    put_u64(&mut r, size);
    put_u64(&mut r, size);
    put_zeros(&mut r, 8);
    put_u64(&mut r, 1);
    put_u64(&mut r, a.fileid);
    let mut k: usize = 0;
    let ghost before = r@;
    let ghost t = u32_bytes(mt as u32) + u32_bytes(0);
    while k < 3
        invariant
            k <= 3,
            r@ == before + (if k == 0 { Seq::empty() } else if k == 1 { t } else if k == 2 { t + t } else { t + t + t }),
            t == u32_bytes(mt as u32) + u32_bytes(0),
        decreases 3 - k,
    {
        let ghost prev = r@;
        put_u32(&mut r, mt as u32);
        put_u32(&mut r, 0);
        assert(r@ =~= prev + t);
        k += 1;
    }
    assert(r@ =~= fattr3(*a));
    r
}

/// Post-op attributes: FALSE, or TRUE and the `fattr3`.
pub open spec fn post_op(a: Option<Attr3>) -> Seq<u8> {
    match a {
        None => u32_bytes(0),
        Some(x) => u32_bytes(1) + fattr3(x),
    }
}

/// Appends [`post_op`].
pub fn put_post_op(out: &mut Vec<u8>, a: &Option<Attr3>)
    ensures
        final(out)@ == old(out)@ + post_op(*a),
{
    match a {
        None => put_u32(out, 0),
        Some(x) => {
            put_u32(out, 1);
            let f = build_fattr3(x);
            put_bytes(out, f.as_slice());
        }
    }
}

/// A file handle (`opaque<>`) at `off`: its bytes and the (clamped) bytes it
/// takes, when its bytes fit.
pub open spec fn fh_arg(s: Seq<u8>, off: int) -> Option<(Seq<u8>, int)> {
    if off + 4 > s.len() || off + 4 + be32(s, off) > s.len() {
        None
    } else {
        Some((s.subrange(off + 4, off + 4 + be32(s, off)), clamp(4 + pad4(be32(s, off) as int))))
    }
}

/// Reads a file handle argument.
pub fn parse_fh3(request: &[u8], off: usize) -> (r: Option<(Vec<u8>, usize)>)
    ensures
        match fh_arg(request@, off as int) {
            None => r is None,
            Some((fh, c)) => r matches Some((v, k)) && v@ == fh && k == c,
        },
{
    if off > request.len() || request.len() - off < 4 {
        return None;
    }
    let n = get_u32(request, off) as usize;
    if request.len() - off - 4 < n {
        return None;
    }
    Some((copy_range(request, off + 4, n), clamp_len(4 + (n as u64 + 3) / 4 * 4)))
}

/// A name argument at `off` (no padding check).
pub open spec fn name3_arg(s: Seq<u8>, off: int) -> Option<Seq<u8>> {
    if off + 4 > s.len() || off + 4 + be32(s, off) > s.len() {
        None
    } else {
        Some(s.subrange(off + 4, off + 4 + be32(s, off)))
    }
}

/// Reads a name argument.
fn parse_name3(request: &[u8], off: usize) -> (r: Option<Vec<u8>>)
    ensures
        match name3_arg(request@, off as int) {
            None => r is None,
            Some(n) => r matches Some(v) && v@ == n,
        },
{
    if off > request.len() || request.len() - off < 4 {
        return None;
    }
    let n = get_u32(request, off) as usize;
    if request.len() - off - 4 < n {
        return None;
    }
    Some(copy_range(request, off + 4, n))
}

/// The NULL reply.
pub fn v3_null(request: &[u8]) -> (r: Vec<u8>)
    requires
        request@.len() >= 4,
    ensures
        r@ == v3_header(request@),
{
    make_v3_header(request)
}

/// A procedure the server does not support: NOTSUPP.
pub fn v3_not_supported(request: &[u8]) -> (r: Vec<u8>)
    requires
        request@.len() >= 4,
    ensures
        r@ == v3_error(request@, NFS3ERR_NOTSUPP),
{
    make_v3_error(request, NFS3ERR_NOTSUPP)
}

/// COMMIT: OK, empty wcc data and a zero write verifier.
pub fn v3_commit(request: &[u8]) -> (r: Vec<u8>)
    requires
        request@.len() >= 4,
    ensures
        r@ == v3_header(request@) + u32_bytes(NFS3_OK) + wcc() + zeros(8),
{
    let mut r = make_v3_header(request);
    put_u32(&mut r, NFS3_OK);
    put_zeros(&mut r, 8);
    put_zeros(&mut r, 8);
    r
}

/// SETATTR: ROFS on a read-only export, otherwise OK (nothing is changed);
/// no reply when the handle is malformed.
pub fn v3_setattr(exports: &ExportsManager, request: &[u8], off: usize) -> (r: Option<Vec<u8>>)
    requires
        request@.len() >= 4,
    ensures
        match fh_arg(request@, off as int) {
            None => r is None,
            Some((fh, _c)) => r matches Some(v) && v@ == v3_header(request@)
                + u32_bytes(if read_only(*exports, fh) { NFS3ERR_ROFS } else { NFS3_OK }) + wcc(),
        },
{
    let (fh, _c) = match parse_fh3(request, off) {
        None => return None,
        Some(v) => v,
    };
    let status = if exports.is_read_only(fh.as_slice()) { NFS3ERR_ROFS } else { NFS3_OK };
    let mut r = make_v3_header(request);
    put_u32(&mut r, status);
    put_zeros(&mut r, 8);
    Some(r)
}

/// For a procedure that only reports a handle's attributes: the path the
/// handle resolves to (`Some(None)` when it does not), or `None` when the
/// handle is malformed (no reply).
pub fn plan_v3_attrs(exports: &ExportsManager, request: &[u8], off: usize) -> (r: Option<Option<Vec<u8>>>)
    ensures
        match fh_arg(request@, off as int) {
            None => r is None,
            Some((fh, _c)) => r matches Some(p) && path_view(&p) == path_of(*exports, fh),
        },
{
    let (fh, _c) = match parse_fh3(request, off) {
        None => return None,
        Some(v) => v,
    };
    Some(exports.resolve_fh(fh.as_slice()))
}

/// GETATTR's reply from the attributes of the handle's path (of `.` when it
/// does not resolve).
pub fn v3_getattr_reply(request: &[u8], a: &Attr3) -> (r: Vec<u8>)
    requires
        request@.len() >= 4,
    ensures
        r@ == v3_header(request@) + u32_bytes(NFS3_OK) + fattr3(*a),
{
    let mut r = make_v3_header(request);
    put_u32(&mut r, NFS3_OK);
    let f = build_fattr3(a);
    put_bytes(&mut r, f.as_slice());
    r
}

/// The part of the FSSTAT reply after the attributes: 100 GiB total, 50 GiB
/// free and available, a million files, half a million free, and 0.
pub open spec fn fsstat_tail() -> Seq<u8> {
    u64_bytes(107374182400) + u64_bytes(53687091200) + u64_bytes(53687091200) + u64_bytes(1000000)
        + u64_bytes(500000) + u32_bytes(0)
}

/// The part of the FSINFO reply after the attributes: 64 KiB read, write
/// and directory transfer sizes in 4 KiB multiples, no size limit, a 1 ns
/// time granularity, and links, symlinks, homogeneous, settable times.
pub open spec fn fsinfo_tail() -> Seq<u8> {
    u32_bytes(65536) + u32_bytes(65536) + u32_bytes(4096) + u32_bytes(65536) + u32_bytes(65536) + u32_bytes(4096)
        + u32_bytes(65536) + u64_bytes(u64::MAX) + u32_bytes(0) + u32_bytes(1) + u32_bytes(0x1B)
}

/// The part of the PATHCONF reply after the attributes: 1024 links, 255-byte
/// names, no truncation flag, chown not restricted, case insensitive and
/// case preserving.
pub open spec fn pathconf_tail() -> Seq<u8> {
    u32_bytes(1024) + u32_bytes(255) + u32_bytes(0) + u32_bytes(0) + u32_bytes(1) + u32_bytes(1)
}

/// Which attribute-reporting procedure a reply is for.
#[derive(Clone, Copy, Debug, PartialEq, Eq)]
pub enum AttrProc {
    Access,
    ReadLink,
    FsStat,
    FsInfo,
    PathConf,
}

/// What follows the attributes in the reply of `which`: all access rights
/// for ACCESS, an empty link for READLINK.
pub open spec fn attr_tail(which: AttrProc) -> Seq<u8> {
    match which {
        AttrProc::Access => u32_bytes(0x3F),
        AttrProc::ReadLink => u32_bytes(0),
        AttrProc::FsStat => fsstat_tail(),
        AttrProc::FsInfo => fsinfo_tail(),
        AttrProc::PathConf => pathconf_tail(),
    }
}

/// ACCESS, READLINK, FSSTAT, FSINFO and PATHCONF: OK, the post-op
/// attributes of the handle's path, and the procedure's fixed part.
pub fn v3_attr_reply(request: &[u8], which: AttrProc, a: &Option<Attr3>) -> (r: Vec<u8>)
    requires
        request@.len() >= 4,
    ensures
        r@ == v3_header(request@) + u32_bytes(NFS3_OK) + post_op(*a) + attr_tail(which),
{
    let mut r = make_v3_header(request);
    put_u32(&mut r, NFS3_OK);
    put_post_op(&mut r, a);
    let ghost before = r@;
    match which {
        AttrProc::Access => put_u32(&mut r, 0x3F),
        AttrProc::ReadLink => put_u32(&mut r, 0),
        AttrProc::FsStat => {
            put_u64(&mut r, 107374182400);
            put_u64(&mut r, 53687091200);
            put_u64(&mut r, 53687091200);
            put_u64(&mut r, 1000000);
            put_u64(&mut r, 500000);
            put_u32(&mut r, 0);
        }
        AttrProc::FsInfo => {
            put_u32(&mut r, 65536);
            put_u32(&mut r, 65536);
            put_u32(&mut r, 4096);
            put_u32(&mut r, 65536);
            put_u32(&mut r, 65536);
            put_u32(&mut r, 4096);
            put_u32(&mut r, 65536);
            put_u64(&mut r, u64::MAX);
            put_u32(&mut r, 0);
            put_u32(&mut r, 1);
            put_u32(&mut r, 0x1B);
        }
        AttrProc::PathConf => {
            put_u32(&mut r, 1024);
            put_u32(&mut r, 255);
            put_u32(&mut r, 0);
            put_u32(&mut r, 0);
            put_u32(&mut r, 1);
            put_u32(&mut r, 1);
        }
    }
    assert(r@ =~= before + attr_tail(which));
    r
}


/// What LOOKUP does next.
pub enum V3LookupStep {
    /// Answered (`None`: no reply).
    Reply(Option<Vec<u8>>),
    /// Check `child` (as for NFSv4 LOOKUP) and report it and its directory.
    Child { dir_fh: Vec<u8>, child: Vec<u8>, root: Vec<u8>, dir: Vec<u8> },
}

/// LOOKUP, first half: malformed arguments get no reply; an unsafe name or
/// a directory handle that does not resolve gets NOENT.
pub fn plan_v3_lookup(exports: &ExportsManager, request: &[u8], off: usize) -> (r: V3LookupStep)
    requires
        request@.len() >= 4,
    ensures
        match fh_arg(request@, off as int) {
            None => r matches V3LookupStep::Reply(x) && x is None,
            Some((fh, c)) => match name3_arg(request@, clamp(off + c)) {
                None => r matches V3LookupStep::Reply(x) && x is None,
                Some(name) => if !crate::exports::safe_name(name) || path_of(*exports, fh) is None {
                    r matches V3LookupStep::Reply(x) && (x matches Some(v) && v@ == v3_error(request@, NFS3ERR_NOENT))
                } else {
                    let dir = path_of(*exports, fh).unwrap();
                    r matches V3LookupStep::Child { dir_fh, child, root, dir: d } && dir_fh@ == fh
                        && child@ == join(dir, name) && root@ == root_or(*exports, fh, dir) && d@ == dir
                },
            },
        },
{
    let (fh, c) = match parse_fh3(request, off) {
        None => return V3LookupStep::Reply(None),
        Some(v) => v,
    };
    let name = match parse_name3(request, add_clamped(off, c as u64)) {
        None => return V3LookupStep::Reply(None),
        Some(n) => n,
    };
    match exports.lookup_child_target(fh.as_slice(), name.as_slice()) {
        None => V3LookupStep::Reply(Some(make_v3_error(request, NFS3ERR_NOENT))),
        Some((child, root)) => {
            let dir = match exports.resolve_fh(fh.as_slice()) {
                Some(d) => d,
                None => Vec::new(),
            };
            V3LookupStep::Child { dir_fh: fh, child, root, dir }
        },
    }
}

/// LOOKUP, second half: as for NFSv4, the child must lie under the export
/// root; then OK with its handle, its attributes and the directory's.
pub fn finish_v3_lookup(
    exports: &mut ExportsManager,
    request: &[u8],
    child: &[u8],
    root: &[u8],
    exists: bool,
    canonical_child: &Option<Vec<u8>>,
    canonical_root: &[u8],
    child_attr: &Attr3,
    dir_attr: &Option<Attr3>,
    salt: u32,
) -> (r: Vec<u8>)
    requires
        request@.len() >= 4,
        old(exports).wf(),
        index_by_path(old(exports).handle_list(), child@) is None ==> old(exports).fh_counter < u64::MAX,
    ensures
        final(exports).wf(),
        final(exports).exports == old(exports).exports,
        final(exports).fh_hmac_key == old(exports).fh_hmac_key,
        final(exports).config == old(exports).config,
        ({
            let allowed = if exists {
                match path_view(canonical_child) {
                    Some(cc) => within(cc, canonical_root@),
                    None => false,
                }
            } else {
                starts_with(child@, root@)
            };
            if allowed {
                let fh = handle_for_path(*old(exports), child@, salt);
                &&& r@ == v3_header(request@) + u32_bytes(NFS3_OK) + u32_bytes(fh.len() as u32) + fh
                    + post_op(Some(*child_attr)) + post_op(*dir_attr)
                &&& final(exports).handle_list() == handles_after_path(*old(exports), child@, root@)
                &&& final(exports).fh_counter == counter_after_path(*old(exports), child@)
            } else {
                r@ == v3_error(request@, NFS3ERR_NOENT) && *final(exports) == *old(exports)
            }
        }),
{
    let o = crate::nfs4_fs::finish_lookup_child(exports, child, root, exists, canonical_child, canonical_root, 0, salt);
    match o.new_fh {
        None => make_v3_error(request, NFS3ERR_NOENT),
        Some(fh) => {
            let mut r = make_v3_header(request);
            put_u32(&mut r, NFS3_OK);
            put_u32(&mut r, fh.len() as u32);
            put_bytes(&mut r, fh.as_slice());
            put_post_op(&mut r, &Some(*child_attr));
            put_post_op(&mut r, dir_attr);
            r
        },
    }
}

/// What READ needs: the file (if the handle resolves), offset and count.
pub struct V3ReadPlan {
    pub path: Option<Vec<u8>>,
    pub offset: u64,
    pub count: u32,
}

/// READ, first half; `None` (no reply) for malformed arguments.
pub fn plan_v3_read(exports: &ExportsManager, request: &[u8], off: usize) -> (r: Option<V3ReadPlan>)
    ensures
        match fh_arg(request@, off as int) {
            None => r is None,
            Some((fh, c)) => if clamp(off + c) + 12 > request@.len() {
                r is None
            } else {
                r matches Some(q) && path_view(&q.path) == path_of(*exports, fh)
                    && q.offset == be64(request@, off + c) && q.count == be32(request@, off + c + 8)
            },
        },
{
    let (fh, c) = match parse_fh3(request, off) {
        None => return None,
        Some(v) => v,
    };
    let a = add_clamped(off, c as u64);
    if a > request.len() || request.len() - a < 12 {
        return None;
    }
    Some(V3ReadPlan { path: exports.resolve_fh(fh.as_slice()), offset: get_u64(request, a), count: get_u32(request, a + 8) })
}

/// The bytes READ returns and whether they reach the end: from the whole
/// file's contents, or nothing and end of file when there are none.
pub open spec fn v3_read_data(data: Option<Seq<u8>>, offset: u64, count: u32) -> (Seq<u8>, bool) {
    match data {
        None => (Seq::empty(), true),
        Some(d) => {
            let start = if offset < d.len() { offset as int } else { d.len() as int };
            let end = if start + count < d.len() { start + count } else { d.len() as int };
            (d.subrange(start, end), end >= d.len())
        },
    }
}

/// READ, second half: OK, the file's post-op attributes, the count, end of
/// file, and the bytes; `data` is the whole file (`None` when the handle
/// did not resolve or reading failed).
pub fn finish_v3_read(request: &[u8], q: &V3ReadPlan, attr: &Option<Attr3>, data: &Option<Vec<u8>>) -> (r: Vec<u8>)
    requires
        request@.len() >= 4,
    ensures
        ({
            let (d, eof) = v3_read_data(path_view(data), q.offset, q.count);
            r@ == v3_header(request@) + u32_bytes(NFS3_OK) + post_op(*attr) + u32_bytes(d.len() as u32)
                + u32_bytes(if eof { 1u32 } else { 0u32 }) + opaque_bytes(d)
        }),
{
    let (d, eof): (Vec<u8>, bool) = match data {
        None => (Vec::new(), true),
        Some(all) => {
            let len = all.len() as u64;
            let start: u64 = if q.offset < len { q.offset } else { len };
            let end: u64 = if (q.count as u64) < len - start { start + q.count as u64 } else { len };
            (copy_range(all.as_slice(), start as usize, (end - start) as usize), end >= len)
        },
    };
    let mut r = make_v3_header(request);
    put_u32(&mut r, NFS3_OK);
    put_post_op(&mut r, attr);
    put_u32(&mut r, d.len() as u32);
    put_u32(&mut r, if eof { 1 } else { 0 });
    put_opaque(&mut r, d.as_slice());
    r
}

/// The WRITE reply for a count written: OK (or ROFS), empty wcc data, the
/// count, FILE_SYNC and a zero verifier.
pub open spec fn v3_write_reply(s: Seq<u8>, status: u32, count: u32) -> Seq<u8> {
    v3_header(s) + u32_bytes(status) + wcc() + u32_bytes(count) + u32_bytes(2) + zeros(8)
}

/// Builds [`v3_write_reply`].
fn make_v3_write_reply(request: &[u8], status: u32, count: u32) -> (r: Vec<u8>)
    requires
        request@.len() >= 4,
    ensures
        r@ == v3_write_reply(request@, status, count),
{
    let mut r = make_v3_header(request);
    put_u32(&mut r, status);
    put_zeros(&mut r, 8);
    put_u32(&mut r, count);
    put_u32(&mut r, 2);
    put_zeros(&mut r, 8);
    r
}

/// What WRITE does next.
pub enum V3WriteStep {
    /// Answered (`None`: no reply).
    Reply(Option<Vec<u8>>),
    /// Write `data` at `offset` of the file (when the handle resolves).
    Write { path: Option<Vec<u8>>, offset: u64, data: Vec<u8> },
}

/// WRITE, first half: ROFS on a read-only export; no reply for malformed
/// arguments.
pub fn plan_v3_write(exports: &ExportsManager, request: &[u8], off: usize) -> (r: V3WriteStep)
    requires
        request@.len() >= 4,
    ensures
        match fh_arg(request@, off as int) {
            None => r matches V3WriteStep::Reply(x) && x is None,
            Some((fh, c)) => if read_only(*exports, fh) {
                r matches V3WriteStep::Reply(x) && (x matches Some(v) && v@ == v3_write_reply(request@, NFS3ERR_ROFS, 0))
            } else {
                let a = clamp(off + c);
                if a + 20 > request@.len() || a + 20 + be32(request@, a + 16) > request@.len() {
                    r matches V3WriteStep::Reply(x) && x is None
                } else {
                    r matches V3WriteStep::Write { path, offset, data } && path_view(&path) == path_of(*exports, fh)
                        && offset == be64(request@, a) && data@ == request@.subrange(a + 20, a + 20 + be32(request@, a + 16))
                }
            },
        },
{
    let (fh, c) = match parse_fh3(request, off) {
        None => return V3WriteStep::Reply(None),
        Some(v) => v,
    };
    if exports.is_read_only(fh.as_slice()) {
        return V3WriteStep::Reply(Some(make_v3_write_reply(request, NFS3ERR_ROFS, 0)));
    }
    let a = add_clamped(off, c as u64);
    if a > request.len() || request.len() - a < 20 {
        return V3WriteStep::Reply(None);
    }
    let n = get_u32(request, a + 16) as usize;
    if request.len() - a - 20 < n {
        return V3WriteStep::Reply(None);
    }
    V3WriteStep::Write { path: exports.resolve_fh(fh.as_slice()), offset: get_u64(request, a), data: copy_range(request, a + 20, n) }
}

/// The file's contents after writing `data` at `offset`: grown with zeros
/// when it is too short, then overwritten.
pub open spec fn merged(old: Seq<u8>, offset: int, data: Seq<u8>) -> Seq<u8> {
    let end = offset + data.len();
    let grown = if old.len() < end { old + zeros(end - old.len()) } else { old };
    Seq::new(grown.len(), |i: int| if offset <= i < end { data[i - offset] } else { grown[i] })
}

/// Computes [`merged`].
pub fn merge_write(old: &[u8], offset: usize, data: &[u8]) -> (r: Vec<u8>)
    requires
        offset + data@.len() <= usize::MAX,
    ensures
        r@ == merged(old@, offset as int, data@),
{
    let end = offset + data.len();
    let mut r = copy_range(old, 0, old.len());
    assert(old@.subrange(0, old@.len() as int) =~= old@);
    if r.len() < end {
        let extra = end - r.len();
        put_zeros(&mut r, extra);
    }
    let ghost grown = r@;
    let mut i: usize = 0;
    while i < data.len()
        invariant
            i <= data@.len(),
            end == offset + data@.len(),
            grown.len() >= end,
            r@.len() == grown.len(),
            forall|k: int| 0 <= k < r@.len() ==> #[trigger] r@[k] == (if offset <= k < offset + i { data@[k - offset] } else { grown[k] }),
        decreases data@.len() - i,
    {
        r.set(offset + i, data[i]);
        i += 1;
    }
    assert(grown =~= (if old@.len() < end { old@ + zeros(end - old@.len()) } else { old@ }));
    assert(r@ =~= merged(old@, offset as int, data@));
    r
}

/// READ at the offset of a WRITE, for the written length, gives back the
/// written bytes: the file after the write ([`merged`]) holds them there.
pub proof fn lemma_read_sees_write(old: Seq<u8>, offset: u64, data: Seq<u8>)
    requires
        data.len() <= u32::MAX,
    ensures
        v3_read_data(Some(merged(old, offset as int, data)), offset, data.len() as u32).0 == data,
{
    let m = merged(old, offset as int, data);
    let (d, _eof) = v3_read_data(Some(m), offset, data.len() as u32);
    assert(m.len() >= offset + data.len());
    if data.len() > 0 {
        assert(d =~= data);
    } else {
        assert(d =~= data);
    }
}

/// WRITE, second half: the count written (the data's length when the
/// write went through, 0 otherwise).
pub fn finish_v3_write(request: &[u8], data_len: usize, written: bool) -> (r: Vec<u8>)
    requires
        request@.len() >= 4,
        data_len <= u32::MAX,
    ensures
        r@ == v3_write_reply(request@, NFS3_OK, if written { data_len as u32 } else { 0u32 }),
{
    make_v3_write_reply(request, NFS3_OK, if written { data_len as u32 } else { 0 })
}

/// A status reply with `n` empty wcc data.
pub open spec fn v3_status_wcc(s: Seq<u8>, status: u32, n: nat) -> Seq<u8> {
    v3_header(s) + u32_bytes(status) + zeros((8 * n) as int)
}

/// Builds [`v3_status_wcc`].
pub fn make_v3_status_wcc(request: &[u8], status: u32, n: usize) -> (r: Vec<u8>)
    requires
        request@.len() >= 4,
        n <= 2,
    ensures
        r@ == v3_status_wcc(request@, status, n as nat),
{
    let mut r = make_v3_header(request);
    put_u32(&mut r, status);
    put_zeros(&mut r, 8 * n);
    r
}

/// What CREATE, MKDIR, REMOVE and RMDIR do next.
pub enum V3DirStep {
    /// Answered (`None`: no reply).
    Reply(Option<Vec<u8>>),
    /// Act on `target` inside the directory; `root` is the export root.
    Target { target: Vec<u8>, root: Vec<u8> },
}

/// CREATE, MKDIR, REMOVE and RMDIR, first half: ROFS on a read-only export
/// and STALE for a directory that does not resolve (with `wccs` empty wcc
/// data: two for RMDIR, one otherwise); no reply for malformed arguments.
pub fn plan_v3_dir_op(exports: &ExportsManager, request: &[u8], off: usize, wccs: usize) -> (r: V3DirStep)
    requires
        request@.len() >= 4,
        wccs <= 2,
    ensures
        match fh_arg(request@, off as int) {
            None => r matches V3DirStep::Reply(x) && x is None,
            Some((fh, c)) => if read_only(*exports, fh) {
                r matches V3DirStep::Reply(x) && (x matches Some(v) && v@ == v3_status_wcc(request@, NFS3ERR_ROFS, wccs as nat))
            } else {
                match name3_arg(request@, clamp(off + c)) {
                    None => r matches V3DirStep::Reply(x) && x is None,
                    Some(name) => match path_of(*exports, fh) {
                        None => r matches V3DirStep::Reply(x) && (x matches Some(v) && v@ == v3_status_wcc(request@, NFS3ERR_STALE, wccs as nat)),
                        Some(dir) => r matches V3DirStep::Target { target, root } && target@ == join(dir, name)
                            && root@ == root_or(*exports, fh, dir),
                    },
                }
            },
        },
{
    let (fh, c) = match parse_fh3(request, off) {
        None => return V3DirStep::Reply(None),
        Some(v) => v,
    };
    if exports.is_read_only(fh.as_slice()) {
        return V3DirStep::Reply(Some(make_v3_status_wcc(request, NFS3ERR_ROFS, wccs)));
    }
    let name = match parse_name3(request, add_clamped(off, c as u64)) {
        None => return V3DirStep::Reply(None),
        Some(n) => n,
    };
    match exports.resolve_fh(fh.as_slice()) {
        None => V3DirStep::Reply(Some(make_v3_status_wcc(request, NFS3ERR_STALE, wccs))),
        Some(dir) => {
            let target = join_path(dir.as_slice(), name.as_slice());
            let root = match exports.get_fh_export_root(fh.as_slice()) {
                Some(x) => x,
                None => dir,
            };
            V3DirStep::Target { target, root }
        },
    }
}

/// CREATE and MKDIR, second half (whatever creating gave): OK with the new
/// object's handle, its attributes and empty wcc data.
pub fn finish_v3_create(exports: &mut ExportsManager, request: &[u8], target: &[u8], root: &[u8], attr: &Attr3, salt: u32) -> (r: Vec<u8>)
    requires
        request@.len() >= 4,
        old(exports).wf(),
        index_by_path(old(exports).handle_list(), target@) is None ==> old(exports).fh_counter < u64::MAX,
    ensures
        final(exports).wf(),
        final(exports).exports == old(exports).exports,
        final(exports).fh_hmac_key == old(exports).fh_hmac_key,
        final(exports).config == old(exports).config,
        final(exports).handle_list() == handles_after_path(*old(exports), target@, root@),
        final(exports).fh_counter == counter_after_path(*old(exports), target@),
        ({
            let fh = handle_for_path(*old(exports), target@, salt);
            r@ == v3_header(request@) + u32_bytes(NFS3_OK) + u32_bytes(1) + u32_bytes(fh.len() as u32) + fh
                + post_op(Some(*attr)) + wcc()
        }),
{
    let fh = exports.get_or_create_fh(target, root, salt);
    let mut r = make_v3_header(request);
    put_u32(&mut r, NFS3_OK);
    put_u32(&mut r, 1);
    put_u32(&mut r, fh.len() as u32);
    put_bytes(&mut r, fh.as_slice());
    put_post_op(&mut r, &Some(*attr));
    put_zeros(&mut r, 8);
    r
}

/// REMOVE and RMDIR, second half: NOENT when the target does not exist, OK
/// when removing went through, otherwise IO (REMOVE) or NOTEMPTY (RMDIR).
pub fn finish_v3_remove(request: &[u8], exists: bool, removed: bool, rmdir: bool) -> (r: Vec<u8>)
    requires
        request@.len() >= 4,
    ensures
        r@ == v3_status_wcc(request@,
            if !exists { NFS3ERR_NOENT } else if removed { NFS3_OK } else if rmdir { NFS3ERR_NOTEMPTY } else { NFS3ERR_IO },
            if rmdir { 2nat } else { 1nat }),
{
    let status = if !exists { NFS3ERR_NOENT } else if removed { NFS3_OK } else if rmdir { NFS3ERR_NOTEMPTY } else { NFS3ERR_IO };
    make_v3_status_wcc(request, status, if rmdir { 2 } else { 1 })
}

/// RENAME's names lie inside the request: the source name after the source
/// handle, and the target name after the target handle (both present).
pub open spec fn v3_rename_names_fit(s: Seq<u8>, off: int) -> bool {
    match fh_arg(s, off) {
        None => true,
        Some((_fh, c)) => {
            let a = off + c;
            a + 4 > s.len() || ({
                let n = be32(s, a);
                a + 4 + n <= s.len() && match fh_arg(s, a + 4 + pad4(n as int)) {
                    None => true,
                    Some((_g, d)) => {
                        let b = a + 4 + pad4(n as int) + d;
                        b + 4 > s.len() || b + 4 + be32(s, b) <= s.len()
                    },
                }
            })
        },
    }
}

/// What RENAME does next.
pub enum V3RenameStep {
    /// Answered (`None`: no reply).
    Reply(Option<Vec<u8>>),
    /// Move `from` to `to`.
    Move { from: Vec<u8>, to: Vec<u8> },
}

/// RENAME, first half. The caller makes sure the names lie inside the
/// request ([`v3_rename_names_fit`]).
pub fn plan_v3_rename(exports: &ExportsManager, request: &[u8], off: usize) -> (r: V3RenameStep)
    requires
        request@.len() >= 4,
        request@.len() + 8 < usize::MAX,
        v3_rename_names_fit(request@, off as int),
    ensures
        match fh_arg(request@, off as int) {
            None => r matches V3RenameStep::Reply(x) && x is None,
            Some((ffh, c)) => if read_only(*exports, ffh) {
                r matches V3RenameStep::Reply(x) && (x matches Some(v) && v@ == v3_status_wcc(request@, NFS3ERR_ROFS, 2))
            } else {
                let a = off + c;
                if a + 4 > request@.len() {
                    r matches V3RenameStep::Reply(x) && x is None
                } else {
                    let n = be32(request@, a);
                    let from_name = request@.subrange(a + 4, a + 4 + n);
                    let t = a + 4 + pad4(n as int);
                    match fh_arg(request@, t) {
                        None => r matches V3RenameStep::Reply(x) && x is None,
                        Some((tfh, d)) => {
                            let b = t + d;
                            if b + 4 > request@.len() {
                                r matches V3RenameStep::Reply(x) && x is None
                            } else {
                                let to_name = request@.subrange(b + 4, b + 4 + be32(request@, b));
                                match (path_of(*exports, ffh), path_of(*exports, tfh)) {
                                    (Some(fd), Some(td)) => r matches V3RenameStep::Move { from, to }
                                        && from@ == join(fd, from_name) && to@ == join(td, to_name),
                                    _ => r matches V3RenameStep::Reply(x) && (x matches Some(v) && v@ == v3_status_wcc(request@, NFS3ERR_STALE, 2)),
                                }
                            }
                        },
                    }
                }
            },
        },
{
    let (ffh, c) = match parse_fh3(request, off) {
        None => return V3RenameStep::Reply(None),
        Some(v) => v,
    };
    if exports.is_read_only(ffh.as_slice()) {
        return V3RenameStep::Reply(Some(make_v3_status_wcc(request, NFS3ERR_ROFS, 2)));
    }
    proof { crate::xdr::lemma_pad_mod(be32(request@, off as int) as int); }
    let a = off + c;
    if a > request.len() || request.len() - a < 4 {
        return V3RenameStep::Reply(None);
    }
    let n = get_u32(request, a) as usize;
    let from_name = copy_range(request, a + 4, n);
    proof { crate::xdr::lemma_pad_mod(n as int); }
    let t = a + 4 + (n + 3) / 4 * 4;
    let (tfh, d) = match parse_fh3(request, t) {
        None => return V3RenameStep::Reply(None),
        Some(v) => v,
    };
    proof { crate::xdr::lemma_pad_mod(be32(request@, t as int) as int); }
    let b = t + d;
    if b > request.len() || request.len() - b < 4 {
        return V3RenameStep::Reply(None);
    }
    let m = get_u32(request, b) as usize;
    let to_name = copy_range(request, b + 4, m);
    let fd = exports.resolve_fh(ffh.as_slice());
    let td = exports.resolve_fh(tfh.as_slice());
    match (fd, td) {
        (Some(fd), Some(td)) => V3RenameStep::Move {
            from: join_path(fd.as_slice(), from_name.as_slice()),
            to: join_path(td.as_slice(), to_name.as_slice()),
        },
        _ => V3RenameStep::Reply(Some(make_v3_status_wcc(request, NFS3ERR_STALE, 2))),
    }
}

/// RENAME, second half: OK or IO, with two empty wcc data.
pub fn finish_v3_rename(request: &[u8], renamed: bool) -> (r: Vec<u8>)
    requires
        request@.len() >= 4,
    ensures
        r@ == v3_status_wcc(request@, if renamed { NFS3_OK } else { NFS3ERR_IO }, 2),
{
    make_v3_status_wcc(request, if renamed { NFS3_OK } else { NFS3ERR_IO }, 2)
}

/// Checks [`v3_rename_names_fit`].
pub fn rename_names_fit(request: &[u8], off: usize) -> (r: bool)
    requires
        request@.len() + 8 < usize::MAX,
    ensures
        r == v3_rename_names_fit(request@, off as int),
{
    let len = request.len();
    let (_f, c) = match parse_fh3(request, off) {
        None => return true,
        Some(v) => v,
    };
    proof { crate::xdr::lemma_pad_mod(be32(request@, off as int) as int); }
    let a = off + c;
    if a > len || len - a < 4 {
        return true;
    }
    let n = get_u32(request, a) as usize;
    if len - a - 4 < n {
        return false;
    }
    proof { crate::xdr::lemma_pad_mod(n as int); }
    let t = a + 4 + (n + 3) / 4 * 4;
    let (_g, d) = match parse_fh3(request, t) {
        None => return true,
        Some(v) => v,
    };
    proof { crate::xdr::lemma_pad_mod(be32(request@, t as int) as int); }
    let b = t + d;
    if b > len || len - b < 4 {
        return true;
    }
    len - b - 4 >= get_u32(request, b) as usize
}

/// An NFSv3 directory entry: its name, full path and file ID.
pub struct V3Entry {
    pub name: Vec<u8>,
    pub path: Vec<u8>,
    pub fileid: u64,
}

/// The value of an entry: name, path, file ID.
pub open spec fn v3_entry_view(e: V3Entry) -> (Seq<u8>, Seq<u8>, u64) {
    (e.name@, e.path@, e.fileid)
}

/// The `entry3` list for the first `n` entries, cookies counting from 1.
pub open spec fn v3_listing(es: Seq<V3Entry>, n: nat) -> Seq<u8>
    decreases n,
{
    if n == 0 {
        Seq::empty()
    } else {
        let e = es[n - 1];
        v3_listing(es, (n - 1) as nat) + u32_bytes(1) + u64_bytes(e.fileid) + opaque_bytes(e.name@) + u64_bytes(n as u64)
    }
}

/// The handle entries and counter after registering the paths of the first
/// `n` entries under `root`.
pub open spec fn v3_fold(hs: Seq<FhView>, c: u64, es: Seq<V3Entry>, root: Seq<u8>, n: nat) -> (Seq<FhView>, u64)
    decreases n,
{
    if n == 0 {
        (hs, c)
    } else {
        let prev = v3_fold(hs, c, es, root, (n - 1) as nat);
        let p = es[n - 1].path@;
        match index_by_path(prev.0, p) {
            Some(_) => prev,
            None => (prev.0.push(FhView { fhid: prev.1, real_path: p, export_root: root, inode: crate::exports::fnv1a(p), gen: 1 }),
                (prev.1 + 1) as u64),
        }
    }
}

/// What READDIR needs: the directory (when the handle resolves) and its
/// export root.
pub fn plan_v3_readdir(exports: &ExportsManager, request: &[u8], off: usize) -> (r: Option<Option<(Vec<u8>, Vec<u8>)>>)
    ensures
        match fh_arg(request@, off as int) {
            None => r is None,
            Some((fh, _c)) => match path_of(*exports, fh) {
                None => r matches Some(x) && x is None,
                Some(dir) => r matches Some(x) && (x matches Some((d, root)) && d@ == dir && root@ == root_or(*exports, fh, dir)),
            },
        },
{
    let (fh, _c) = match parse_fh3(request, off) {
        None => return None,
        Some(v) => v,
    };
    match exports.resolve_fh(fh.as_slice()) {
        None => Some(None),
        Some(dir) => {
            let root = match exports.get_fh_export_root(fh.as_slice()) {
                Some(x) => x,
                None => crate::exports::clone_bytes(&dir),
            };
            Some(Some((dir, root)))
        },
    }
}

/// READDIR (and READDIRPLUS), second half, from the directory's entries in
/// the order the file system gave them (none when the directory could not
/// be read): OK, the directory's attributes, a zero verifier, every entry
/// (registering a handle under `root` for each), and end of file.
#[verifier::spinoff_prover]
#[verifier::rlimit(30)]
pub fn finish_v3_readdir(exports: &mut ExportsManager, request: &[u8], dir_attr: &Option<Attr3>, entries: &Vec<V3Entry>, root: &[u8], salt: u32) -> (r: Vec<u8>)
    requires
        request@.len() >= 4,
        old(exports).wf(),
        old(exports).fh_counter + entries@.len() < u64::MAX,
    ensures
        final(exports).wf(),
        final(exports).exports == old(exports).exports,
        final(exports).fh_hmac_key == old(exports).fh_hmac_key,
        final(exports).config == old(exports).config,
        (final(exports).handle_list(), final(exports).fh_counter)
            == v3_fold(old(exports).handle_list(), old(exports).fh_counter, entries@, root@, entries@.len()),
        r@ == v3_header(request@) + u32_bytes(NFS3_OK) + post_op(*dir_attr) + zeros(8)
            + v3_listing(entries@, entries@.len()) + u32_bytes(0) + u32_bytes(1),
{
    let ghost h0 = exports.handle_list();
    let ghost c0 = exports.fh_counter;
    let mut r = make_v3_header(request);
    put_u32(&mut r, NFS3_OK);
    put_post_op(&mut r, dir_attr);
    put_zeros(&mut r, 8);
    let ghost head = r@;
    let mut k: usize = 0;
    while k < entries.len()
        invariant
            k <= entries@.len(),
            c0 + entries@.len() < u64::MAX,
            exports.wf(),
            exports.exports == old(exports).exports,
            exports.fh_hmac_key == old(exports).fh_hmac_key,
            exports.config == old(exports).config,
            (exports.handle_list(), exports.fh_counter) == v3_fold(h0, c0, entries@, root@, k as nat),
            c0 <= exports.fh_counter <= c0 + k,
            r@ == head + v3_listing(entries@, k as nat),
        decreases entries@.len() - k,
    {
        let e = &entries[k];
        let _fh = exports.get_or_create_fh(e.path.as_slice(), root, salt);
        let ghost before = r@;
        put_u32(&mut r, 1);
        put_u64(&mut r, e.fileid);
        put_opaque(&mut r, e.name.as_slice());
        put_u64(&mut r, (k + 1) as u64);
        assert(r@ =~= head + v3_listing(entries@, (k + 1) as nat));
        k += 1;
    }
    put_u32(&mut r, 0);
    put_u32(&mut r, 1);
    r
}

} // verus!
