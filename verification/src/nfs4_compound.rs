//! The NFSv4 RPC call and its COMPOUND procedure: the call header, the
//! COMPOUND header, the walk over the operations (stopping at the first
//! failure), root squashing of writes, and the reply body.
//!
//! The caller runs the walk: it asks [`Compound::next_op`] for the next
//! operation, has it carried out (by the operation functions of this
//! library, with file system work where the operation needs it), and hands
//! the outcome to [`Compound::record`]; [`Compound::reply_body`] then gives
//! the COMPOUND result.

use vstd::prelude::*;
use crate::exports::{fh_export_options, ExportsManager};
use crate::nfs4_consts::{
    MAX_OPS_PER_COMPOUND, NFS4ERR_BADXDR, NFS4ERR_MINOR_VERS_MISMATCH, NFS4ERR_NOTSUPP, NFS4ERR_OP_ILLEGAL,
    NFS4ERR_PERM, NFS4ERR_RESOURCE, NFS4_OK, OP_ACCESS, OP_ALLOCATE, OP_BIND_CONN_TO_SESSION, OP_CLONE,
    OP_CLOSE, OP_COMMIT, OP_COPY, OP_COPY_NOTIFY, OP_CREATE, OP_CREATE_SESSION, OP_DEALLOCATE,
    OP_DELEGRETURN, OP_DESTROY_CLIENTID, OP_DESTROY_SESSION, OP_EXCHANGE_ID, OP_GETATTR, OP_GETFH,
    OP_ILLEGAL, OP_IO_ADVISE, OP_LAYOUTERROR, OP_LAYOUTSTATS, OP_LINK, OP_LOCK, OP_LOCKT, OP_LOCKU,
    OP_LOOKUP, OP_LOOKUPP, OP_NVERIFY, OP_OFFLOAD_CANCEL, OP_OFFLOAD_STATUS, OP_OPEN, OP_OPEN_CONFIRM,
    OP_OPEN_DOWNGRADE, OP_PUTFH, OP_PUTPUBFH, OP_PUTROOTFH, OP_READ, OP_READDIR, OP_READLINK, OP_READ_PLUS,
    OP_RECLAIM_COMPLETE, OP_RELEASE_LOCKOWNER, OP_REMOVE, OP_RENAME, OP_RENEW, OP_RESTOREFH, OP_SAVEFH,
    OP_SECINFO, OP_SECINFO_NO_NAME, OP_SEEK, OP_SEQUENCE, OP_SETATTR, OP_SETCLIENTID,
    OP_SETCLIENTID_CONFIRM, OP_VERIFY, OP_WRITE, OP_WRITE_SAME,
};
use crate::nfs4_ops::{fail, failed, opt_view, Outcome, OpOutcome};
use crate::rpc::{accept_reply, auth_sys_uid, clamp, make_accept_reply, parse_auth_sys_uid, MAX_XDR_OPAQUE, PROC_UNAVAIL, SUCCESS};
use crate::xdr::{be32, copy_range, get_u32, opaque_bytes, pad4, put_bytes, put_opaque, put_u32, u32_bytes};

verus! {

/// The COMPOUND result of a request that failed before any operation ran:
/// the status, an empty tag and no results.
pub open spec fn compound_error(status: u32) -> Seq<u8> {
    u32_bytes(status) + u32_bytes(0) + u32_bytes(0)
}

/// Builds [`compound_error`].
pub fn make_compound_error(status: u32) -> (r: Vec<u8>)
    ensures
        r@ == compound_error(status),
{
    let mut r: Vec<u8> = Vec::new();
    put_u32(&mut r, status);
    put_u32(&mut r, 0);
    put_u32(&mut r, 0);
    r
}

/// Accept status of the reply to a call whose credential or verifier is
/// longer than the XDR limit: GARBAGE_ARGS.
pub const OVERSIZED_AUTH_STAT: u32 = 4;

/// What an NFSv4 call asks of the server.
pub enum Nfs4Call {
    /// Too short to answer.
    NoReply,
    /// Answered at once with this reply.
    Reply(Vec<u8>),
    /// A COMPOUND whose arguments start at `args_start`, from a caller with
    /// this AUTH_SYS uid (`u32::MAX` when unknown).
    Compound { xid: u32, args_start: usize, caller_uid: u32 },
}

/// The uid of the caller: the AUTH_SYS credential's uid when the credential
/// fits and parses, `u32::MAX` otherwise.
pub open spec fn caller_uid_of(s: Seq<u8>) -> u32 {
    if s.len() >= 32 && be32(s, 28) <= MAX_XDR_OPAQUE && 32 + be32(s, 28) <= s.len() {
        match auth_sys_uid(be32(s, 24), s.subrange(32, 32 + be32(s, 28))) {
            Some(u) => u,
            None => u32::MAX,
        }
    } else {
        u32::MAX
    }
}

/// The NFSv4 call a request makes. Under 24 bytes: no reply. A credential
/// or verifier header that is cut short: a COMPOUND error BADXDR. A
/// credential or verifier longer than the XDR limit: accept status 1. Then
/// procedure 0 (NULL) is answered empty, procedure 1 is a COMPOUND, and
/// any other procedure gets PROC_UNAVAIL.
pub open spec fn nfs4_call_of(s: Seq<u8>) -> Nfs4CallView {
    if s.len() < 24 {
        Nfs4CallView::NoReply
    } else {
        let xid = be32(s, 0);
        if s.len() < 32 {
            Nfs4CallView::Reply(accept_reply(xid, SUCCESS, compound_error(NFS4ERR_BADXDR)))
        } else if be32(s, 28) > MAX_XDR_OPAQUE {
            Nfs4CallView::Reply(accept_reply(xid, OVERSIZED_AUTH_STAT, Seq::empty()))
        } else {
            let v = 32 + pad4(be32(s, 28) as int);
            if s.len() < v + 8 {
                Nfs4CallView::Reply(accept_reply(xid, SUCCESS, compound_error(NFS4ERR_BADXDR)))
            } else if be32(s, v + 4) > MAX_XDR_OPAQUE {
                Nfs4CallView::Reply(accept_reply(xid, OVERSIZED_AUTH_STAT, Seq::empty()))
            } else {
                let args = v + 8 + pad4(be32(s, v + 4) as int);
                let procedure = be32(s, 20);
                if procedure == 0 {
                    Nfs4CallView::Reply(accept_reply(xid, SUCCESS, Seq::empty()))
                } else if procedure == 1 {
                    Nfs4CallView::Compound { xid, args_start: args, caller_uid: caller_uid_of(s) }
                } else {
                    Nfs4CallView::Reply(accept_reply(xid, PROC_UNAVAIL, Seq::empty()))
                }
            }
        }
    }
}

/// The value of an [`Nfs4Call`].
pub enum Nfs4CallView {
    NoReply,
    Reply(Seq<u8>),
    Compound { xid: u32, args_start: int, caller_uid: u32 },
}

impl View for Nfs4Call {
    type V = Nfs4CallView;

    open spec fn view(&self) -> Nfs4CallView {
        match self {
            Nfs4Call::NoReply => Nfs4CallView::NoReply,
            Nfs4Call::Reply(r) => Nfs4CallView::Reply(r@),
            Nfs4Call::Compound { xid, args_start, caller_uid } => Nfs4CallView::Compound {
                xid: *xid,
                args_start: *args_start as int,
                caller_uid: *caller_uid,
            },
        }
    }
}

/// Reads an NFSv4 call's header and decides what the call asks.
pub fn parse_nfs4_call(request: &[u8]) -> (r: Nfs4Call)
    ensures
        r@ == nfs4_call_of(request@),
{
    if request.len() < 24 {
        return Nfs4Call::NoReply;
    }
    let xid = get_u32(request, 0);
    if request.len() < 32 {
        return Nfs4Call::Reply(make_accept_reply(xid, SUCCESS, make_compound_error(NFS4ERR_BADXDR).as_slice()));
    }
    let cred_len = get_u32(request, 28) as usize;
    let caller_uid: u32 = if cred_len <= MAX_XDR_OPAQUE && request.len() - 32 >= cred_len {
        let cred = copy_range(request, 32, cred_len);
        match parse_auth_sys_uid(get_u32(request, 24), cred.as_slice()) {
            Some(u) => u,
            None => u32::MAX,
        }
    } else {
        u32::MAX
    };
    if cred_len > MAX_XDR_OPAQUE {
        return Nfs4Call::Reply(make_accept_reply(xid, OVERSIZED_AUTH_STAT, &[]));
    }
    let v = 32 + (cred_len + 3) / 4 * 4;
    if request.len() < v || request.len() - v < 8 {
        return Nfs4Call::Reply(make_accept_reply(xid, SUCCESS, make_compound_error(NFS4ERR_BADXDR).as_slice()));
    }
    let verif_len = get_u32(request, v + 4) as usize;
    if verif_len > MAX_XDR_OPAQUE {
        return Nfs4Call::Reply(make_accept_reply(xid, OVERSIZED_AUTH_STAT, &[]));
    }
    let args = v + 8 + (verif_len + 3) / 4 * 4;
    let procedure = get_u32(request, 20);
    if procedure == 0 {
        Nfs4Call::Reply(make_accept_reply(xid, SUCCESS, &[]))
    } else if procedure == 1 {
        Nfs4Call::Compound { xid, args_start: args, caller_uid }
    } else {
        Nfs4Call::Reply(make_accept_reply(xid, PROC_UNAVAIL, &[]))
    }
}

/// Operations that change files or state, which root squashing refuses to a
/// root caller.
pub open spec fn is_write_op(opcode: u32) -> bool {
    opcode == OP_WRITE || opcode == OP_CREATE || opcode == OP_REMOVE || opcode == OP_RENAME
        || opcode == OP_SETATTR || opcode == OP_LINK || opcode == OP_OPEN || opcode == OP_LOCK
        || opcode == OP_LOCKU || opcode == OP_CLOSE || opcode == OP_DELEGRETURN || opcode == OP_COMMIT
        || opcode == OP_COPY || opcode == OP_CLONE || opcode == OP_ALLOCATE || opcode == OP_DEALLOCATE
        || opcode == OP_WRITE_SAME
}

/// Every operation that changes the file system or the server's file
/// state counts as a write, so a root caller on a root-squashed export gets
/// PERM for it: WRITE, CREATE, REMOVE, RENAME, SETATTR, LINK, OPEN, LOCK,
/// LOCKU, CLOSE, DELEGRETURN, COMMIT, COPY, CLONE, ALLOCATE, DEALLOCATE and
/// WRITE_SAME.
pub proof fn lemma_changing_ops_are_writes(opcode: u32)
    requires
        opcode == OP_WRITE || opcode == OP_CREATE || opcode == OP_REMOVE || opcode == OP_RENAME
            || opcode == OP_SETATTR || opcode == OP_LINK || opcode == OP_OPEN || opcode == OP_LOCK
            || opcode == OP_LOCKU || opcode == OP_CLOSE || opcode == OP_DELEGRETURN
            || opcode == OP_COMMIT || opcode == OP_COPY || opcode == OP_CLONE || opcode == OP_ALLOCATE
            || opcode == OP_DEALLOCATE || opcode == OP_WRITE_SAME,
    ensures
        is_write_op(opcode),
{
}

/// Operations that only look (READ, GETATTR, LOOKUP, READDIR, ACCESS, the
/// handle operations, ...) are not writes: root squashing lets them through.
pub proof fn lemma_looking_ops_are_not_writes(opcode: u32)
    requires
        opcode == OP_READ || opcode == OP_GETATTR || opcode == OP_LOOKUP || opcode == OP_LOOKUPP
            || opcode == OP_READDIR || opcode == OP_READLINK || opcode == OP_ACCESS || opcode == OP_PUTFH
            || opcode == OP_PUTROOTFH || opcode == OP_GETFH || opcode == OP_SAVEFH || opcode == OP_RESTOREFH
            || opcode == OP_LOCKT || opcode == OP_VERIFY || opcode == OP_NVERIFY || opcode == OP_READ_PLUS,
    ensures
        !is_write_op(opcode),
{
}

/// Computes [`is_write_op`].
pub fn is_write_opcode(opcode: u32) -> (r: bool)
    ensures
        r == is_write_op(opcode),
{
    opcode == OP_WRITE || opcode == OP_CREATE || opcode == OP_REMOVE || opcode == OP_RENAME
        || opcode == OP_SETATTR || opcode == OP_LINK || opcode == OP_OPEN || opcode == OP_LOCK
        || opcode == OP_LOCKU || opcode == OP_CLOSE || opcode == OP_DELEGRETURN || opcode == OP_COMMIT
        || opcode == OP_COPY || opcode == OP_CLONE || opcode == OP_ALLOCATE || opcode == OP_DEALLOCATE
        || opcode == OP_WRITE_SAME
}

/// A COMPOUND in progress.
pub struct Compound {
    /// Offset of the next operation's code.
    pub p: usize,
    pub tag: Vec<u8>,
    pub opcount: u32,
    /// Operations taken so far.
    pub index: u32,
    pub current_fh: Option<Vec<u8>>,
    pub saved_fh: Option<Vec<u8>>,
    /// The encoded results so far.
    pub results: Vec<u8>,
    pub status: u32,
    /// Results recorded so far.
    pub count: u32,
    pub done: bool,
    pub caller_uid: u32,
}

/// The COMPOUND header at `p`: the tag, the minor version and the number
/// of operations, and the offset of the first operation; or the error body.
pub open spec fn compound_header(s: Seq<u8>, p: int) -> Result<(Seq<u8>, u32, int), Seq<u8>> {
    if p + 4 > s.len() || be32(s, p) > MAX_XDR_OPAQUE || p + 4 + be32(s, p) > s.len() {
        Err(compound_error(NFS4ERR_BADXDR))
    } else {
        let q = clamp(p + 4 + pad4(be32(s, p) as int));
        if q + 4 > s.len() {
            Err(compound_error(NFS4ERR_BADXDR))
        } else if be32(s, q) > 2 {
            Err(compound_error(NFS4ERR_MINOR_VERS_MISMATCH))
        } else if q + 8 > s.len() {
            Err(compound_error(NFS4ERR_BADXDR))
        } else if be32(s, q + 4) > MAX_OPS_PER_COMPOUND {
            Err(compound_error(NFS4ERR_RESOURCE))
        } else {
            Ok((s.subrange(p + 4, p + 4 + be32(s, p)), be32(s, q + 4), q + 8))
        }
    }
}

/// What comes next in a COMPOUND.
pub enum NextOp {
    /// No more operations: send the reply.
    Finished,
    /// Carry out operation `opcode`, whose arguments start at `p`.
    Op { opcode: u32, p: usize },
}

impl Compound {
    /// Reads the COMPOUND header; the error body when it is malformed, names
    /// an unsupported minor version (above 2) or holds more operations than
    /// allowed.
    pub fn begin(request: &[u8], args_start: usize, caller_uid: u32) -> (r: Result<Compound, Vec<u8>>)
        ensures
            match compound_header(request@, args_start as int) {
                Err(e) => r matches Err(b) && b@ == e,
                Ok((tag, n, q)) => r matches Ok(c) && c.tag@ == tag && c.opcount == n && c.p == q
                    && c.index == 0 && c.current_fh is None && c.saved_fh is None && c.results@.len() == 0
                    && c.status == NFS4_OK && c.count == 0 && !c.done && c.caller_uid == caller_uid,
            },
    {
        let p = args_start;
        if p > request.len() || request.len() - p < 4 {
            return Err(make_compound_error(NFS4ERR_BADXDR));
        }
        let tag_len = get_u32(request, p) as usize;
        if tag_len > MAX_XDR_OPAQUE || request.len() - p - 4 < tag_len {
            return Err(make_compound_error(NFS4ERR_BADXDR));
        }
        let tag = copy_range(request, p + 4, tag_len);
        let q = crate::xdr::add_clamped(p + 4, (tag_len as u64 + 3) / 4 * 4);
        if q > request.len() || request.len() - q < 4 {
            return Err(make_compound_error(NFS4ERR_BADXDR));
        }
        if get_u32(request, q) > 2 {
            return Err(make_compound_error(NFS4ERR_MINOR_VERS_MISMATCH));
        }
        if request.len() - q < 8 {
            return Err(make_compound_error(NFS4ERR_BADXDR));
        }
        let n = get_u32(request, q + 4);
        if n as usize > MAX_OPS_PER_COMPOUND {
            return Err(make_compound_error(NFS4ERR_RESOURCE));
        }
        Ok(Compound {
            p: q + 8,
            tag,
            opcount: n,
            index: 0,
            current_fh: None,
            saved_fh: None,
            results: Vec::new(),
            status: NFS4_OK,
            count: 0,
            done: false,
            caller_uid,
        })
    }

    /// The next operation. When the walk is over, or the arguments end where
    /// an operation code should be (an OP_ILLEGAL result with BADXDR, counted
    /// among the results, ends the walk), or a root caller asks for a write on a root-squashed export (a
    /// PERM result for that operation ends the walk): `Finished`.
    pub fn next_op(&mut self, request: &[u8], exports: &ExportsManager) -> (r: NextOp)
        requires
            old(self).count <= old(self).index <= old(self).opcount <= MAX_OPS_PER_COMPOUND,
        ensures
            final(self).tag == old(self).tag,
            final(self).opcount == old(self).opcount,
            final(self).index == old(self).index,
            final(self).current_fh == old(self).current_fh,
            final(self).saved_fh == old(self).saved_fh,
            final(self).caller_uid == old(self).caller_uid,
            final(self).count <= final(self).index + 1,
            old(self).done || old(self).index >= old(self).opcount ==> r is Finished && *final(self) == *old(self),
            !old(self).done && old(self).index < old(self).opcount ==> {
                let p = old(self).p;
                if p + 4 > request@.len() {
                    &&& r is Finished
                    &&& final(self).results@ == old(self).results@ + u32_bytes(OP_ILLEGAL) + u32_bytes(NFS4ERR_BADXDR)
                    &&& final(self).status == NFS4ERR_BADXDR && final(self).done
                    &&& final(self).count == old(self).count + 1 && final(self).p == old(self).p
                } else {
                    let opcode = be32(request@, p as int);
                    let squash = old(self).caller_uid == 0 && is_write_op(opcode)
                        && (opt_view(old(self).current_fh) matches Some(fh)
                            && (fh_export_options(*exports, fh) matches Some(o) && o.root_squash));
                    if squash {
                        &&& r is Finished
                        &&& final(self).results@ == old(self).results@ + u32_bytes(opcode) + u32_bytes(NFS4ERR_PERM)
                        &&& final(self).status == NFS4ERR_PERM && final(self).done
                        &&& final(self).count == old(self).count + 1 && final(self).p == p + 4
                    } else {
                        &&& r == (NextOp::Op { opcode, p: (p + 4) as usize })
                        &&& final(self).p == p + 4
                        &&& final(self).results == old(self).results
                        &&& final(self).status == old(self).status && final(self).done == old(self).done
                        &&& final(self).count == old(self).count
                    }
                }
            },
    {
        if self.done || self.index >= self.opcount {
            return NextOp::Finished;
        }
        let p = self.p;
        if p > request.len() || request.len() - p < 4 {
            put_u32(&mut self.results, OP_ILLEGAL);
            put_u32(&mut self.results, NFS4ERR_BADXDR);
            self.count = self.count + 1;
            self.status = NFS4ERR_BADXDR;
            self.done = true;
            return NextOp::Finished;
        }
        let opcode = get_u32(request, p);
        self.p = p + 4;
        if self.caller_uid == 0 && is_write_opcode(opcode) {
            let squash = match &self.current_fh {
                Some(fh) => exports.should_squash_root(fh.as_slice(), 0),
                None => false,
            };
            if squash {
                put_u32(&mut self.results, opcode);
                put_u32(&mut self.results, NFS4ERR_PERM);
                self.count = self.count + 1;
                self.status = NFS4ERR_PERM;
                self.done = true;
                return NextOp::Finished;
            }
        }
        NextOp::Op { opcode, p: p + 4 }
    }

    /// Records an operation's outcome: its code and status, its result when
    /// it succeeded, the arguments it consumed and the handles it set; a
    /// failure ends the walk with that status.
    pub fn record(&mut self, opcode: u32, outcome: OpOutcome)
        requires
            old(self).count <= old(self).index < old(self).opcount <= MAX_OPS_PER_COMPOUND,
        ensures
            final(self).tag == old(self).tag,
            final(self).opcount == old(self).opcount,
            final(self).caller_uid == old(self).caller_uid,
            final(self).index == old(self).index + 1,
            final(self).count == old(self).count + 1,
            final(self).results@ == old(self).results@ + u32_bytes(opcode) + u32_bytes(outcome.status)
                + (if outcome.status == NFS4_OK { outcome.result@ } else { Seq::empty() }),
            final(self).p == clamp(old(self).p + outcome.advance),
            opt_view(final(self).current_fh) == (match outcome@.new_fh {
                Some(f) => Some(f),
                None => opt_view(old(self).current_fh),
            }),
            opt_view(final(self).saved_fh) == (match outcome@.new_saved {
                Some(f) => Some(f),
                None => opt_view(old(self).saved_fh),
            }),
            final(self).status == (if outcome.status == NFS4_OK { old(self).status } else { outcome.status }),
            final(self).done == (old(self).done || outcome.status != NFS4_OK),
    {
        put_u32(&mut self.results, opcode);
        put_u32(&mut self.results, outcome.status);
        if outcome.status == NFS4_OK {
            put_bytes(&mut self.results, outcome.result.as_slice());
        } else {
            assert(self.results@ =~= self.results@ + Seq::<u8>::empty());
        }
        self.count = self.count + 1;
        self.index = self.index + 1;
        self.p = crate::xdr::add_clamped(self.p, outcome.advance as u64);
        match outcome.new_fh {
            Some(fh) => self.current_fh = Some(fh),
            None => {}
        }
        match outcome.new_saved {
            Some(fh) => self.saved_fh = Some(fh),
            None => {}
        }
        if outcome.status != NFS4_OK {
            self.status = outcome.status;
            self.done = true;
        }
    }

    /// The COMPOUND result: the status, the tag echoed, the number of results
    /// and the results.
    pub fn reply_body(&self) -> (r: Vec<u8>)
        ensures
            r@ == u32_bytes(self.status) + opaque_bytes(self.tag@) + u32_bytes(self.count) + self.results@,
    {
        let mut body: Vec<u8> = Vec::new();
        put_u32(&mut body, self.status);
        put_opaque(&mut body, self.tag.as_slice());
        put_u32(&mut body, self.count);
        put_bytes(&mut body, self.results.as_slice());
        body
    }
}

/// Where an operation is carried out.
#[derive(Clone, Copy, Debug, PartialEq, Eq)]
pub enum OpRoute {
    PutRootFh,
    PutFh,
    GetFh,
    SaveFh,
    RestoreFh,
    GetAttr,
    Lookup,
    LookupP,
    Access,
    Open,
    OpenConfirm,
    Close,
    Read,
    Write,
    ReadDir,
    ReadLink,
    Remove,
    Rename,
    SetAttr,
    Create,
    SetClientId,
    SetClientIdConfirm,
    Renew,
    SecInfo,
    ExchangeId,
    CreateSession,
    DestroySession,
    BindConnToSession,
    DestroyClientId,
    Sequence,
    ReclaimComplete,
    SecInfoNoName,
    OpenDowngrade,
    ReleaseLockOwner,
    Verify,
    DelegReturn,
    Commit,
    Link,
    Lock,
    LockT,
    LockU,
    Illegal,
    ReadPlus,
    Copy,
    Seek,
    Clone,
    NotSupported,
}

/// The route of each operation code: PUTPUBFH as PUTROOTFH, VERIFY and
/// NVERIFY together, the NFSv4.2 operations the server lacks and unknown
/// codes as not supported.
pub open spec fn route_of_op(opcode: u32) -> OpRoute {
    if opcode == OP_PUTROOTFH || opcode == OP_PUTPUBFH { OpRoute::PutRootFh }
    else if opcode == OP_PUTFH { OpRoute::PutFh }
    else if opcode == OP_GETFH { OpRoute::GetFh }
    else if opcode == OP_SAVEFH { OpRoute::SaveFh }
    else if opcode == OP_RESTOREFH { OpRoute::RestoreFh }
    else if opcode == OP_GETATTR { OpRoute::GetAttr }
    else if opcode == OP_LOOKUP { OpRoute::Lookup }
    else if opcode == OP_LOOKUPP { OpRoute::LookupP }
    else if opcode == OP_ACCESS { OpRoute::Access }
    else if opcode == OP_OPEN { OpRoute::Open }
    else if opcode == OP_OPEN_CONFIRM { OpRoute::OpenConfirm }
    else if opcode == OP_CLOSE { OpRoute::Close }
    else if opcode == OP_READ { OpRoute::Read }
    else if opcode == OP_WRITE { OpRoute::Write }
    else if opcode == OP_READDIR { OpRoute::ReadDir }
    else if opcode == OP_READLINK { OpRoute::ReadLink }
    else if opcode == OP_REMOVE { OpRoute::Remove }
    else if opcode == OP_RENAME { OpRoute::Rename }
    else if opcode == OP_SETATTR { OpRoute::SetAttr }
    else if opcode == OP_CREATE { OpRoute::Create }
    else if opcode == OP_SETCLIENTID { OpRoute::SetClientId }
    else if opcode == OP_SETCLIENTID_CONFIRM { OpRoute::SetClientIdConfirm }
    else if opcode == OP_RENEW { OpRoute::Renew }
    else if opcode == OP_SECINFO { OpRoute::SecInfo }
    else if opcode == OP_EXCHANGE_ID { OpRoute::ExchangeId }
    else if opcode == OP_CREATE_SESSION { OpRoute::CreateSession }
    else if opcode == OP_DESTROY_SESSION { OpRoute::DestroySession }
    else if opcode == OP_BIND_CONN_TO_SESSION { OpRoute::BindConnToSession }
    else if opcode == OP_DESTROY_CLIENTID { OpRoute::DestroyClientId }
    else if opcode == OP_SEQUENCE { OpRoute::Sequence }
    else if opcode == OP_RECLAIM_COMPLETE { OpRoute::ReclaimComplete }
    else if opcode == OP_SECINFO_NO_NAME { OpRoute::SecInfoNoName }
    else if opcode == OP_OPEN_DOWNGRADE { OpRoute::OpenDowngrade }
    else if opcode == OP_RELEASE_LOCKOWNER { OpRoute::ReleaseLockOwner }
    else if opcode == OP_NVERIFY || opcode == OP_VERIFY { OpRoute::Verify }
    else if opcode == OP_DELEGRETURN { OpRoute::DelegReturn }
    else if opcode == OP_COMMIT { OpRoute::Commit }
    else if opcode == OP_LINK { OpRoute::Link }
    else if opcode == OP_LOCK { OpRoute::Lock }
    else if opcode == OP_LOCKT { OpRoute::LockT }
    else if opcode == OP_LOCKU { OpRoute::LockU }
    else if opcode == OP_ILLEGAL { OpRoute::Illegal }
    else if opcode == OP_READ_PLUS { OpRoute::ReadPlus }
    else if opcode == OP_COPY { OpRoute::Copy }
    else if opcode == OP_SEEK { OpRoute::Seek }
    else if opcode == OP_CLONE { OpRoute::Clone }
    else { OpRoute::NotSupported }
}

/// Computes [`route_of_op`].
pub fn route_op(opcode: u32) -> (r: OpRoute)
    ensures
        r == route_of_op(opcode),
{
    if opcode == OP_PUTROOTFH || opcode == OP_PUTPUBFH { OpRoute::PutRootFh }
    else if opcode == OP_PUTFH { OpRoute::PutFh }
    else if opcode == OP_GETFH { OpRoute::GetFh }
    else if opcode == OP_SAVEFH { OpRoute::SaveFh }
    else if opcode == OP_RESTOREFH { OpRoute::RestoreFh }
    else if opcode == OP_GETATTR { OpRoute::GetAttr }
    else if opcode == OP_LOOKUP { OpRoute::Lookup }
    else if opcode == OP_LOOKUPP { OpRoute::LookupP }
    else if opcode == OP_ACCESS { OpRoute::Access }
    else if opcode == OP_OPEN { OpRoute::Open }
    else if opcode == OP_OPEN_CONFIRM { OpRoute::OpenConfirm }
    else if opcode == OP_CLOSE { OpRoute::Close }
    else if opcode == OP_READ { OpRoute::Read }
    else if opcode == OP_WRITE { OpRoute::Write }
    else if opcode == OP_READDIR { OpRoute::ReadDir }
    else if opcode == OP_READLINK { OpRoute::ReadLink }
    else if opcode == OP_REMOVE { OpRoute::Remove }
    else if opcode == OP_RENAME { OpRoute::Rename }
    else if opcode == OP_SETATTR { OpRoute::SetAttr }
    else if opcode == OP_CREATE { OpRoute::Create }
    else if opcode == OP_SETCLIENTID { OpRoute::SetClientId }
    else if opcode == OP_SETCLIENTID_CONFIRM { OpRoute::SetClientIdConfirm }
    else if opcode == OP_RENEW { OpRoute::Renew }
    else if opcode == OP_SECINFO { OpRoute::SecInfo }
    else if opcode == OP_EXCHANGE_ID { OpRoute::ExchangeId }
    else if opcode == OP_CREATE_SESSION { OpRoute::CreateSession }
    else if opcode == OP_DESTROY_SESSION { OpRoute::DestroySession }
    else if opcode == OP_BIND_CONN_TO_SESSION { OpRoute::BindConnToSession }
    else if opcode == OP_DESTROY_CLIENTID { OpRoute::DestroyClientId }
    else if opcode == OP_SEQUENCE { OpRoute::Sequence }
    else if opcode == OP_RECLAIM_COMPLETE { OpRoute::ReclaimComplete }
    else if opcode == OP_SECINFO_NO_NAME { OpRoute::SecInfoNoName }
    else if opcode == OP_OPEN_DOWNGRADE { OpRoute::OpenDowngrade }
    else if opcode == OP_RELEASE_LOCKOWNER { OpRoute::ReleaseLockOwner }
    else if opcode == OP_NVERIFY || opcode == OP_VERIFY { OpRoute::Verify }
    else if opcode == OP_DELEGRETURN { OpRoute::DelegReturn }
    else if opcode == OP_COMMIT { OpRoute::Commit }
    else if opcode == OP_LINK { OpRoute::Link }
    else if opcode == OP_LOCK { OpRoute::Lock }
    else if opcode == OP_LOCKT { OpRoute::LockT }
    else if opcode == OP_LOCKU { OpRoute::LockU }
    else if opcode == OP_ILLEGAL { OpRoute::Illegal }
    else if opcode == OP_READ_PLUS { OpRoute::ReadPlus }
    else if opcode == OP_COPY { OpRoute::Copy }
    else if opcode == OP_SEEK { OpRoute::Seek }
    else if opcode == OP_CLONE { OpRoute::Clone }
    else { OpRoute::NotSupported }
}

/// OP_ILLEGAL inside a COMPOUND.
pub fn op_illegal() -> (r: OpOutcome)
    ensures
        r@ == fail(0, NFS4ERR_OP_ILLEGAL),
{
    failed(0, NFS4ERR_OP_ILLEGAL)
}

/// An operation the server does not support.
pub fn op_not_supported() -> (r: OpOutcome)
    ensures
        r@ == fail(0, NFS4ERR_NOTSUPP),
{
    failed(0, NFS4ERR_NOTSUPP)
}

} // verus!
