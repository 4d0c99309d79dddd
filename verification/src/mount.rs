//! The MOUNT protocol (RFC 1813, versions 1 and 3): clients obtain the root
//! file handle of an export and list the exports.

use vstd::prelude::*;
use crate::exports::{
    counter_after_create, create_issues_id, created_handle, handles_after_create, ClientAddr, ExportView,
    ExportsManager,
};
use crate::rpc::{accept_reply, after_auth, make_accept_reply, skip_auth, GARBAGE_ARGS, PROC_UNAVAIL, RPC_CALL, SUCCESS};
use crate::xdr::{be32, copy_range, get_u32, opaque_bytes, put_bytes, put_opaque, put_u32, u32_bytes};

verus! {

pub const MOUNTPROC_NULL: u32 = 0;
pub const MOUNTPROC_MNT: u32 = 1;
pub const MOUNTPROC_DUMP: u32 = 2;
pub const MOUNTPROC_UMNT: u32 = 3;
pub const MOUNTPROC_UMNTALL: u32 = 4;
pub const MOUNTPROC_EXPORT: u32 = 5;
/// MNT status: permission denied.
pub const MNT3ERR_ACCES: u32 = 13;
/// MNT status: no such export.
pub const MNT3ERR_NOENT: u32 = 2;

/// The name an export is listed under: its alias, else its path.
pub open spec fn listed_name(e: ExportView) -> Seq<u8> {
    match e.alias {
        Some(a) => a,
        None => e.path,
    }
}

/// The EXPORT list entries: for each export a TRUE value-follows word, its
/// name and an empty group list.
pub open spec fn export_entries(ex: Seq<ExportView>) -> Seq<u8>
    decreases ex.len(),
{
    if ex.len() == 0 {
        Seq::empty()
    } else {
        export_entries(ex.drop_last()) + u32_bytes(1) + opaque_bytes(listed_name(ex.last())) + u32_bytes(0)
    }
}

/// Offset of a MOUNT call's arguments.
pub open spec fn args_offset(req: Seq<u8>) -> int {
    after_auth(req, after_auth(req, 24))
}

/// The export path a MNT call names.
pub open spec fn mnt_path(req: Seq<u8>) -> Seq<u8> {
    let off = args_offset(req);
    req.subrange(off + 4, off + 4 + be32(req, off))
}

/// Whether a call is a well-formed MNT for an export the client may mount.
pub open spec fn mnt_succeeds(req: Seq<u8>, ip: ClientAddr, m: ExportsManager) -> bool {
    let off = args_offset(req);
    &&& req.len() >= 32
    &&& be32(req, 4) == RPC_CALL
    &&& req.len() >= after_auth(req, 24) + 8
    &&& be32(req, 20) == MOUNTPROC_MNT
    &&& req.len() >= off + 4
    &&& req.len() >= off + 4 + be32(req, off)
    &&& m.spec_client_allowed(ip, mnt_path(req))
}

/// The reply to a MOUNT call (`None`: dropped), given the export state and
/// the salt of a handle the call may issue.
pub open spec fn mount_reply(req: Seq<u8>, ip: ClientAddr, m: ExportsManager, salt: u32) -> Option<Seq<u8>> {
    let xid = be32(req, 0);
    let procedure = be32(req, 20);
    let garbage = Some(accept_reply(xid, GARBAGE_ARGS, Seq::empty()));
    if req.len() < 24 || be32(req, 4) != RPC_CALL {
        None
    } else if req.len() < 32 || req.len() < after_auth(req, 24) + 8 {
        garbage
    } else {
        let off = args_offset(req);
        if procedure == MOUNTPROC_NULL {
            Some(accept_reply(xid, SUCCESS, Seq::empty()))
        } else if procedure == MOUNTPROC_MNT {
            if req.len() < off + 4 || req.len() < off + 4 + be32(req, off) {
                garbage
            } else if !m.spec_client_allowed(ip, mnt_path(req)) {
                Some(accept_reply(xid, SUCCESS, u32_bytes(MNT3ERR_ACCES)))
            } else {
                let fh = created_handle(m, mnt_path(req), salt);
                Some(accept_reply(xid, SUCCESS, u32_bytes(0) + u32_bytes(fh.len() as u32) + fh + u32_bytes(1) + u32_bytes(1)))
            }
        } else if procedure == MOUNTPROC_DUMP {
            Some(accept_reply(xid, SUCCESS, u32_bytes(0)))
        } else if procedure == MOUNTPROC_UMNT || procedure == MOUNTPROC_UMNTALL {
            Some(accept_reply(xid, SUCCESS, Seq::empty()))
        } else if procedure == MOUNTPROC_EXPORT {
            Some(accept_reply(xid, SUCCESS, export_entries(m.export_list()) + u32_bytes(0)))
        } else {
            Some(accept_reply(xid, PROC_UNAVAIL, Seq::empty()))
        }
    }
}

/// The MOUNT service.
pub struct MountServer;

impl MountServer {
    /// The EXPORT reply body.
    pub fn export_list_body(exports: &ExportsManager) -> (r: Vec<u8>)
        ensures
            r@ == export_entries(exports.export_list()) + u32_bytes(0),
    {
        let mut body: Vec<u8> = Vec::new();
        let mut i: usize = 0;
        while i < exports.exports.len()
            invariant
                i <= exports.exports@.len(),
                body@ == export_entries(exports.export_list().subrange(0, i as int)),
            decreases exports.exports@.len() - i,
        {
            let e = &exports.exports[i];
            assert(exports.export_list()[i as int] == e@);
            put_u32(&mut body, 1);
            match &e.alias {
                Some(a) => put_opaque(&mut body, a.as_slice()),
                None => put_opaque(&mut body, e.path.as_slice()),
            }
            put_u32(&mut body, 0);
            proof {
                let pre = exports.export_list().subrange(0, i + 1);
                assert(pre.drop_last() =~= exports.export_list().subrange(0, i as int));
                assert(pre.last() == exports.export_list()[i as int]);
            }
            i += 1;
        }
        assert(exports.export_list().subrange(0, exports.exports@.len() as int) =~= exports.export_list());
        put_u32(&mut body, 0);
        body
    }

    /// Answers one MOUNT call from `client_ip`. A successful MNT issues the
    /// export's root handle, signed with `salt`.
    pub fn handle_request(request: &[u8], client_ip: ClientAddr, exports: &mut ExportsManager, salt: u32) -> (r: Option<Vec<u8>>)
        requires
            old(exports).wf(),
            mnt_succeeds(request@, client_ip, *old(exports)) && create_issues_id(*old(exports), mnt_path(request@))
                ==> old(exports).fh_counter < u64::MAX,
        ensures
            final(exports).wf(),
            r is None <==> mount_reply(request@, client_ip, *old(exports), salt) is None,
            r matches Some(v) ==> mount_reply(request@, client_ip, *old(exports), salt) == Some(v@),
            final(exports).exports == old(exports).exports,
            final(exports).config == old(exports).config,
            final(exports).fh_hmac_key == old(exports).fh_hmac_key,
            mnt_succeeds(request@, client_ip, *old(exports)) ==> {
                &&& final(exports).handle_list() == handles_after_create(*old(exports), mnt_path(request@))
                &&& final(exports).fh_counter == counter_after_create(*old(exports), mnt_path(request@))
            },
            !mnt_succeeds(request@, client_ip, *old(exports)) ==> {
                &&& final(exports).handles == old(exports).handles
                &&& final(exports).fh_counter == old(exports).fh_counter
            },
    {
        if request.len() < 24 {
            return None;
        }
        let xid = get_u32(request, 0);
        let msg_type = get_u32(request, 4);
        if msg_type != RPC_CALL {
            return None;
        }
        let procedure = get_u32(request, 20);
        let cred_end = match skip_auth(request, 24) {
            Some(o) => o,
            None => return Some(make_accept_reply(xid, GARBAGE_ARGS, &[])),
        };
        let offset = match skip_auth(request, cred_end) {
            Some(o) => o,
            None => return Some(make_accept_reply(xid, GARBAGE_ARGS, &[])),
        };
        if procedure == MOUNTPROC_NULL {
            Some(make_accept_reply(xid, SUCCESS, &[]))
        } else if procedure == MOUNTPROC_MNT {
            if offset > request.len() || request.len() - offset < 4 {
                return Some(make_accept_reply(xid, GARBAGE_ARGS, &[]));
            }
            let path_len = get_u32(request, offset) as usize;
            if request.len() - offset - 4 < path_len {
                return Some(make_accept_reply(xid, GARBAGE_ARGS, &[]));
            }
            let path = copy_range(request, offset + 4, path_len);
            if !exports.is_client_allowed(client_ip, path.as_slice()) {
                let mut body: Vec<u8> = Vec::new();
                put_u32(&mut body, MNT3ERR_ACCES);
                return Some(make_accept_reply(xid, SUCCESS, body.as_slice()));
            }
            let fh = exports.create_file_handle(path.as_slice(), salt);
            let mut body: Vec<u8> = Vec::new();
            put_u32(&mut body, 0);
            put_u32(&mut body, fh.len() as u32);
            put_bytes(&mut body, fh.as_slice());
            put_u32(&mut body, 1);
            put_u32(&mut body, 1);
            Some(make_accept_reply(xid, SUCCESS, body.as_slice()))
        } else if procedure == MOUNTPROC_DUMP {
            let mut body: Vec<u8> = Vec::new();
            put_u32(&mut body, 0);
            Some(make_accept_reply(xid, SUCCESS, body.as_slice()))
        } else if procedure == MOUNTPROC_UMNT || procedure == MOUNTPROC_UMNTALL {
            Some(make_accept_reply(xid, SUCCESS, &[]))
        } else if procedure == MOUNTPROC_EXPORT {
            let body = Self::export_list_body(exports);
            Some(make_accept_reply(xid, SUCCESS, body.as_slice()))
        } else {
            Some(make_accept_reply(xid, PROC_UNAVAIL, &[]))
        }
    }
}

} // verus!
