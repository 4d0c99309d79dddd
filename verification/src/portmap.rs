//! PORTMAP / RPCBIND version 2 (RFC 1833): maps (program, version, protocol)
//! to the port a service listens on.

use vstd::prelude::*;
use crate::xdr::{be32, get_u32, put_u32, u32_bytes};
use crate::rpc::{
    accept_reply, after_auth, make_accept_reply, skip_auth, GARBAGE_ARGS, PROC_UNAVAIL, RPC_CALL,
    SUCCESS,
};

verus! {

pub const PORTMAP_PROGRAM: u32 = 100000;
pub const PORTMAP_VERSION: u32 = 2;
pub const PMAPPROC_NULL: u32 = 0;
pub const PMAPPROC_SET: u32 = 1;
pub const PMAPPROC_UNSET: u32 = 2;
pub const PMAPPROC_GETPORT: u32 = 3;
pub const PMAPPROC_DUMP: u32 = 4;
pub const PMAPPROC_CALLIT: u32 = 5;
pub const IPPROTO_TCP: u32 = 6;
pub const IPPROTO_UDP: u32 = 17;

/// One registered service.
#[derive(Clone, Copy, Debug, PartialEq, Eq)]
pub struct PortMapping {
    pub program: u32,
    pub version: u32,
    pub protocol: u32,
    pub port: u32,
}

/// The lookup key of a (program, version, protocol) triple.
pub open spec fn spec_make_key(program: u32, version: u32, protocol: u32) -> u64 {
    ((program as u64) << 32u64) | ((version as u64) << 8u64) | (protocol as u64)
}

/// Computes the lookup key of a (program, version, protocol) triple.
pub fn make_key(program: u32, version: u32, protocol: u32) -> (r: u64)
    ensures
        r == spec_make_key(program, version, protocol),
{
    ((program as u64) << 32u64) | ((version as u64) << 8u64) | (protocol as u64)
}

/// The port registered under `key`, or 0 when none is.
pub open spec fn port_for_key(m: Seq<PortMapping>, key: u64) -> u32
    decreases m.len(),
{
    if m.len() == 0 {
        0
    } else if spec_make_key(m[0].program, m[0].version, m[0].protocol) == key {
        m[0].port
    } else {
        port_for_key(m.drop_first(), key)
    }
}

/// The DUMP list entries of `m`, in order: for each mapping a TRUE
/// value-follows word and its four fields.
pub open spec fn dump_entries(m: Seq<PortMapping>) -> Seq<u8>
    decreases m.len(),
{
    if m.len() == 0 {
        Seq::empty()
    } else {
        dump_entries(m.drop_last()) + u32_bytes(1) + u32_bytes(m.last().program)
            + u32_bytes(m.last().version) + u32_bytes(m.last().protocol) + u32_bytes(m.last().port)
    }
}

/// Whether the mappings have pairwise distinct keys.
pub open spec fn keys_distinct(m: Seq<PortMapping>) -> bool {
    forall|i: int, j: int|
        0 <= i < j < m.len() ==> spec_make_key(m[i].program, m[i].version, m[i].protocol)
            != spec_make_key(m[j].program, m[j].version, m[j].protocol)
}

/// The reply to a PORTMAP request, `None` when the request is dropped.
pub open spec fn portmap_reply(req: Seq<u8>, m: Seq<PortMapping>) -> Option<Seq<u8>> {
    let xid = be32(req, 0);
    let procedure = be32(req, 20);
    let garbage = Some(accept_reply(xid, GARBAGE_ARGS, Seq::empty()));
    if req.len() < 28 || be32(req, 4) != RPC_CALL {
        None
    } else if req.len() < 32 {
        garbage
    } else if req.len() < after_auth(req, 24) + 8 {
        garbage
    } else {
        let off = after_auth(req, after_auth(req, 24));
        if procedure == PMAPPROC_NULL {
            Some(accept_reply(xid, SUCCESS, Seq::empty()))
        } else if procedure == PMAPPROC_GETPORT {
            if req.len() < off + 16 {
                garbage
            } else {
                let key = spec_make_key(be32(req, off), be32(req, off + 4), be32(req, off + 8));
                Some(accept_reply(xid, SUCCESS, u32_bytes(port_for_key(m, key))))
            }
        } else if procedure == PMAPPROC_DUMP {
            Some(accept_reply(xid, SUCCESS, dump_entries(m) + u32_bytes(0)))
        } else {
            Some(accept_reply(xid, PROC_UNAVAIL, Seq::empty()))
        }
    }
}

/// The PORTMAP service and its registration table.
pub struct PortmapServer {
    pub mappings: Vec<PortMapping>,
}

/// The registrations the server starts with: PORTMAP itself, MOUNT v3 and
/// v1, and NFS v3 and v4, each over TCP and UDP.
pub open spec fn initial_mappings() -> Seq<PortMapping> {
    seq![
        PortMapping { program: PORTMAP_PROGRAM, version: 2, protocol: IPPROTO_TCP, port: 111 },
        PortMapping { program: PORTMAP_PROGRAM, version: 2, protocol: IPPROTO_UDP, port: 111 },
        PortMapping { program: 100005, version: 3, protocol: IPPROTO_TCP, port: 20048 },
        PortMapping { program: 100005, version: 3, protocol: IPPROTO_UDP, port: 20048 },
        PortMapping { program: 100005, version: 1, protocol: IPPROTO_TCP, port: 20048 },
        PortMapping { program: 100005, version: 1, protocol: IPPROTO_UDP, port: 20048 },
        PortMapping { program: 100003, version: 3, protocol: IPPROTO_TCP, port: 2049 },
        PortMapping { program: 100003, version: 3, protocol: IPPROTO_UDP, port: 2049 },
        PortMapping { program: 100003, version: 4, protocol: IPPROTO_TCP, port: 2049 },
        PortMapping { program: 100003, version: 4, protocol: IPPROTO_UDP, port: 2049 },
    ]
}

impl PortmapServer {
    /// A server holding the initial registrations.
    pub fn new() -> (r: Self)
        ensures
            r.mappings@ == initial_mappings(),
    {
        PortmapServer { mappings: Self::initialize_mappings() }
    }

    /// The initial registration table.
    pub fn initialize_mappings() -> (r: Vec<PortMapping>)
        ensures
            r@ == initial_mappings(),
    {
        let mut v: Vec<PortMapping> = Vec::new();
        v.push(PortMapping { program: PORTMAP_PROGRAM, version: 2, protocol: IPPROTO_TCP, port: 111 });
        v.push(PortMapping { program: PORTMAP_PROGRAM, version: 2, protocol: IPPROTO_UDP, port: 111 });
        v.push(PortMapping { program: 100005, version: 3, protocol: IPPROTO_TCP, port: 20048 });
        v.push(PortMapping { program: 100005, version: 3, protocol: IPPROTO_UDP, port: 20048 });
        v.push(PortMapping { program: 100005, version: 1, protocol: IPPROTO_TCP, port: 20048 });
        v.push(PortMapping { program: 100005, version: 1, protocol: IPPROTO_UDP, port: 20048 });
        v.push(PortMapping { program: 100003, version: 3, protocol: IPPROTO_TCP, port: 2049 });
        v.push(PortMapping { program: 100003, version: 3, protocol: IPPROTO_UDP, port: 2049 });
        v.push(PortMapping { program: 100003, version: 4, protocol: IPPROTO_TCP, port: 2049 });
        v.push(PortMapping { program: 100003, version: 4, protocol: IPPROTO_UDP, port: 2049 });
        assert(v@ =~= initial_mappings());
        v
    }

    /// The port registered for (program, version, protocol), 0 if none.
    pub fn lookup_port(mappings: &Vec<PortMapping>, program: u32, version: u32, protocol: u32) -> (r: u32)
        ensures
            r == port_for_key(mappings@, spec_make_key(program, version, protocol)),
    {
        let key = make_key(program, version, protocol);
        assert(mappings@.subrange(0, mappings@.len() as int) =~= mappings@);
        let mut i: usize = 0;
        while i < mappings.len()
            invariant
                i <= mappings@.len(),
                key == spec_make_key(program, version, protocol),
                port_for_key(mappings@, key) == port_for_key(mappings@.subrange(i as int, mappings@.len() as int), key),
            decreases mappings@.len() - i,
        {
            let m = mappings[i];
            let ghost rest = mappings@.subrange(i as int, mappings@.len() as int);
            assert(rest.len() > 0 && rest[0] == m);
            assert(rest.drop_first() =~= mappings@.subrange(i + 1, mappings@.len() as int));
            if make_key(m.program, m.version, m.protocol) == key {
                assert(port_for_key(rest, key) == m.port);
                return m.port;
            }
            i += 1;
        }
        0
    }

    /// Answers one PORTMAP call (`None`: the request is dropped).
    pub fn handle_request_static(request: &[u8], mappings: &Vec<PortMapping>) -> (r: Option<Vec<u8>>)
        ensures
            r matches Some(v) ==> portmap_reply(request@, mappings@) == Some(v@),
            r is None <==> portmap_reply(request@, mappings@) is None,
    {
        if request.len() < 28 {
            return None;
        }
        let xid = get_u32(request, 0);
        let msg_type = get_u32(request, 4);
        if msg_type != RPC_CALL {
            return None;
        }
        let procedure = get_u32(request, 20);
        let cred_end = match skip_auth(request, 24) {
            Some(o) => o,
            None => return Some(make_accept_reply(xid, GARBAGE_ARGS, &[])),
        };
        let offset = match skip_auth(request, cred_end) {
            Some(o) => o,
            None => return Some(make_accept_reply(xid, GARBAGE_ARGS, &[])),
        };
        if procedure == PMAPPROC_NULL {
            Some(make_accept_reply(xid, SUCCESS, &[]))
        } else if procedure == PMAPPROC_GETPORT {
            if offset > request.len() || request.len() - offset < 16 {
                return Some(make_accept_reply(xid, GARBAGE_ARGS, &[]));
            }
            let args_prog = get_u32(request, offset);
            let args_ver = get_u32(request, offset + 4);
            let args_proto = get_u32(request, offset + 8);
            let port = Self::lookup_port(mappings, args_prog, args_ver, args_proto);
            let mut body: Vec<u8> = Vec::new();
            put_u32(&mut body, port);
            Some(make_accept_reply(xid, SUCCESS, body.as_slice()))
        } else if procedure == PMAPPROC_DUMP {
            let body = Self::dump_body(mappings);
            Some(make_accept_reply(xid, SUCCESS, body.as_slice()))
        } else {
            Some(make_accept_reply(xid, PROC_UNAVAIL, &[]))
        }
    }

    /// The DUMP reply body: every mapping, then a FALSE value-follows word.
    pub fn dump_body(mappings: &Vec<PortMapping>) -> (r: Vec<u8>)
        ensures
            r@ == dump_entries(mappings@) + u32_bytes(0),
    {
        let mut body: Vec<u8> = Vec::new();
        let mut i: usize = 0;
        while i < mappings.len()
            invariant
                i <= mappings@.len(),
                body@ == dump_entries(mappings@.subrange(0, i as int)),
            decreases mappings@.len() - i,
        {
            let m = mappings[i];
            put_u32(&mut body, 1);
            put_u32(&mut body, m.program);
            put_u32(&mut body, m.version);
            put_u32(&mut body, m.protocol);
            put_u32(&mut body, m.port);
            let ghost pre = mappings@.subrange(0, i + 1);
            assert(pre.drop_last() =~= mappings@.subrange(0, i as int));
            i += 1;
        }
        assert(mappings@.subrange(0, mappings@.len() as int) =~= mappings@);
        put_u32(&mut body, 0);
        body
    }

    /// Answers one PORTMAP call against this server's table.
    pub fn handle_request(&self, request: &[u8]) -> (r: Option<Vec<u8>>)
        ensures
            r matches Some(v) ==> portmap_reply(request@, self.mappings@) == Some(v@),
            r is None <==> portmap_reply(request@, self.mappings@) is None,
    {
        Self::handle_request_static(request, &self.mappings)
    }
}

/// Triples with small version and protocol numbers have distinct keys.
pub proof fn lemma_key_injective(p1: u32, v1: u32, q1: u32, p2: u32, v2: u32, q2: u32)
    requires
        v1 < 0x100, q1 < 0x100, v2 < 0x100, q2 < 0x100,
        spec_make_key(p1, v1, q1) == spec_make_key(p2, v2, q2),
    ensures
        p1 == p2 && v1 == v2 && q1 == q2,
{
    assert(p1 == p2 && v1 == v2 && q1 == q2) by (bit_vector)
        requires
            v1 < 0x100u32, q1 < 0x100u32, v2 < 0x100u32, q2 < 0x100u32,
            ((p1 as u64) << 32u64) | ((v1 as u64) << 8u64) | (q1 as u64)
                == ((p2 as u64) << 32u64) | ((v2 as u64) << 8u64) | (q2 as u64);
}

/// The initial registrations have distinct keys, so every lookup is unambiguous.
pub proof fn lemma_initial_keys_distinct()
    ensures
        keys_distinct(initial_mappings()),
{
    let m = initial_mappings();
    assert forall|i: int, j: int| 0 <= i < j < m.len() implies spec_make_key(m[i].program, m[i].version, m[i].protocol)
        != spec_make_key(m[j].program, m[j].version, m[j].protocol) by {
        let a = m[i];
        let b = m[j];
        if spec_make_key(a.program, a.version, a.protocol) == spec_make_key(b.program, b.version, b.protocol) {
            lemma_key_injective(a.program, a.version, a.protocol, b.program, b.version, b.protocol);
        }
    }
}

} // verus!
