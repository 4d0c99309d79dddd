use rustnfssvc::config::Config;
use rustnfssvc::exports::ExportsManager;
use rustnfssvc::nfs4_compound::{
    is_write_opcode, make_compound_error, op_illegal, op_not_supported, parse_nfs4_call, route_op,
    Compound, NextOp, Nfs4Call, OpRoute,
};
use rustnfssvc::nfs4_ops::{op_getfh, op_putrootfh, op_restorefh, op_savefh, is_root_handle};
use rustnfssvc::nfs4_state::{make_session_id, make_stateid, Nfs4Server};

fn be(v: u32) -> [u8; 4] {
    v.to_be_bytes()
}

fn words(b: &[u8]) -> Vec<u32> {
    b.chunks(4).map(|c| u32::from_be_bytes([c[0], c[1], c[2], c[3]])).collect()
}

fn put(v: &mut Vec<u8>, ws: &[u32]) {
    for w in ws {
        v.extend_from_slice(&be(*w));
    }
}

fn opaque(v: &mut Vec<u8>, data: &[u8]) {
    put(v, &[data.len() as u32]);
    v.extend_from_slice(data);
    while v.len() % 4 != 0 {
        v.push(0);
    }
}

/// An NFSv4 call header with an AUTH_SYS credential for `uid`.
fn v4_call(xid: u32, procedure: u32, uid: u32) -> Vec<u8> {
    let mut v = Vec::new();
    put(&mut v, &[xid, 0, 2, 100003, 4, procedure, 1]);
    let mut cred = Vec::new();
    put(&mut cred, &[0]);
    opaque(&mut cred, b"host");
    put(&mut cred, &[uid, uid, 0]);
    opaque(&mut v, &cred);
    put(&mut v, &[0, 0]);
    v
}

fn exports() -> ExportsManager {
    ExportsManager::new(Config::default(), vec![1u8; 32])
}

#[test]
fn call_header_decisions() {
    assert!(matches!(parse_nfs4_call(&[0u8; 23]), Nfs4Call::NoReply));
    let null = v4_call(5, 0, 1000);
    match parse_nfs4_call(&null) {
        Nfs4Call::Reply(r) => assert_eq!(words(&r), vec![5, 1, 0, 0, 0, 0]),
        _ => panic!("NULL is answered at once"),
    }
    let other = v4_call(6, 7, 1000);
    match parse_nfs4_call(&other) {
        Nfs4Call::Reply(r) => assert_eq!(words(&r), vec![6, 1, 0, 0, 0, 3]),
        _ => panic!("unknown procedure"),
    }
    let compound = v4_call(7, 1, 1000);
    match parse_nfs4_call(&compound) {
        Nfs4Call::Compound { xid, args_start, caller_uid } => {
            assert_eq!(xid, 7);
            assert_eq!(args_start, compound.len());
            assert_eq!(caller_uid, 1000);
        }
        _ => panic!("COMPOUND expected"),
    }
    // a credential header cut short: BADXDR in a COMPOUND error body
    let cut = &compound[..28];
    match parse_nfs4_call(cut) {
        Nfs4Call::Reply(r) => assert_eq!(words(&r), vec![7, 1, 0, 0, 0, 0, 10036, 0, 0]),
        _ => panic!("BADXDR expected"),
    }
    // a credential longer than the XDR limit
    let mut big = v4_call(8, 1, 0);
    big[28..32].copy_from_slice(&be(5_000_000));
    match parse_nfs4_call(&big) {
        Nfs4Call::Reply(r) => assert_eq!(words(&r), vec![8, 1, 0, 0, 0, 4]),
        _ => panic!("oversized credential"),
    }
}

#[test]
fn compound_header_errors() {
    assert_eq!(words(&make_compound_error(10036)), vec![10036, 0, 0]);
    let mut req = Vec::new();
    opaque(&mut req, b"tg");
    put(&mut req, &[3, 1]);
    match Compound::begin(&req, 0, 0) {
        Err(b) => assert_eq!(words(&b), vec![10021, 0, 0]),
        Ok(_) => panic!("minor version 3 is refused"),
    }
    let mut many = Vec::new();
    opaque(&mut many, b"");
    put(&mut many, &[1, 1000]);
    match Compound::begin(&many, 0, 0) {
        Err(b) => assert_eq!(words(&b)[0], 10018),
        Ok(_) => panic!("too many operations"),
    }
    match Compound::begin(&[0, 0, 0, 8, 1], 0, 0) {
        Err(b) => assert_eq!(words(&b)[0], 10036),
        Ok(_) => panic!("truncated tag"),
    }
}

/// Runs the operations that need no file system access.
fn run(req: &[u8], start: usize, state: &mut Nfs4Server, ex: &ExportsManager) -> Vec<u8> {
    let mut c = match Compound::begin(req, start, 1000) {
        Ok(c) => c,
        Err(b) => return b,
    };
    loop {
        match c.next_op(req, ex) {
            NextOp::Finished => break,
            NextOp::Op { opcode, p } => {
                let out = match route_op(opcode) {
                    OpRoute::PutRootFh => op_putrootfh(),
                    OpRoute::GetFh => op_getfh(&c.current_fh),
                    OpRoute::SaveFh => op_savefh(&c.current_fh),
                    OpRoute::RestoreFh => op_restorefh(&c.saved_fh),
                    OpRoute::ExchangeId => state.op_exchange_id(req, p, 0),
                    OpRoute::CreateSession => state.op_create_session(req, p, 0),
                    OpRoute::Sequence => state.op_sequence(req, p, 0),
                    OpRoute::Illegal => op_illegal(),
                    _ => op_not_supported(),
                };
                c.record(opcode, out);
            }
        }
    }
    c.reply_body()
}

#[test]
fn compound_walk_stops_at_first_failure() {
    let mut state = Nfs4Server::new(42);
    let ex = exports();
    let mut req = Vec::new();
    opaque(&mut req, b"t1");
    put(&mut req, &[1, 4, 24, 10, 10044, 10]);
    let body = run(&req, 0, &mut state, &ex);
    let w = words(&body);
    // status OP_ILLEGAL, tag "t1", three results
    assert_eq!(w[0], 10044);
    assert_eq!(w[1], 2);
    assert_eq!(w[3], 3);
    // PUTROOTFH ok, GETFH ok with the 32-byte root handle, then ILLEGAL
    assert_eq!(&w[4..6], &[24, 0]);
    assert_eq!(&w[6..9], &[10, 0, 32]);
    let fh = &body[36..68];
    assert!(is_root_handle(fh));
    assert_eq!(&fh[20..28], b"nfs4root");
    assert_eq!(&w[17..19], &[10044, 10044]);
    assert_eq!(w.len(), 19);
}

#[test]
fn compound_missing_opcode_is_badxdr() {
    let mut state = Nfs4Server::new(1);
    let ex = exports();
    let mut req = Vec::new();
    opaque(&mut req, b"");
    put(&mut req, &[0, 2, 24]);
    let w = words(&run(&req, 0, &mut state, &ex));
    assert_eq!(w, vec![10036, 0, 2, 24, 0, 10044, 10036]);
    // an unsupported operation ends the walk with NOTSUPP
    let mut req2 = Vec::new();
    opaque(&mut req2, b"");
    put(&mut req2, &[1, 2, 59, 24]);
    let w2 = words(&run(&req2, 0, &mut state, &ex));
    assert_eq!(w2, vec![10004, 0, 1, 59, 10004]);
}

fn exchange_id_args(owner: &[u8]) -> Vec<u8> {
    let mut v = vec![0u8; 8];
    opaque(&mut v, owner);
    put(&mut v, &[0, 0, 0]);
    v
}

#[test]
fn exchange_id_same_owner_same_client() {
    let mut state = Nfs4Server::new(3);
    let a = exchange_id_args(b"client-a");
    let r1 = state.op_exchange_id(&a, 0, 10);
    assert_eq!(r1.status, 0);
    assert_eq!(r1.advance, a.len());
    assert_eq!(&r1.result[0..8], &1u64.to_be_bytes());
    assert_eq!(words(&r1.result[8..16]), vec![1, 0x80010003]);
    let r2 = state.op_exchange_id(&a, 0, 20);
    assert_eq!(&r2.result[0..8], &1u64.to_be_bytes());
    let b = exchange_id_args(b"client-b");
    let r3 = state.op_exchange_id(&b, 0, 30);
    assert_eq!(&r3.result[0..8], &2u64.to_be_bytes());
    assert_eq!(state.client_counter, 3);
    assert_eq!(state.owners.len(), 2);
    assert_eq!(state.clients.len(), 2);
    // server owner string in the reply
    assert!(r1.result.windows(10).any(|w| w == b"RustNfsSvc"));
    let bad = state.op_exchange_id(&[0u8; 6], 0, 0);
    assert_eq!(bad.status, 10036);
}

fn create_session_args(cid: u64, mreq: u32, mops: u32, mreqs: u32) -> Vec<u8> {
    let mut v = Vec::new();
    v.extend_from_slice(&cid.to_be_bytes());
    put(&mut v, &[1, 0]);
    put(&mut v, &[0, mreq, mreq, 0, mops, mreqs, 0]);
    put(&mut v, &[0, 4096, 4096, 0, 2, 1, 0]);
    put(&mut v, &[0x40000000, 1, 0]);
    v
}

#[test]
fn create_session_then_sequence() {
    let mut state = Nfs4Server::new(3);
    let args = create_session_args(7, 1 << 30, 500, 0);
    let r = state.op_create_session(&args, 0, 100);
    assert_eq!(r.status, 0);
    assert_eq!(r.advance, args.len());
    let sid = make_session_id(7);
    assert_eq!(&r.result[0..16], &sid[..]);
    // sequence 1, no flags, fore channel limited
    assert_eq!(words(&r.result[16..52]), vec![1, 0, 0, 1048576, 1048576, 0, 100, 1, 0]);
    assert_eq!(words(&r.result[52..80]), vec![0, 4096, 4096, 0, 2, 1, 0]);
    let mut seq = sid.clone();
    put(&mut seq, &[5, 0, 3, 0]);
    let s = state.op_sequence(&seq, 0, 200);
    assert_eq!(s.status, 0);
    assert_eq!(&s.result[0..16], &sid[..]);
    assert_eq!(words(&s.result[16..]), vec![5, 0, 3, 3, 0]);
    // an older sequence ID is refused
    let mut old = sid.clone();
    put(&mut old, &[4, 0, 0, 0]);
    assert_eq!(state.op_sequence(&old, 0, 300).status, 10064);
    // an unknown session
    let mut unknown = make_session_id(99);
    put(&mut unknown, &[1, 0, 0, 0]);
    assert_eq!(state.op_sequence(&unknown, 0, 300).status, 10064);
    assert_eq!(state.op_sequence(&[0u8; 31], 0, 300).status, 10036);
    // leases: the session outlives a short pause but not a long one
    state.cleanup_expired(200 + 300_000);
    assert_eq!(state.sessions.len(), 1);
    state.cleanup_expired(200 + 300_001);
    assert_eq!(state.sessions.len(), 0);
}

fn lock_args(t: u32, off: u64, len: u64, file: u64, owner: &[u8]) -> Vec<u8> {
    let mut v = Vec::new();
    put(&mut v, &[t, 0]);
    v.extend_from_slice(&off.to_be_bytes());
    v.extend_from_slice(&len.to_be_bytes());
    put(&mut v, &[1, 0]);
    v.extend_from_slice(&file.to_be_bytes());
    v.extend_from_slice(&[0u8; 8]);
    put(&mut v, &[0]);
    v.extend_from_slice(&9u64.to_be_bytes());
    opaque(&mut v, owner);
    v
}

#[test]
fn locks_conflict_and_release() {
    let mut state = Nfs4Server::new(3);
    let fh = Some(vec![1u8; 40]);
    let a = lock_args(2, 0, 100, 77, b"owner-a");
    let r = state.op_lock(&a, 0, &fh);
    assert_eq!(r.status, 0);
    assert_eq!(r.result, make_stateid(1));
    // an overlapping write lock by someone else is denied, with the holder
    let b = lock_args(2, 50, 10, 77, b"owner-b");
    let d = state.op_lock(&b, 0, &fh);
    assert_eq!(d.status, 10010);
    assert_eq!(&d.result[0..8], &0u64.to_be_bytes());
    assert_eq!(&d.result[8..16], &100u64.to_be_bytes());
    assert_eq!(words(&d.result[16..24]), vec![2, 7]);
    assert_eq!(state.op_lockt(&b, 0, &fh).status, 10010);
    // another file or a disjoint range is free
    assert_eq!(state.op_lockt(&lock_args(2, 50, 10, 78, b"owner-b"), 0, &fh).status, 0);
    assert_eq!(state.op_lockt(&lock_args(2, 100, 10, 77, b"owner-b"), 0, &fh).status, 0);
    // read locks share
    let mut s2 = Nfs4Server::new(3);
    assert_eq!(s2.op_lock(&lock_args(1, 0, 10, 5, b"x"), 0, &fh).status, 0);
    assert_eq!(s2.op_lock(&lock_args(1, 0, 10, 5, b"y"), 0, &fh).status, 0);
    // a blocking read lock is a read lock too; a blocking write lock is not
    assert_eq!(s2.op_lockt(&lock_args(3, 5, 10, 5, b"z"), 0, &fh).status, 0);
    assert_eq!(s2.op_lock(&lock_args(3, 5, 10, 5, b"z"), 0, &fh).status, 0);
    assert_eq!(s2.op_lockt(&lock_args(4, 5, 10, 5, b"w"), 0, &fh).status, 10010);
    // unlocking releases the range
    let u = state.op_locku(&a, 0, &fh);
    assert_eq!(u.status, 0);
    assert_eq!(u.result, make_stateid(1));
    assert_eq!(state.locks.len(), 0);
    assert_eq!(state.op_lock(&b, 0, &fh).status, 0);
    // no current file handle
    assert_eq!(state.op_lock(&b, 0, &None).status, 10020);
    assert_eq!(state.op_lockt(&[0u8; 10], 0, &fh).status, 10036);
}

#[test]
fn op_routes_and_write_codes() {
    assert_eq!(route_op(24), OpRoute::PutRootFh);
    assert_eq!(route_op(23), OpRoute::PutRootFh);
    assert_eq!(route_op(17), OpRoute::Verify);
    assert_eq!(route_op(37), OpRoute::Verify);
    assert_eq!(route_op(68), OpRoute::ReadPlus);
    assert_eq!(route_op(59), OpRoute::NotSupported);
    assert!(is_write_opcode(38));
    assert!(!is_write_opcode(25));
}

#[test]
fn root_squash_refuses_writes() {
    let mut config = Config::default();
    config.exports.entries = vec![rustnfssvc::config::ExportEntry {
        path: "C:\\sq".to_string(),
        alias: None,
        allowed_clients: vec!["*".to_string()],
        options: vec!["root_squash".to_string()],
        description: None,
    }];
    let mut ex = ExportsManager::new(config, vec![2u8; 32]);
    ex.reload_exports_async(&[true]);
    let fh = ex.create_file_handle(b"/sq", 1);
    let mut req = Vec::new();
    opaque(&mut req, b"");
    put(&mut req, &[0, 1, 38]);
    let mut c = Compound::begin(&req, 0, 0).ok().unwrap();
    c.current_fh = Some(fh);
    assert!(matches!(c.next_op(&req, &ex), NextOp::Finished));
    assert_eq!(words(&c.reply_body()), vec![1, 0, 1, 38, 1]);
}

#[test]
fn exchanged_client_can_be_confirmed() {
    let mut state = Nfs4Server::new(8);
    let a = exchange_id_args(b"client-z");
    let r = state.op_exchange_id(&a, 0, 1);
    let cid = u64::from_be_bytes(r.result[0..8].try_into().unwrap());
    let mut confirm = cid.to_be_bytes().to_vec();
    confirm.extend_from_slice(&[0u8; 8]);
    let c = state.op_setclientid_confirm(&confirm, 0);
    assert_eq!(c.status, 0);
    assert!(state.clients.iter().any(|x| x.client_id == cid && x.confirmed));
    let mut unknown = 99u64.to_be_bytes().to_vec();
    unknown.extend_from_slice(&[0u8; 8]);
    assert_eq!(state.op_setclientid_confirm(&unknown, 0).status, 10022);
}

#[test]
fn lease_cleanup_forgets_owner_of_removed_client() {
    let mut state = Nfs4Server::new(3);
    let a = exchange_id_args(b"client-a");
    let r1 = state.op_exchange_id(&a, 0, 10);
    assert_eq!(&r1.result[0..8], &1u64.to_be_bytes());
    // within the lease both stay
    state.cleanup_expired(10 + 300_000);
    assert_eq!(state.clients.len(), 1);
    assert_eq!(state.owners.len(), 1);
    // after it, the client and its owner entry go
    state.cleanup_expired(10 + 300_001);
    assert_eq!(state.clients.len(), 0);
    assert_eq!(state.owners.len(), 0);
    // the same owner now gets a fresh client ID
    let r2 = state.op_exchange_id(&a, 0, 400_000);
    assert_eq!(&r2.result[0..8], &2u64.to_be_bytes());
}
