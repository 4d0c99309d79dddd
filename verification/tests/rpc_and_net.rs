use rustnfssvc::exports::ClientAddr;
use rustnfssvc::net::{admit_connection, recv_buffer_ok, udp_request_ok, udp_response_ok, ConnRateLimiter, ConnSlots};
use rustnfssvc::portmap::{make_key, PortmapServer};
use rustnfssvc::rpc::{
    clamp_len, frame_record, make_accept_reply, make_rpc_accepted_reply, make_rpc_error_reply,
    next_record, parse_auth_sys_uid, route_request, simple_record_len, skip_auth, RecordStep, Route,
};

fn be(v: u32) -> [u8; 4] {
    v.to_be_bytes()
}

/// An RPC call header: xid, CALL, rpc version 2, program, version, procedure,
/// AUTH_NONE credential and verifier.
fn call(xid: u32, prog: u32, vers: u32, proc_: u32) -> Vec<u8> {
    let mut v = Vec::new();
    for w in [xid, 0, 2, prog, vers, proc_, 0, 0, 0, 0] {
        v.extend_from_slice(&be(w));
    }
    v
}

fn words(b: &[u8]) -> Vec<u32> {
    b.chunks(4).map(|c| u32::from_be_bytes([c[0], c[1], c[2], c[3]])).collect()
}

#[test]
fn accept_reply_layout() {
    let r = make_accept_reply(0x11223344, 0, &[9, 9, 9, 9]);
    assert_eq!(words(&r), vec![0x11223344, 1, 0, 0, 0, 0, 0x09090909]);
    assert_eq!(make_rpc_accepted_reply(7, 3, &[]), make_accept_reply(7, 3, &[]));
}

#[test]
fn error_reply_layout() {
    let req = call(0xdeadbeef, 100227, 3, 0);
    let r = make_rpc_error_reply(&req, 1).unwrap();
    assert_eq!(words(&r), vec![0xdeadbeef, 1, 0, 0, 0, 1]);
    assert!(make_rpc_error_reply(&req[..19], 1).is_none());
}

#[test]
fn record_framing() {
    let f = frame_record(&[1, 2, 3]);
    assert_eq!(f, vec![0x80, 0, 0, 3, 1, 2, 3]);
}

#[test]
fn record_steps() {
    assert!(matches!(next_record(&[0x80, 0]), RecordStep::NeedMore));
    // not the last fragment
    assert!(matches!(next_record(&[0, 0, 0, 40]), RecordStep::Close));
    // too short to be a call
    assert!(matches!(next_record(&[0x80, 0, 0, 8]), RecordStep::SkipHeader));
    // larger than the record limit
    assert!(matches!(next_record(&[0x80, 0x10, 0, 1]), RecordStep::Close));
    let mut buf = vec![0x80, 0, 0, 24];
    buf.extend_from_slice(&[0u8; 20]);
    assert!(matches!(next_record(&buf), RecordStep::NeedMore));
    buf.extend_from_slice(&[0u8; 4]);
    assert!(matches!(next_record(&buf), RecordStep::Record(24)));
    assert_eq!(simple_record_len(0x8000_0010), Some(16));
    assert_eq!(simple_record_len(0x8000_0000), None);
    assert_eq!(simple_record_len(0x8001_0001), None);
}

#[test]
fn routes() {
    assert!(matches!(route_request(&call(1, 100003, 3, 0)), Route::NfsV3));
    assert!(matches!(route_request(&call(1, 100003, 4, 0)), Route::NfsV4));
    assert!(matches!(route_request(&call(1, 100003, 2, 0)), Route::UnsupportedVersion));
    assert!(matches!(route_request(&call(1, 100227, 3, 0)), Route::Acl));
    assert!(matches!(route_request(&call(1, 100005, 3, 0)), Route::UnsupportedProgram));
    assert!(matches!(route_request(&[0u8; 19]), Route::Invalid));
}

#[test]
fn auth_helpers() {
    let req = call(1, 100003, 3, 0);
    assert_eq!(skip_auth(&req, 24), Some(32));
    assert_eq!(skip_auth(&req, 36), None);
    // stamp, machine name "ab" (padded), uid 1000, gid 100
    let mut cred = Vec::new();
    cred.extend_from_slice(&be(5));
    cred.extend_from_slice(&be(2));
    cred.extend_from_slice(&[b'a', b'b', 0, 0]);
    cred.extend_from_slice(&be(1000));
    cred.extend_from_slice(&be(100));
    assert_eq!(parse_auth_sys_uid(1, &cred), Some(1000));
    assert_eq!(parse_auth_sys_uid(0, &cred), None);
    assert_eq!(parse_auth_sys_uid(1, &cred[..8]), None);
    assert_eq!(clamp_len(12), 12);
}

fn v4(a: u32) -> ClientAddr {
    ClientAddr { is_v6: false, addr: a as u128 }
}

#[test]
fn rate_limit_within_window() {
    let mut l = ConnRateLimiter::new(2, 60);
    let a = v4(0x0a000001);
    let b = v4(0x0a000002);
    assert_eq!(l.check(a, 1_000), (true, false));
    assert_eq!(l.check(a, 2_000), (true, false));
    // third connection in the window: refused, first refusal flagged
    assert_eq!(l.check(a, 3_000), (false, true));
    // later refusals are not flagged again
    assert_eq!(l.check(a, 4_000), (false, false));
    // another address is unaffected
    assert_eq!(l.check(b, 4_000), (true, false));
    // once the window is over the address may connect again
    assert_eq!(l.check(a, 1_000 + 60_001), (true, false));
    assert_eq!(l.check(a, 1_000 + 60_002), (true, false));
    assert_eq!(l.check(a, 1_000 + 60_003), (false, true));
    // a cleanup long after both windows drops both entries, so b starts afresh
    l.cleanup(10_000_000);
    assert_eq!(l.check(b, 4_500), (true, false));
    assert_eq!(l.check(b, 4_600), (true, false));
    assert_eq!(l.check(b, 4_700), (false, true));
}

#[test]
fn rate_limit_cleanup_keeps_open_windows() {
    let mut l = ConnRateLimiter::new(1, 60);
    let a = v4(1);
    let b = v4(2);
    assert_eq!(l.check(a, 0), (true, false));
    assert_eq!(l.check(b, 50_000), (true, false));
    // at 70 s, a's window is over but b's is not
    l.cleanup(70_000);
    assert_eq!(l.check(b, 70_000), (false, true));
    assert_eq!(l.check(a, 70_000), (true, false));
}

#[test]
fn rate_limit_zero_allowance() {
    let mut l = ConnRateLimiter::new(0, 60);
    assert_eq!(l.check(v4(1), 0), (false, true));
    assert_eq!(l.check(v4(1), 1), (false, false));
}

#[test]
fn admission_checks() {
    assert!(admit_connection(0, 128));
    assert!(admit_connection(127, 128));
    assert!(!admit_connection(128, 128));
    assert!(!udp_request_ok(19));
    assert!(udp_request_ok(20));
    assert!(udp_response_ok(65536));
    assert!(!udp_response_ok(65537));
    assert!(recv_buffer_ok(4 * 1024 * 1024));
    assert!(!recv_buffer_ok(4 * 1024 * 1024 + 1));
}

#[test]
fn portmap_getport_and_dump() {
    let pm = PortmapServer::new();
    let mut req = call(42, 100000, 2, 3);
    for w in [100005u32, 3, 6, 0] {
        req.extend_from_slice(&be(w));
    }
    let r = pm.handle_request(&req).unwrap();
    assert_eq!(words(&r), vec![42, 1, 0, 0, 0, 0, 20048]);
    // unknown program: port 0
    let mut req2 = call(43, 100000, 2, 3);
    for w in [123456u32, 1, 6, 0] {
        req2.extend_from_slice(&be(w));
    }
    assert_eq!(words(&pm.handle_request(&req2).unwrap()), vec![43, 1, 0, 0, 0, 0, 0]);
    let dump = pm.handle_request(&call(44, 100000, 2, 4)).unwrap();
    let w = words(&dump);
    assert_eq!(w.len(), 6 + 10 * 5 + 1);
    assert_eq!(&w[6..11], &[1, 100000, 2, 6, 111]);
    assert_eq!(*w.last().unwrap(), 0);
    let null = pm.handle_request(&call(45, 100000, 2, 0)).unwrap();
    assert_eq!(words(&null), vec![45, 1, 0, 0, 0, 0]);
    let bad = pm.handle_request(&call(46, 100000, 2, 9)).unwrap();
    assert_eq!(words(&bad), vec![46, 1, 0, 0, 0, 3]);
    // getport without its arguments
    let short = pm.handle_request(&call(47, 100000, 2, 3)).unwrap();
    assert_eq!(words(&short), vec![47, 1, 0, 0, 0, 4]);
    assert!(pm.handle_request(&[0u8; 27]).is_none());
    assert_eq!(make_key(100003, 3, 6), (100003u64 << 32) | (3 << 8) | 6);
}

#[test]
fn framed_reply_reads_back() {
    let resp: Vec<u8> = (0u8..24).collect();
    let framed = frame_record(&resp);
    match next_record(&framed) {
        RecordStep::Record(n) => {
            assert_eq!(n, 24);
            assert_eq!(&framed[4..4 + n], &resp[..]);
        }
        _ => panic!("a whole record"),
    }
}

#[test]
fn framed_records_read_back_in_order() {
    let a: Vec<u8> = (0u8..24).collect();
    let b: Vec<u8> = (100u8..132).collect();
    let mut stream = frame_record(&a);
    stream.extend_from_slice(&frame_record(&b));
    match next_record(&stream) {
        RecordStep::Record(n) => {
            assert_eq!(n, 24);
            assert_eq!(&stream[4..4 + n], &a[..]);
            let rest = &stream[4 + n..];
            match next_record(rest) {
                RecordStep::Record(m) => {
                    assert_eq!(m, 32);
                    assert_eq!(&rest[4..4 + m], &b[..]);
                    assert_eq!(rest.len(), 4 + m);
                }
                _ => panic!("second record"),
            }
        }
        _ => panic!("first record"),
    }
}

#[test]
fn connection_slots_stay_under_cap() {
    let mut s = ConnSlots::new(2);
    assert!(s.try_acquire());
    assert!(s.try_acquire());
    assert_eq!(s.active(), 2);
    // a third connection while two are served is refused
    assert!(!s.try_acquire());
    assert_eq!(s.active(), 2);
    s.release();
    assert_eq!(s.active(), 1);
    assert!(s.try_acquire());
    s.release();
    s.release();
    s.release();
    assert_eq!(s.active(), 0);
    let mut none = ConnSlots::new(0);
    assert!(!none.try_acquire());
}
