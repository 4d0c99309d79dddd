use rustnfssvc::config::{Config, ExportEntry};
use rustnfssvc::exports::{
    derive_hmac_key, fnv1a_of, handle_salt, inode_walk_step, is_safe_name, parse_client,
    parse_export_options, xorshift_fill, ClientAddr, ExportsManager, InodeWalk,
};
use rustnfssvc::mount::MountServer;
use rustnfssvc::nfs4_ops::op_putrootfh;

fn entry(path: &str, alias: Option<&str>, clients: &[&str], opts: &[&str]) -> ExportEntry {
    ExportEntry {
        path: path.to_string(),
        alias: alias.map(|a| a.to_string()),
        allowed_clients: clients.iter().map(|c| c.to_string()).collect(),
        options: opts.iter().map(|o| o.to_string()).collect(),
        description: None,
    }
}

fn manager() -> ExportsManager {
    let mut config = Config::default();
    config.exports.entries = vec![
        entry("C:\\Shares\\data", Some("data"), &["192.168.1.0/24"], &["rw", "root_squash"]),
        entry("D:\\pub", None, &["*"], &["ro"]),
        entry("E:\\gone", Some("gone"), &["*"], &[]),
    ];
    let mut m = ExportsManager::new(config, vec![7u8; 32]);
    m.reload_exports_async(&[true, true, false]);
    m
}

fn v4(a: [u8; 4]) -> ClientAddr {
    ClientAddr { is_v6: false, addr: u32::from_be_bytes(a) as u128 }
}

fn be(v: u32) -> [u8; 4] {
    v.to_be_bytes()
}

fn words(b: &[u8]) -> Vec<u32> {
    b.chunks(4).map(|c| u32::from_be_bytes([c[0], c[1], c[2], c[3]])).collect()
}

#[test]
fn export_options_words() {
    let o = parse_export_options(&vec!["ro".to_string(), "async".to_string(), "root_squash".to_string()]);
    assert!(o.read_only);
    assert!(!o.sync);
    assert!(o.root_squash);
    let o2 = parse_export_options(&vec!["ro".to_string(), "rw".to_string(), "unknown".to_string()]);
    assert!(!o2.read_only);
    assert!(o2.sync);
}

#[test]
fn client_networks() {
    assert_eq!(parse_client(&"*".to_string()).len(), 2);
    let n = parse_client(&"10.1.2.3".to_string());
    assert_eq!(n.len(), 1);
    assert_eq!(n[0].prefix_len, 32);
    assert!(!n[0].is_v6);
    assert_eq!(n[0].addr, 0x0a010203);
    let n6 = parse_client(&"fe80::1".to_string());
    assert_eq!(n6.len(), 1);
    assert!(n6[0].is_v6);
    assert_eq!(n6[0].prefix_len, 128);
    assert!(parse_client(&"not-an-ip".to_string()).is_empty());
    // a bare address is read by the standard address syntax, which refuses
    // leading zeros in an IPv4 octet
    assert!(parse_client(&"010.0.0.1".to_string()).is_empty());
    // a network in address/prefix form keeps its prefix
    let net = parse_client(&"192.168.0.0/16".to_string());
    assert_eq!(net.len(), 1);
    assert_eq!(net[0].prefix_len, 16);
    assert_eq!(net[0].addr, 0xc0a80000);
}

#[test]
fn reload_keeps_usable_entries() {
    let m = manager();
    let paths: Vec<Vec<u8>> = m.list_exports();
    assert_eq!(paths, vec![b"C:\\Shares\\data".to_vec(), b"D:\\pub".to_vec()]);
    assert_eq!(m.list_export_aliases(), vec![b"data".to_vec()]);
    assert_eq!(m.get_first_export_root(), Some(b"C:\\Shares\\data".to_vec()));
}

#[test]
fn resolve_by_alias_name_and_path() {
    let m = manager();
    assert_eq!(m.resolve_export_path(b"/data").unwrap().path, b"C:\\Shares\\data".to_vec());
    assert_eq!(m.resolve_export_path(b"data").unwrap().path, b"C:\\Shares\\data".to_vec());
    assert_eq!(m.resolve_export_path(b"/pub").unwrap().path, b"D:\\pub".to_vec());
    assert_eq!(m.resolve_export_path(b"D:\\pub").unwrap().path, b"D:\\pub".to_vec());
    assert!(m.resolve_export_path(b"/gone").is_none());
    assert!(m.get_export(b"/nothing").is_none());
}

#[test]
fn client_access() {
    let m = manager();
    assert!(m.is_client_allowed(v4([192, 168, 1, 7]), b"/data"));
    assert!(!m.is_client_allowed(v4([192, 168, 2, 7]), b"/data"));
    assert!(m.is_client_allowed(v4([8, 8, 8, 8]), b"/pub"));
    assert!(m.is_client_allowed(ClientAddr { is_v6: true, addr: 1 }, b"/pub"));
    assert!(!m.is_client_allowed(v4([192, 168, 1, 7]), b"/unknown"));
}

#[test]
fn handles_round_trip_and_reject_tampering() {
    let mut m = manager();
    let h = m.get_or_create_fh(b"C:\\Shares\\data\\a.txt", b"C:\\Shares\\data", 99);
    assert_eq!(h.len(), 40);
    assert_eq!(&h[0..8], &1u64.to_be_bytes());
    assert_eq!(&h[8..16], &fnv1a_of(b"C:\\Shares\\data\\a.txt").to_be_bytes());
    assert!(m.validate_file_handle(&h));
    assert_eq!(m.resolve_fh(&h), Some(b"C:\\Shares\\data\\a.txt".to_vec()));
    assert_eq!(m.get_fh_export_root(&h), Some(b"C:\\Shares\\data".to_vec()));
    // the same path gets the same ID again
    let again = m.get_or_create_fh(b"C:\\Shares\\data\\a.txt", b"C:\\Shares\\data", 99);
    assert_eq!(again, h);
    assert_eq!(m.fh_counter, 2);
    // a flipped MAC byte is refused
    let mut bad = h.clone();
    bad[30] ^= 1;
    assert!(!m.validate_file_handle(&bad));
    assert_eq!(m.resolve_fh(&bad), None);
    assert_eq!(m.verify_fh_mac(&bad), None);
    assert_eq!(m.verify_fh_mac(&h), Some(1));
    // a different key does not accept the handle
    let other = ExportsManager::new(Config::default(), vec![8u8; 32]);
    assert_eq!(other.verify_fh_mac(&h), None);
    // the MAC depends on the message
    assert_ne!(m.compute_fh_mac(1, 2, 3, 4), m.compute_fh_mac(1, 2, 3, 5));
    assert_eq!(m.compute_fh_mac(1, 2, 3, 4).len(), 16);
    // the all-zero probe handle is accepted as ID 0
    assert_eq!(m.verify_and_decode_fhid(&[0u8; 40]), Some(0));
    assert_eq!(ExportsManager::decode_fhid(&[0, 0, 0, 0, 0, 0, 0, 5]), Some(5));
}

#[test]
fn export_options_by_handle() {
    let mut m = manager();
    let data = m.create_file_handle(b"/data", 1);
    let public = m.create_file_handle(b"/pub", 1);
    assert!(!m.is_read_only(&data));
    assert!(m.is_read_only(&public));
    assert!(m.should_squash_root(&data, 0));
    assert!(!m.should_squash_root(&data, 1000));
    assert!(!m.should_squash_root(&public, 0));
    assert_eq!(m.resolve_fh(&data), Some(b"C:\\Shares\\data".to_vec()));
}

#[test]
fn lookup_child_names() {
    let mut m = manager();
    let dir = m.create_file_handle(b"/data", 1);
    let (child, root) = m.lookup_child_target(&dir, b"notes.txt").unwrap();
    assert_eq!(child, b"C:\\Shares\\data\\notes.txt".to_vec());
    assert_eq!(root, b"C:\\Shares\\data".to_vec());
    assert!(m.lookup_child_target(&dir, b"..").is_none());
    assert!(m.lookup_child_target(&dir, b"a/b").is_none());
    assert!(m.lookup_child_target(&dir, b"a\\b").is_none());
    assert!(m.lookup_child_target(&dir, b"").is_none());
    assert!(!is_safe_name(b"."));
    assert!(is_safe_name(b"...hidden"));
}

#[test]
fn rebuild_after_restart() {
    let mut old = manager();
    let h = old.get_or_create_fh(b"C:\\Shares\\data\\x", b"C:\\Shares\\data", 5);
    let mut fresh = manager();
    assert_eq!(fresh.rebuild_candidate(&h), Some((1, fnv1a_of(b"C:\\Shares\\data\\x"))));
    // a found path whose hash is not the stored inode is not recorded
    fresh.try_rebuild_fh(&h, &Some((b"C:\\Shares\\data\\other".to_vec(), b"C:\\Shares\\data".to_vec())));
    assert_eq!(fresh.fh_counter, 1);
    assert_eq!(fresh.resolve_fh(&h), None);
    assert_eq!(fresh.rebuild_candidate(&h), Some((1, fnv1a_of(b"C:\\Shares\\data\\x"))));
    // nothing found: nothing recorded
    fresh.try_rebuild_fh(&h, &None);
    assert_eq!(fresh.fh_counter, 1);
    fresh.try_rebuild_fh(&h, &Some((b"C:\\Shares\\data\\x".to_vec(), b"C:\\Shares\\data".to_vec())));
    assert_eq!(fresh.fh_counter, 2);
    assert_eq!(fresh.resolve_fh(&h), Some(b"C:\\Shares\\data\\x".to_vec()));
    assert_eq!(fresh.rebuild_candidate(&h), None);
    assert!(matches!(inode_walk_step(b"C:\\Shares\\data\\x", fnv1a_of(b"C:\\Shares\\data\\x"), 3, 8), InodeWalk::Found));
    assert!(matches!(inode_walk_step(b"C:\\y", 1, 8, 8), InodeWalk::Stop));
    assert!(matches!(inode_walk_step(b"C:\\y", 1, 2, 8), InodeWalk::Descend));
}

#[test]
fn fnv_and_key_material() {
    assert_eq!(fnv1a_of(b""), 0xcbf29ce484222325);
    assert_eq!(fnv1a_of(b"a"), 0xaf63dc4c8601ec8c);
    assert_eq!(derive_hmac_key(1, 2).len(), 32);
    assert_ne!(derive_hmac_key(1, 2), derive_hmac_key(1, 3));
    assert_eq!(xorshift_fill(5, 8).len(), 8);
    assert_eq!(handle_salt(0, 0, 0), handle_salt(0, 0, 0));
}

fn call(xid: u32, proc_: u32) -> Vec<u8> {
    let mut v = Vec::new();
    for w in [xid, 0, 2, 100005, 3, proc_, 0, 0, 0, 0] {
        v.extend_from_slice(&be(w));
    }
    v
}

#[test]
fn mount_mnt_and_export() {
    let mut m = manager();
    let mut req = call(9, 1);
    req.extend_from_slice(&be(5));
    req.extend_from_slice(b"/data\0\0\0");
    let r = MountServer::handle_request(&req, v4([192, 168, 1, 2]), &mut m, 3).unwrap();
    let w = words(&r[..32]);
    assert_eq!(w, vec![9, 1, 0, 0, 0, 0, 0, 40]);
    let fh = &r[32..72];
    assert_eq!(m.resolve_fh(fh), Some(b"C:\\Shares\\data".to_vec()));
    assert_eq!(words(&r[72..]), vec![1, 1]);
    // a client outside the allowed network is refused
    let denied = MountServer::handle_request(&req, v4([10, 0, 0, 1]), &mut m, 3).unwrap();
    assert_eq!(words(&denied), vec![9, 1, 0, 0, 0, 0, 13]);
    // EXPORT lists aliases, or paths when there is no alias
    let list = MountServer::handle_request(&call(10, 5), v4([1, 1, 1, 1]), &mut m, 3).unwrap();
    let lw = words(&list[24..]);
    assert_eq!(lw[0], 1);
    assert_eq!(lw[1], 4);
    assert_eq!(&list[32..36], b"data");
    assert!(MountServer::handle_request(&[0u8; 23], v4([1, 1, 1, 1]), &mut m, 3).is_none());
    let null = MountServer::handle_request(&call(11, 0), v4([1, 1, 1, 1]), &mut m, 3).unwrap();
    assert_eq!(words(&null), vec![11, 1, 0, 0, 0, 0]);
}

#[test]
fn second_request_reuses_entry() {
    let mut m = manager();
    let h1 = m.get_or_create_fh(b"C:\\Shares\\data\\y", b"C:\\Shares\\data", 5);
    let c = m.fh_counter;
    let n = m.handles.len();
    let h2 = m.get_or_create_fh(b"C:\\Shares\\data\\y", b"D:\\pub", 9);
    assert_eq!(m.fh_counter, c);
    assert_eq!(m.handles.len(), n);
    assert_eq!(h1[..20], h2[..20]);
    assert_eq!(m.get_fh_export_root(&h2), Some(b"C:\\Shares\\data".to_vec()));
}

#[test]
fn root_handles_are_valid() {
    let m = manager();
    let root = op_putrootfh().new_fh.unwrap();
    assert_eq!(root.len(), 32);
    assert!(m.validate_file_handle(&root));
    // the all-zero probe too, but not an empty handle
    assert!(m.validate_file_handle(&[0u8; 40]));
    assert!(!m.validate_file_handle(&[]));
    // a 32-byte handle with another ID is not the root
    let mut other = root.clone();
    other[7] = 0xfe;
    assert!(!m.validate_file_handle(&other));
}
