use rustnfssvc::config::{Config, ExportEntry};
use rustnfssvc::exports::ExportsManager;
use rustnfssvc::nfs3::{
    build_fattr3, finish_v3_read, finish_v3_write, merge_write, parse_v3_call, plan_v3_dir_op,
    plan_v3_lookup, plan_v3_read, plan_v3_write, v3_attr_reply, v3_commit, v3_not_supported, v3_proc,
    v3_setattr, AttrProc, Attr3, V3Call, V3DirStep, V3LookupStep, V3Proc, V3WriteStep,
};
use rustnfssvc::nfs4_attrs::FileMeta;

fn be(v: u32) -> [u8; 4] {
    v.to_be_bytes()
}

fn words(b: &[u8]) -> Vec<u32> {
    b.chunks(4).map(|c| u32::from_be_bytes([c[0], c[1], c[2], c[3]])).collect()
}

fn put(v: &mut Vec<u8>, ws: &[u32]) {
    for w in ws {
        v.extend_from_slice(&be(*w));
    }
}

fn opaque(v: &mut Vec<u8>, data: &[u8]) {
    put(v, &[data.len() as u32]);
    v.extend_from_slice(data);
    while v.len() % 4 != 0 {
        v.push(0);
    }
}

fn v3_call(xid: u32, procedure: u32) -> Vec<u8> {
    let mut v = Vec::new();
    put(&mut v, &[xid, 0, 2, 100003, 3, procedure, 0, 0, 0, 0]);
    v
}

fn manager() -> ExportsManager {
    let mut config = Config::default();
    config.exports.entries = vec![
        ExportEntry {
            path: "C:\\rw".to_string(),
            alias: None,
            allowed_clients: vec!["*".to_string()],
            options: vec![],
            description: None,
        },
        ExportEntry {
            path: "C:\\ro".to_string(),
            alias: None,
            allowed_clients: vec!["*".to_string()],
            options: vec!["ro".to_string()],
            description: None,
        },
    ];
    let mut m = ExportsManager::new(config, vec![4u8; 32]);
    m.reload_exports_async(&[true, true]);
    m
}

#[test]
fn v3_call_headers() {
    let req = v3_call(3, 6);
    match parse_v3_call(&req) {
        V3Call::Call { procedure, args_off } => {
            assert_eq!(procedure, 6);
            assert_eq!(args_off, 32);
        }
        V3Call::NoReply => panic!("a call"),
    }
    let mut with_args = v3_call(3, 6);
    put(&mut with_args, &[0]);
    match parse_v3_call(&with_args) {
        V3Call::Call { args_off, .. } => assert_eq!(args_off, 40),
        V3Call::NoReply => panic!("a call"),
    }
    let mut reply = v3_call(3, 6);
    reply[4..8].copy_from_slice(&be(1));
    assert!(matches!(parse_v3_call(&reply), V3Call::NoReply));
    assert!(matches!(parse_v3_call(&req[..20]), V3Call::NoReply));
    assert_eq!(v3_proc(17), V3Proc::ReadDir);
    assert_eq!(v3_proc(11), V3Proc::NotSupported);
    assert_eq!(v3_proc(22), V3Proc::Unknown);
    assert_eq!(v3_proc(12), V3Proc::Remove);
}

#[test]
fn fattr3_layout() {
    let meta = FileMeta { is_dir: false, len: 1234, modified: Some((1_700_000_000, 5)), accessed: None, created: None };
    let f = build_fattr3(&Attr3 { meta: Some(meta), fileid: 99 });
    assert_eq!(f.len(), 84);
    let w = words(&f);
    assert_eq!(&w[0..5], &[1, 0o644, 1, 0, 0]);
    assert_eq!(&w[5..9], &[0, 1234, 0, 1234]);
    assert_eq!(&w[9..13], &[0, 0, 0, 1]);
    assert_eq!(&w[13..15], &[0, 99]);
    assert_eq!(&w[15..21], &[1_700_000_000, 0, 1_700_000_000, 0, 1_700_000_000, 0]);
    let dir = build_fattr3(&Attr3 { meta: Some(FileMeta { is_dir: true, len: 0, modified: None, accessed: None, created: None }), fileid: 1 });
    assert_eq!(&words(&dir)[0..2], &[2, 0o755]);
    let unknown = build_fattr3(&Attr3 { meta: None, fileid: 1 });
    assert_eq!(words(&unknown)[0], 1);
}

#[test]
fn fixed_replies() {
    let req = v3_call(77, 19);
    let r = v3_attr_reply(&req, AttrProc::FsInfo, &None);
    let w = words(&r);
    assert_eq!(&w[0..8], &[77, 1, 0, 0, 0, 0, 0, 0]);
    assert_eq!(&w[8..15], &[65536, 65536, 4096, 65536, 65536, 4096, 65536]);
    assert_eq!(&w[15..17], &[u32::MAX, u32::MAX]);
    assert_eq!(&w[17..], &[0, 1, 0x1B]);
    let a = v3_attr_reply(&req, AttrProc::Access, &None);
    assert_eq!(*words(&a).last().unwrap(), 0x3F);
    assert_eq!(words(&v3_commit(&req)), vec![77, 1, 0, 0, 0, 0, 0, 0, 0, 0, 0]);
    assert_eq!(words(&v3_not_supported(&req)), vec![77, 1, 0, 0, 0, 0, 10004, 0]);
}

#[test]
fn read_only_exports_refuse_changes() {
    let mut m = manager();
    let ro = m.create_file_handle(b"/ro", 1);
    let rw = m.create_file_handle(b"/rw", 1);
    let mut req = v3_call(5, 2);
    let off = req.len();
    opaque(&mut req, &ro);
    let r = v3_setattr(&m, &req, off).unwrap();
    assert_eq!(&words(&r)[6..7], &[30]);
    let mut req2 = v3_call(5, 2);
    opaque(&mut req2, &rw);
    assert_eq!(&words(&v3_setattr(&m, &req2, off).unwrap())[6..7], &[0]);
    // WRITE on the read-only export: ROFS with count 0
    let mut w = v3_call(6, 7);
    opaque(&mut w, &ro);
    match plan_v3_write(&m, &w, off) {
        V3WriteStep::Reply(Some(r)) => assert_eq!(words(&r), vec![6, 1, 0, 0, 0, 0, 30, 0, 0, 0, 2, 0, 0]),
        _ => panic!("ROFS expected"),
    }
    // CREATE in the read-only export
    let mut c = v3_call(7, 8);
    opaque(&mut c, &ro);
    opaque(&mut c, b"new.txt");
    match plan_v3_dir_op(&m, &c, off, 1) {
        V3DirStep::Reply(Some(r)) => assert_eq!(words(&r), vec![7, 1, 0, 0, 0, 0, 30, 0, 0]),
        _ => panic!("ROFS expected"),
    }
    // CREATE in the writable export names the target
    let mut c2 = v3_call(8, 8);
    opaque(&mut c2, &rw);
    opaque(&mut c2, b"new.txt");
    match plan_v3_dir_op(&m, &c2, off, 1) {
        V3DirStep::Target { target, root } => {
            assert_eq!(target, b"C:\\rw\\new.txt".to_vec());
            assert_eq!(root, b"C:\\rw".to_vec());
        }
        _ => panic!("target expected"),
    }
    // an unknown directory handle: STALE
    let mut c3 = v3_call(9, 13);
    opaque(&mut c3, &[9u8; 40]);
    opaque(&mut c3, b"x");
    match plan_v3_dir_op(&m, &c3, off, 2) {
        V3DirStep::Reply(Some(r)) => assert_eq!(words(&r), vec![9, 1, 0, 0, 0, 0, 70, 0, 0, 0, 0]),
        _ => panic!("STALE expected"),
    }
}

#[test]
fn write_plan_and_merge() {
    let mut m = manager();
    let rw = m.create_file_handle(b"/rw", 1);
    let mut w = v3_call(6, 7);
    let off = w.len();
    opaque(&mut w, &rw);
    w.extend_from_slice(&4u64.to_be_bytes());
    put(&mut w, &[3, 2]);
    opaque(&mut w, b"xyz");
    match plan_v3_write(&m, &w, off) {
        V3WriteStep::Write { path, offset, data } => {
            assert_eq!(path, Some(b"C:\\rw".to_vec()));
            assert_eq!(offset, 4);
            assert_eq!(data, b"xyz".to_vec());
        }
        _ => panic!("write expected"),
    }
    assert_eq!(merge_write(b"abcdef", 4, b"xyz"), b"abcdxyz".to_vec());
    assert_eq!(merge_write(b"ab", 4, b"x"), vec![b'a', b'b', 0, 0, b'x']);
    assert_eq!(merge_write(b"abcdef", 1, b"Z"), b"aZcdef".to_vec());
    let r = finish_v3_write(&w, 3, true);
    assert_eq!(words(&r), vec![6, 1, 0, 0, 0, 0, 0, 0, 0, 3, 2, 0, 0]);
    assert_eq!(words(&finish_v3_write(&w, 3, false))[9], 0);
}

#[test]
fn read_slices_the_file() {
    let mut m = manager();
    let rw = m.create_file_handle(b"/rw", 1);
    let mut req = v3_call(4, 6);
    let off = req.len();
    opaque(&mut req, &rw);
    req.extend_from_slice(&2u64.to_be_bytes());
    put(&mut req, &[3]);
    let plan = plan_v3_read(&m, &req, off).unwrap();
    assert_eq!(plan.path, Some(b"C:\\rw".to_vec()));
    assert_eq!(plan.offset, 2);
    assert_eq!(plan.count, 3);
    let r = finish_v3_read(&req, &plan, &None, &Some(b"hello".to_vec()));
    let w = words(&r[..44]);
    // OK, no attributes, 3 bytes, end of file reached, "llo"
    assert_eq!(&w[6..10], &[0, 0, 3, 1]);
    assert_eq!(&w[10..11], &[3]);
    assert_eq!(&r[44..47], b"llo");
    let plan2 = rustnfssvc::nfs3::V3ReadPlan { path: plan.path.clone(), offset: 0, count: 2 };
    let r2 = finish_v3_read(&req, &plan2, &None, &Some(b"hello".to_vec()));
    assert_eq!(&words(&r2)[8..11], &[2, 0, 2]);
    let r3 = finish_v3_read(&req, &plan2, &None, &None);
    assert_eq!(&words(&r3)[8..11], &[0, 1, 0]);
}

#[test]
fn lookup_plan_rejects_bad_names() {
    let mut m = manager();
    let rw = m.create_file_handle(b"/rw", 1);
    let mut req = v3_call(2, 3);
    let off = req.len();
    opaque(&mut req, &rw);
    opaque(&mut req, b"..");
    match plan_v3_lookup(&m, &req, off) {
        V3LookupStep::Reply(Some(r)) => assert_eq!(words(&r), vec![2, 1, 0, 0, 0, 0, 2, 0]),
        _ => panic!("NOENT expected"),
    }
    let mut ok = v3_call(2, 3);
    opaque(&mut ok, &rw);
    opaque(&mut ok, b"docs");
    match plan_v3_lookup(&m, &ok, off) {
        V3LookupStep::Child { child, root, dir, .. } => {
            assert_eq!(child, b"C:\\rw\\docs".to_vec());
            assert_eq!(root, b"C:\\rw".to_vec());
            assert_eq!(dir, b"C:\\rw".to_vec());
        }
        _ => panic!("child expected"),
    }
}

#[test]
fn read_after_write_sees_the_data() {
    let file = merge_write(b"0123456789", 3, b"abc");
    let req = v3_call(1, 6);
    let plan = rustnfssvc::nfs3::V3ReadPlan { path: Some(b"C:\\f".to_vec()), offset: 3, count: 3 };
    let r = finish_v3_read(&req, &plan, &None, &Some(file));
    assert_eq!(&words(&r)[8..11], &[3, 0, 3]);
    assert_eq!(&r[44..47], b"abc");
}
