use rustnfssvc::config::{Config, ExportEntry};
use rustnfssvc::exports::ExportsManager;
use rustnfssvc::nfs4_fs::{
    finish_lookup_child, lookup_export, op_lookupp, plan_clone, plan_copy, plan_lookup, plan_putfh,
    plan_remove, plan_write, LookupStep, RemoveStep,
};
use rustnfssvc::nfs4_ops::{op_commit, op_getfh, op_putrootfh, op_restorefh, op_secinfo_no_name};

fn put(v: &mut Vec<u8>, ws: &[u32]) {
    for w in ws {
        v.extend_from_slice(&w.to_be_bytes());
    }
}

fn opaque(v: &mut Vec<u8>, data: &[u8]) {
    put(v, &[data.len() as u32]);
    v.extend_from_slice(data);
    while v.len() % 4 != 0 {
        v.push(0);
    }
}

fn manager() -> ExportsManager {
    let mut config = Config::default();
    config.exports.entries = vec![
        ExportEntry {
            path: "C:\\rw".to_string(),
            alias: Some("share".to_string()),
            allowed_clients: vec!["*".to_string()],
            options: vec![],
            description: None,
        },
        ExportEntry {
            path: "C:\\ro".to_string(),
            alias: None,
            allowed_clients: vec!["*".to_string()],
            options: vec!["ro".to_string()],
            description: None,
        },
    ];
    let mut m = ExportsManager::new(config, vec![6u8; 32]);
    m.reload_exports_async(&[true, true]);
    m
}

fn write_args(offset: u64, data: &[u8]) -> Vec<u8> {
    let mut v = vec![0u8; 16];
    v.extend_from_slice(&offset.to_be_bytes());
    put(&mut v, &[2]);
    opaque(&mut v, data);
    v
}

#[test]
fn write_plan_errors() {
    let mut m = manager();
    let rw = Some(m.create_file_handle(b"/share", 1));
    let ro = Some(m.create_file_handle(b"/ro", 1));
    assert_eq!(plan_write(&m, &write_args(0, b"x"), 0, &None).err().unwrap().status, 10020);
    assert_eq!(plan_write(&m, &write_args(0, b"x"), 0, &ro).err().unwrap().status, 30);
    assert_eq!(plan_write(&m, &[0u8; 20], 0, &rw).err().unwrap().status, 10036);
    let stale = Some(vec![3u8; 40]);
    let o = plan_write(&m, &write_args(0, b"abc"), 0, &stale).err().unwrap();
    assert_eq!(o.status, 70);
    assert_eq!(o.advance, 36);
    let q = plan_write(&m, &write_args(9, b"abc"), 0, &rw).ok().unwrap();
    assert_eq!(q.path, b"C:\\rw".to_vec());
    assert_eq!(q.offset, 9);
    assert_eq!(q.stable, 2);
    assert_eq!(q.data, b"abc".to_vec());
    assert_eq!(q.advance, 36);
}

#[test]
fn putfh_and_handles() {
    let mut req = Vec::new();
    opaque(&mut req, &[7u8; 40]);
    let (fh, adv) = plan_putfh(&req, 0).ok().unwrap();
    assert_eq!(fh, vec![7u8; 40]);
    assert_eq!(adv, 44);
    assert_eq!(plan_putfh(&[0, 0, 0, 0], 0).err().unwrap().status, 10001);
    assert_eq!(plan_putfh(&[0, 0], 0).err().unwrap().status, 10036);
    assert_eq!(plan_putfh(&[0, 0, 0, 9, 1], 0).err().unwrap().status, 10036);
    assert_eq!(op_getfh(&None).status, 10020);
    assert_eq!(op_restorefh(&None).status, 10030);
    let root = op_putrootfh().new_fh.unwrap();
    let c = op_commit(&Some(root), &[9u8; 8]);
    assert_eq!(c.result, vec![9u8; 8]);
    assert_eq!(op_commit(&None, &[9u8; 8]).status, 10020);
    let s = op_secinfo_no_name(&[0, 0, 0, 0], 0);
    assert_eq!(s.status, 0);
}

#[test]
fn lookup_from_root_and_children() {
    let mut m = manager();
    let root = op_putrootfh().new_fh;
    let mut req = Vec::new();
    opaque(&mut req, b"share");
    match plan_lookup(&m, &req, 0, &root) {
        LookupStep::Export { name, advance } => {
            assert_eq!(name, b"share".to_vec());
            assert_eq!(advance, 12);
            let o = lookup_export(&mut m, &name, advance, 1);
            assert_eq!(o.status, 0);
            assert_eq!(m.resolve_fh(o.new_fh.as_ref().unwrap()), Some(b"C:\\rw".to_vec()));
        }
        _ => panic!("an export name"),
    }
    assert_eq!(lookup_export(&mut m, b"nothing", 4, 1).status, 2);
    let dir = Some(m.create_file_handle(b"/share", 1));
    let mut child_req = Vec::new();
    opaque(&mut child_req, b"docs");
    match plan_lookup(&m, &child_req, 0, &dir) {
        LookupStep::Child { child, root, advance } => {
            assert_eq!(child, b"C:\\rw\\docs".to_vec());
            assert_eq!(root, b"C:\\rw".to_vec());
            // an existing child that resolves outside the export is refused
            let out = finish_lookup_child(&mut m, &child, &root, true, &Some(b"D:\\elsewhere".to_vec()), b"C:\\rw", advance, 1);
            assert_eq!(out.status, 2);
            let inside = finish_lookup_child(&mut m, &child, &root, true, &Some(b"C:\\rw\\docs".to_vec()), b"C:\\rw", advance, 1);
            assert_eq!(inside.status, 0);
            assert_eq!(m.resolve_fh(inside.new_fh.as_ref().unwrap()), Some(b"C:\\rw\\docs".to_vec()));
            // LOOKUPP goes back to the export root, not above it
            let up = op_lookupp(&mut m, &inside.new_fh, 1);
            assert_eq!(m.resolve_fh(up.new_fh.as_ref().unwrap()), Some(b"C:\\rw".to_vec()));
            assert_eq!(op_lookupp(&mut m, &up.new_fh, 1).status, 2);
        }
        _ => panic!("a child"),
    }
    let mut dots = Vec::new();
    opaque(&mut dots, b"..");
    match plan_lookup(&m, &dots, 0, &dir) {
        LookupStep::Done(o) => assert_eq!(o.status, 2),
        _ => panic!("'..' is refused"),
    }
}

#[test]
fn remove_plan() {
    let mut m = manager();
    let rw = Some(m.create_file_handle(b"/share", 1));
    let ro = Some(m.create_file_handle(b"/ro", 1));
    let mut req = Vec::new();
    opaque(&mut req, b"old.txt");
    match plan_remove(&m, &req, 0, &rw) {
        RemoveStep::Remove { target, advance } => {
            assert_eq!(target, b"C:\\rw\\old.txt".to_vec());
            assert_eq!(advance, 12);
        }
        RemoveStep::Done(_) => panic!("a target"),
    }
    match plan_remove(&m, &req, 0, &ro) {
        RemoveStep::Done(o) => assert_eq!(o.status, 30),
        _ => panic!("ROFS"),
    }
    match plan_remove(&m, &req, 0, &None) {
        RemoveStep::Done(o) => assert_eq!(o.status, 10020),
        _ => panic!("no handle"),
    }
}

fn copy_args(src_off: u64, count: u32, dst_off: u64) -> Vec<u8> {
    let mut v = vec![0u8; 16];
    v.extend_from_slice(&src_off.to_be_bytes());
    put(&mut v, &[count, 0, 0, 0, 0]);
    v.extend_from_slice(&dst_off.to_be_bytes());
    // netloc type 0, then 8 more bytes
    put(&mut v, &[0, 0, 0]);
    v
}

#[test]
fn copy_and_clone_refuse_read_only_sink() {
    let mut m = manager();
    let rw = Some(m.create_file_handle(b"/share", 1));
    let ro = Some(m.create_file_handle(b"/ro", 1));
    let args = copy_args(0, 10, 0);
    assert_eq!(args.len(), 64);
    // sink (current handle) in the read-only export
    assert_eq!(plan_copy(&m, &args, 0, &ro, &rw).err().unwrap().status, 30);
    assert_eq!(plan_clone(&m, &args[..52], 0, &ro, &rw).err().unwrap().status, 30);
    // a read-only source is fine
    let q = plan_copy(&m, &args, 0, &rw, &ro).ok().unwrap();
    assert_eq!(q.sink, b"C:\\rw".to_vec());
    assert_eq!(q.source, b"C:\\ro".to_vec());
    assert_eq!(q.count, 10);
    assert_eq!(q.advance, 64);
    let q = plan_clone(&m, &args[..52], 0, &rw, &ro).ok().unwrap();
    assert_eq!(q.sink, b"C:\\rw".to_vec());
    assert_eq!(q.advance, 52);
}
