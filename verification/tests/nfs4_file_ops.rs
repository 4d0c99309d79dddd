use rustnfssvc::config::Config;
use rustnfssvc::dirlist::DirEntry;
use rustnfssvc::exports::ExportsManager;
use rustnfssvc::nfs4_attrs::{build_fattr4, FileMeta};
use rustnfssvc::nfs4_fs::{
    copy_source, create_kind, finish_clone, finish_copy, finish_link, finish_read, finish_read_plus,
    finish_readdir, finish_remove, finish_rename, finish_seek, finish_setattr, read_plus_extent,
    remove_decision, scan_setattr, CopyQuery, LinkResult, RangeQuery, SetAction, SetattrPlan,
};
use rustnfssvc::nfs4_fs::{finish_verify, VerifyQuery};

fn words(b: &[u8]) -> Vec<u32> {
    b.chunks(4).map(|c| u32::from_be_bytes([c[0], c[1], c[2], c[3]])).collect()
}

fn file(len: u64) -> FileMeta {
    FileMeta { is_dir: false, len, modified: Some((10, 5)), accessed: None, created: Some((3, 0)) }
}

#[test]
fn fattr4_values_in_bitmap_order() {
    // type, change and size; mode and time_modify
    let f = build_fattr4(&Some(file(1000)), &Some(b"C:\\x".to_vec()), &[0x1A, 0x0020_0002], 1, false);
    let w = words(&f);
    assert_eq!(&w[0..4], &[2, 0x1A, 0x0020_0002, 36]);
    assert_eq!(w[4], 1);
    assert_eq!(&f[20..28], &10_000_000_005u64.to_be_bytes());
    assert_eq!(&f[28..36], &1000u64.to_be_bytes());
    assert_eq!(w[9], 0o644);
    assert_eq!(&f[40..48], &10u64.to_be_bytes());
    assert_eq!(w[12], 0);
    assert_eq!(f.len(), 52);
    // attributes the server does not supply are dropped from the bitmap
    let g = build_fattr4(&None, &None, &[0x8000_0000, 0x4000_0000], 2, true);
    assert_eq!(words(&g), vec![2, 0, 0, 0]);
    // the pseudo-root's file ID is 2; an empty bitmap lists nothing
    let id = build_fattr4(&None, &None, &[1 << 20], 2, true);
    assert_eq!(&id[16..24], &2u64.to_be_bytes());
    assert_eq!(words(&build_fattr4(&None, &None, &[], 1, false)), vec![2, 0, 0, 0]);
}

fn entry(name: &str) -> DirEntry {
    DirEntry {
        name: name.as_bytes().to_vec(),
        path: format!("C:\\d\\{}", name).into_bytes(),
        is_dir: false,
        meta: None,
    }
}

#[test]
fn readdir_sorts_and_pages() {
    let mut ex = ExportsManager::new(Config::default(), vec![5u8; 32]);
    let all = finish_readdir(&mut ex, vec![entry("b"), entry("a"), entry("c")], 0, 1000, &[], 16, b"C:\\d", 1);
    assert_eq!(all.status, 0);
    assert_eq!(all.advance, 16);
    let r = &all.result;
    assert_eq!(&r[0..8], &[1u8; 8]);
    // three 36-byte entries in name order with cookies 3, 4, 5, then end of list and EOF
    assert_eq!(r.len(), 8 + 3 * 36 + 8);
    for (k, name) in ["a", "b", "c"].iter().enumerate() {
        let e = &r[8 + 36 * k..8 + 36 * (k + 1)];
        assert_eq!(words(&e[0..4]), vec![1]);
        assert_eq!(&e[4..12], &(3 + k as u64).to_be_bytes());
        assert_eq!(words(&e[12..16]), vec![1]);
        assert_eq!(e[16], name.as_bytes()[0]);
        assert_eq!(words(&e[20..36]), vec![2, 0, 0, 0]);
    }
    assert_eq!(words(&r[116..124]), vec![0, 1]);
    assert_eq!(ex.handles.len(), 3);
    // a small maximum count: one entry, no EOF
    let mut ex2 = ExportsManager::new(Config::default(), vec![5u8; 32]);
    let page = finish_readdir(&mut ex2, vec![entry("b"), entry("a"), entry("c")], 0, 62, &[], 16, b"C:\\d", 1);
    assert_eq!(page.result.len(), 8 + 36 + 8);
    assert_eq!(page.result[24], b'a');
    assert_eq!(words(&page.result[44..52]), vec![0, 0]);
    // resuming after cookie 3 lists the rest
    let rest = finish_readdir(&mut ex2, vec![entry("c"), entry("a"), entry("b")], 3, 1000, &[], 16, b"C:\\d", 1);
    assert_eq!(rest.result.len(), 8 + 2 * 36 + 8);
    assert_eq!(rest.result[24], b'b');
    assert_eq!(&rest.result[12..20], &4u64.to_be_bytes());
    assert_eq!(words(&rest.result[80..88]), vec![0, 1]);
}

fn range(offset: u64, count: u32) -> RangeQuery {
    RangeQuery { path: b"C:\\f".to_vec(), offset, count }
}

#[test]
fn read_seek_and_read_plus() {
    let r = finish_read(&range(1, 3), &Some(b"hello".to_vec()));
    assert_eq!(r.status, 0);
    assert_eq!(words(&r.result[0..8]), vec![0, 3]);
    assert_eq!(&r.result[8..11], b"ell");
    let tail = finish_read(&range(3, 10), &Some(b"hello".to_vec()));
    assert_eq!(words(&tail.result[0..8]), vec![1, 2]);
    assert_eq!(finish_read(&range(0, 1), &None).status, 5);

    let data = finish_seek(&range(2, 0), Some(10));
    assert_eq!(&data.result[0..8], &2u64.to_be_bytes());
    assert_eq!(&data.result[8..16], &8u64.to_be_bytes());
    assert_eq!(words(&data.result[16..20]), vec![0]);
    let hole = finish_seek(&range(2, 1), Some(10));
    assert_eq!(&hole.result[0..8], &10u64.to_be_bytes());
    assert_eq!(words(&hole.result[8..16]), vec![0, 1]);
    assert_eq!(finish_seek(&range(2, 7), Some(10)).status, 22);
    assert_eq!(finish_seek(&range(2, 0), None).status, 5);

    match read_plus_extent(&range(7, 10), Some(5)) {
        Err(o) => {
            assert_eq!(o.status, 0);
            assert_eq!(words(&o.result[16..28]), vec![0, 1, 1]);
            assert_eq!(&o.result[28..36], &7u64.to_be_bytes());
        }
        Ok(_) => panic!("past the end is a hole"),
    }
    match read_plus_extent(&range(2, 10), Some(5)) {
        Ok(n) => assert_eq!(n, 3),
        Err(_) => panic!("inside the file"),
    }
    let rp = finish_read_plus(&range(2, 10), 5, &Some(b"llo".to_vec()));
    assert_eq!(&rp.result[0..16], &[0u8; 16]);
    assert_eq!(words(&rp.result[16..28]), vec![3, 1, 0]);
    assert_eq!(&rp.result[28..36], &2u64.to_be_bytes());
    assert_eq!(words(&rp.result[36..44]), vec![3, 3]);
    assert_eq!(&rp.result[44..47], b"llo");
}

#[test]
fn remove_rename_link_create_answers() {
    assert_eq!(remove_decision(false, false, false, 8).err().unwrap().status, 2);
    assert_eq!(remove_decision(true, true, false, 8).err().unwrap().status, 66);
    assert_eq!(remove_decision(true, true, true, 8).ok(), Some(true));
    assert_eq!(remove_decision(true, false, false, 8).ok(), Some(false));
    let rm = finish_remove(true, 8);
    assert_eq!(rm.status, 0);
    assert_eq!(words(&rm.result), vec![1, 0, 0, 0, 1]);
    assert_eq!(finish_remove(false, 8).status, 5);

    assert_eq!(finish_rename(false, false, 4).status, 2);
    assert_eq!(finish_rename(true, false, 4).status, 5);
    assert_eq!(words(&finish_rename(true, true, 4).result), vec![1, 0, 0, 0, 1, 1, 0, 0, 0, 1]);

    let made = finish_link(LinkResult::Made(123), 4);
    assert_eq!(words(&made.result), vec![0, 0, 0, 0, 123]);
    assert_eq!(finish_link(LinkResult::AlreadyExists, 4).status, 17);
    assert_eq!(finish_link(LinkResult::NotFound, 4).status, 70);
    assert_eq!(finish_link(LinkResult::Failed, 4).status, 5);

    assert_eq!(create_kind(2), Some(true));
    assert_eq!(create_kind(1), Some(false));
    assert_eq!(create_kind(5), None);
}

#[test]
fn setattr_values() {
    let mut d = Vec::new();
    d.extend_from_slice(&100u64.to_be_bytes());
    d.extend_from_slice(&0u32.to_be_bytes());
    d.extend_from_slice(&5u64.to_be_bytes());
    d.extend_from_slice(&6u32.to_be_bytes());
    let (actions, short) = scan_setattr(1 << 4, 1 << 22, &d);
    assert_eq!(actions, vec![SetAction::Size(100), SetAction::Mtime(5, 6)]);
    assert!(!short);
    let (now, _) = scan_setattr(0, 1 << 22, &1u32.to_be_bytes());
    assert_eq!(now, vec![SetAction::MtimeNow]);
    let (cut, short2) = scan_setattr(1 << 4, 0, &[0, 0, 0]);
    assert!(cut.is_empty());
    assert!(short2);

    let plan = SetattrPlan { path: b"C:\\f".to_vec(), actions: vec![SetAction::Size(1), SetAction::MtimeNow], short: false, advance: 12 };
    assert_eq!(words(&finish_setattr(&plan, &[true, false]).result), vec![2, 16, 0]);
    assert_eq!(words(&finish_setattr(&plan, &[false, true]).result), vec![2, 0, 0x400000]);
    let bad = SetattrPlan { path: b"C:\\f".to_vec(), actions: vec![], short: true, advance: 12 };
    assert_eq!(finish_setattr(&bad, &[]).status, 10036);
}

#[test]
fn copy_and_clone() {
    let q = copy_query(2);
    match copy_source(&q, &Some(b"abcdef".to_vec())) {
        Ok(bytes) => assert_eq!(bytes, b"cdef".to_vec()),
        Err(_) => panic!("source is readable"),
    }
    let past = copy_query(9);
    assert_eq!(copy_source(&past, &Some(b"abc".to_vec())).err().unwrap().status, 22);
    assert_eq!(copy_source(&q, &None).err().unwrap().status, 5);
    assert_eq!(words(&finish_copy(&q, 4, true).result), vec![4, 1]);
    assert_eq!(finish_copy(&q, 4, false).status, 5);
    assert_eq!(finish_clone(&q, true).status, 0);
    assert_eq!(finish_clone(&q, false).status, 5);
}

fn copy_query(source_offset: u64) -> CopyQuery {
    CopyQuery {
        source: b"C:\\s".to_vec(),
        sink: b"C:\\t".to_vec(),
        source_offset,
        count: 10,
        sink_offset: 0,
        advance: 40,
    }
}

#[test]
fn fattr4_values_fill_whole_words() {
    for req in [[0xffff_ffffu32, 0xffff_ffff], [0x0000_0030, 0x0000_0030], [0x0010_0000, 0x0080_0000]] {
        let f = build_fattr4(&Some(file(7)), &Some(b"C:\\y".to_vec()), &req, 1, false);
        let n = u32::from_be_bytes([f[12], f[13], f[14], f[15]]) as usize;
        assert_eq!(n % 4, 0);
        assert_eq!(f.len(), 16 + n);
    }
}

#[test]
fn verify_and_nverify_are_opposites() {
    let q = |bm0: u32, bm1: u32, data: Vec<u8>| VerifyQuery { path: b"C:\\y".to_vec(), bm0, bm1, data, advance: 12 };
    let same = q(1 << 4, 0, 7u64.to_be_bytes().to_vec());
    let differ = q(1 << 4, 0, 8u64.to_be_bytes().to_vec());
    let meta = Some(file(7));
    assert_eq!(finish_verify(37, &same, &meta).status, 0);
    assert_eq!(finish_verify(17, &same, &meta).status, 10009);
    assert_eq!(finish_verify(37, &differ, &meta).status, 10027);
    assert_eq!(finish_verify(17, &differ, &meta).status, 0);
    // an attribute that cannot be compared: both refuse
    let odd = q(0, 1 << 1, 0u32.to_be_bytes().to_vec());
    assert_eq!(finish_verify(37, &odd, &meta).status, 10032);
    assert_eq!(finish_verify(17, &odd, &meta).status, 10032);
}
