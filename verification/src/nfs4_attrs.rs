//! NFSv4 file attributes: the `fattr4` a GETATTR or READDIR returns, built
//! from a file's metadata, and the attribute comparison behind VERIFY and
//! NVERIFY.

use vstd::prelude::*;
use vstd::string::StringSliceAdditionalSpecFns;
use crate::exports::{fnv1a, fnv1a_of};
use crate::nfs4_consts::{NF4DIR, NF4REG};
use crate::xdr::{be32, be64, get_u32, get_u64, opaque_bytes, put_bytes, put_opaque, put_u32, put_u64, u32_bytes, u64_bytes};

verus! {

/// What the server reads of a file's metadata. Times are seconds and
/// nanoseconds since the Unix epoch; `None` where the platform gives none.
#[derive(Clone, Copy, Debug, PartialEq, Eq)]
pub struct FileMeta {
    pub is_dir: bool,
    pub len: u64,
    pub modified: Option<(u64, u32)>,
    pub accessed: Option<(u64, u32)>,
    pub created: Option<(u64, u32)>,
}

/// The attributes (word 0) the server supplies: supported_attrs, type,
/// fh_expire_type, change, size, link_support, symlink_support, named_attr,
/// fsid, unique_handles, lease_time and fileid.
pub const BM0_PROVIDE: u32 = 0x0010_07FF;

/// The attributes (word 1) the server supplies: mode, numlinks, owner,
/// owner_group, rawdev, space_used, space_freed, time_access,
/// time_metadata, time_modify and mounted_on_fileid.
pub const BM1_PROVIDE: u32 = 0x00B0_E23A;

/// Bit `k` of `w` is set.
pub open spec fn has_bit(w: u32, k: u32) -> bool {
    w & (1u32 << k) != 0
}

/// `s` when `b` holds, nothing otherwise.
#[verifier::opaque]
pub open spec fn when(b: bool, s: Seq<u8>) -> Seq<u8> {
    if b { s } else { Seq::empty() }
}

/// A time as nanoseconds since the epoch, cut to 64 bits.
pub open spec fn nanos_of(t: (u64, u32)) -> u64 {
    (t.0 * 1_000_000_000 + t.1) as u64
}

/// The change attribute: the modification time in nanoseconds, or 0.
pub open spec fn change_of(meta: Option<FileMeta>) -> u64 {
    match meta {
        Some(m) => match m.modified {
            Some(t) => nanos_of(t),
            None => 0,
        },
        None => 0,
    }
}

/// The size, or 0 without metadata.
pub open spec fn size_of_meta(meta: Option<FileMeta>) -> u64 {
    match meta {
        Some(m) => m.len,
        None => 0,
    }
}

/// The file type: a directory or a regular file, or `default_type`
/// without metadata.
pub open spec fn ftype_of(meta: Option<FileMeta>, default_type: u32) -> u32 {
    match meta {
        Some(m) => if m.is_dir { NF4DIR } else { NF4REG },
        None => default_type,
    }
}

/// The mode: 0755 for a directory, 0644 otherwise.
pub open spec fn mode_of(meta: Option<FileMeta>) -> u32 {
    match meta {
        Some(m) => if m.is_dir { 0o755 } else { 0o644 },
        None => 0o644,
    }
}

/// The file ID: 2 for the pseudo-root or a missing or empty path, otherwise
/// the FNV-1a hash of the path's bytes.
pub open spec fn fileid_of(path: Option<Seq<u8>>, is_root: bool) -> u64 {
    if is_root {
        2
    } else {
        match path {
            Some(p) => if p.len() == 0 { 2 } else { fnv1a(p) },
            None => 2,
        }
    }
}

/// Space used: the size rounded up to 512-byte blocks (64-bit arithmetic).
pub open spec fn space_used_of(meta: Option<FileMeta>) -> u64 {
    let size = size_of_meta(meta);
    if size == 0 { 0 } else { ((size + 511) / 512 * 512) as u64 }
}

/// A time's seconds and nanoseconds, or zeros.
pub open spec fn time_or_zero(t: Option<(u64, u32)>) -> (u64, u32) {
    match t {
        Some(v) => v,
        None => (0, 0),
    }
}

/// Access time, falling back to the modification time.
pub open spec fn atime_of(meta: Option<FileMeta>) -> (u64, u32) {
    match meta {
        Some(m) => match m.accessed {
            Some(t) => t,
            None => time_or_zero(m.modified),
        },
        None => (0, 0),
    }
}

/// Creation time (the metadata-change time reported).
pub open spec fn ctime_of(meta: Option<FileMeta>) -> (u64, u32) {
    match meta {
        Some(m) => time_or_zero(m.created),
        None => (0, 0),
    }
}

/// Modification time.
pub open spec fn mtime_of(meta: Option<FileMeta>) -> (u64, u32) {
    match meta {
        Some(m) => time_or_zero(m.modified),
        None => (0, 0),
    }
}

/// The owner and group names reported.
pub open spec fn owner_name() -> Seq<u8> {
    "root".spec_bytes()
}

/// Values of the first six word-0 attributes in `a0`.
pub open spec fn word0_a(a0: u32, meta: Option<FileMeta>, default_type: u32) -> Seq<u8> {
    when(has_bit(a0, 0), u32_bytes(2) + u32_bytes(BM0_PROVIDE) + u32_bytes(BM1_PROVIDE))
        + when(has_bit(a0, 1), u32_bytes(ftype_of(meta, default_type)))
        + when(has_bit(a0, 2), u32_bytes(1))
        + when(has_bit(a0, 3), u64_bytes(change_of(meta)))
        + when(has_bit(a0, 4), u64_bytes(size_of_meta(meta)))
        + when(has_bit(a0, 5), u32_bytes(1))
}

/// Values of the remaining word-0 attributes in `a0`.
pub open spec fn word0_b(a0: u32, path: Option<Seq<u8>>, is_root: bool) -> Seq<u8> {
    when(has_bit(a0, 6), u32_bytes(1))
        + when(has_bit(a0, 7), u32_bytes(0))
        + when(has_bit(a0, 8), u64_bytes(1) + u64_bytes(0))
        + when(has_bit(a0, 9), u32_bytes(1))
        + when(has_bit(a0, 10), u32_bytes(90))
        + when(has_bit(a0, 20), u64_bytes(fileid_of(path, is_root)))
}

/// Values of the first six word-1 attributes in `a1`.
pub open spec fn word1_a(a1: u32, meta: Option<FileMeta>) -> Seq<u8> {
    when(has_bit(a1, 1), u32_bytes(mode_of(meta)))
        + when(has_bit(a1, 3), u32_bytes(1))
        + when(has_bit(a1, 4), opaque_bytes(owner_name()))
        + when(has_bit(a1, 5), opaque_bytes(owner_name()))
        + when(has_bit(a1, 9), u32_bytes(0) + u32_bytes(0))
        + when(has_bit(a1, 13), u64_bytes(space_used_of(meta)))
}

/// Values of the remaining word-1 attributes in `a1`.
pub open spec fn word1_b(a1: u32, meta: Option<FileMeta>, path: Option<Seq<u8>>, is_root: bool) -> Seq<u8> {
    when(has_bit(a1, 14), u64_bytes(0))
        + when(has_bit(a1, 15), u64_bytes(atime_of(meta).0) + u32_bytes(atime_of(meta).1))
        + when(has_bit(a1, 20), u64_bytes(ctime_of(meta).0) + u32_bytes(0))
        + when(has_bit(a1, 21), u64_bytes(mtime_of(meta).0) + u32_bytes(0))
        + when(has_bit(a1, 23), u64_bytes(fileid_of(path, is_root)))
}

/// Values of the word-0 attributes in `a0`, in attribute order.
pub open spec fn word0_vals(a0: u32, meta: Option<FileMeta>, path: Option<Seq<u8>>, default_type: u32, is_root: bool) -> Seq<u8> {
    word0_a(a0, meta, default_type) + word0_b(a0, path, is_root)
}

/// Values of the word-1 attributes in `a1`, in attribute order.
pub open spec fn word1_vals(a1: u32, meta: Option<FileMeta>, path: Option<Seq<u8>>, is_root: bool) -> Seq<u8> {
    word1_a(a1, meta) + word1_b(a1, meta, path, is_root)
}

/// Word `i` of a requested bitmap, 0 past its end.
pub open spec fn word(bm: Seq<u32>, i: int) -> u32 {
    if i < bm.len() { bm[i] } else { 0 }
}

/// The `fattr4` for the requested bitmap: the two-word bitmap of the
/// attributes both requested and supplied, then their values as `opaque<>`.
#[verifier::opaque]
pub open spec fn fattr4(meta: Option<FileMeta>, path: Option<Seq<u8>>, bm: Seq<u32>, default_type: u32, is_root: bool) -> Seq<u8> {
    let a0 = word(bm, 0) & BM0_PROVIDE;
    let a1 = word(bm, 1) & BM1_PROVIDE;
    u32_bytes(2) + u32_bytes(a0) + u32_bytes(a1)
        + opaque_bytes(word0_vals(a0, meta, path, default_type, is_root) + word1_vals(a1, meta, path, is_root))
}

/// The value of an optional byte vector.
pub open spec fn path_view(p: &Option<Vec<u8>>) -> Option<Seq<u8>> {
    match p {
        Some(v) => Some(v@),
        None => None,
    }
}

/// Computes [`nanos_of`].
fn nanos(t: (u64, u32)) -> (r: u64)
    ensures
        r == nanos_of(t),
{
    (t.0 as u128 * 1_000_000_000u128 + t.1 as u128) as u64
}

/// Computes [`fileid_of`].
pub fn fileid(path: &Option<Vec<u8>>, is_root: bool) -> (r: u64)
    ensures
        r == fileid_of(path_view(path), is_root),
{
    if is_root {
        return 2;
    }
    match path {
        Some(p) => if p.len() == 0 { 2 } else { fnv1a_of(p.as_slice()) },
        None => 2,
    }
}

/// The first conditional piece appended.
proof fn lemma_when_first(start: Seq<u8>, after: Seq<u8>, b: bool, s: Seq<u8>)
    requires
        b ==> after == start + s,
        !b ==> after == start,
    ensures
        after == start + when(b, s),
{
    reveal(when);
    if !b {
        assert(start + when(b, s) =~= start);
    }
}

/// A further conditional piece appended after `acc`.
proof fn lemma_when_next(start: Seq<u8>, acc: Seq<u8>, before: Seq<u8>, after: Seq<u8>, b: bool, s: Seq<u8>)
    requires
        before == start + acc,
        b ==> after == before + s,
        !b ==> after == before,
    ensures
        after == start + (acc + when(b, s)),
{
    reveal(when);
    vstd::seq_lib::lemma_concat_associative(start, acc, when(b, s));
    if !b {
        assert(acc + when(b, s) =~= acc);
    }
}

/// Appends the first six word-0 values.
#[verifier::spinoff_prover]
fn put_word0_a(out: &mut Vec<u8>, a0: u32, meta: &Option<FileMeta>, default_type: u32)
    ensures
        final(out)@ == old(out)@ + word0_a(a0, *meta, default_type),
{
    let ghost start = out@;
    let ghost s0 = out@;
    if a0 & (1u32 << 0u32) != 0 {
        put_u32(out, 2);
        put_u32(out, BM0_PROVIDE);
        put_u32(out, BM1_PROVIDE);
        assert(out@ =~= s0 + (u32_bytes(2) + u32_bytes(BM0_PROVIDE) + u32_bytes(BM1_PROVIDE)));
    }
    proof { lemma_when_first(start, out@, has_bit(a0, 0), u32_bytes(2) + u32_bytes(BM0_PROVIDE) + u32_bytes(BM1_PROVIDE)); }
    let ghost mut acc: Seq<u8> = when(has_bit(a0, 0), u32_bytes(2) + u32_bytes(BM0_PROVIDE) + u32_bytes(BM1_PROVIDE));
    let ghost s1 = out@;
    if a0 & (1u32 << 1u32) != 0 {
        let t = match meta {
            Some(m) => if m.is_dir { NF4DIR } else { NF4REG },
            None => default_type,
        };
        put_u32(out, t);
    }
    proof {
        lemma_when_next(start, acc, s1, out@, has_bit(a0, 1), u32_bytes(ftype_of(*meta, default_type)));
        acc = acc + when(has_bit(a0, 1), u32_bytes(ftype_of(*meta, default_type)));
    }
    let ghost s2 = out@;
    if a0 & (1u32 << 2u32) != 0 {
        put_u32(out, 1);
    }
    proof {
        lemma_when_next(start, acc, s2, out@, has_bit(a0, 2), u32_bytes(1));
        acc = acc + when(has_bit(a0, 2), u32_bytes(1));
    }
    let ghost s3 = out@;
    if a0 & (1u32 << 3u32) != 0 {
        let c = match meta {
            Some(m) => match m.modified {
                Some(t) => nanos(t),
                None => 0,
            },
            None => 0,
        };
        put_u64(out, c);
    }
    proof {
        lemma_when_next(start, acc, s3, out@, has_bit(a0, 3), u64_bytes(change_of(*meta)));
        acc = acc + when(has_bit(a0, 3), u64_bytes(change_of(*meta)));
    }
    let ghost s4 = out@;
    if a0 & (1u32 << 4u32) != 0 {
        let n = match meta {
            Some(m) => m.len,
            None => 0,
        };
        put_u64(out, n);
    }
    proof {
        lemma_when_next(start, acc, s4, out@, has_bit(a0, 4), u64_bytes(size_of_meta(*meta)));
        acc = acc + when(has_bit(a0, 4), u64_bytes(size_of_meta(*meta)));
    }
    let ghost s5 = out@;
    if a0 & (1u32 << 5u32) != 0 {
        put_u32(out, 1);
    }
    proof {
        lemma_when_next(start, acc, s5, out@, has_bit(a0, 5), u32_bytes(1));
        acc = acc + when(has_bit(a0, 5), u32_bytes(1));
    }
    assert(acc == word0_a(a0, *meta, default_type));
}

/// Appends the remaining word-0 values.
#[verifier::spinoff_prover]
fn put_word0_b(out: &mut Vec<u8>, a0: u32, path: &Option<Vec<u8>>, is_root: bool)
    ensures
        final(out)@ == old(out)@ + word0_b(a0, path_view(path), is_root),
{
    let ghost start = out@;
    let ghost s0 = out@;
    if a0 & (1u32 << 6u32) != 0 {
        put_u32(out, 1);
    }
    proof { lemma_when_first(start, out@, has_bit(a0, 6), u32_bytes(1)); }
    let ghost mut acc: Seq<u8> = when(has_bit(a0, 6), u32_bytes(1));
    let ghost s1 = out@;
    if a0 & (1u32 << 7u32) != 0 {
        put_u32(out, 0);
    }
    proof {
        lemma_when_next(start, acc, s1, out@, has_bit(a0, 7), u32_bytes(0));
        acc = acc + when(has_bit(a0, 7), u32_bytes(0));
    }
    let ghost s2 = out@;
    if a0 & (1u32 << 8u32) != 0 {
        put_u64(out, 1);
        put_u64(out, 0);
        assert(out@ =~= s2 + (u64_bytes(1) + u64_bytes(0)));
    }
    proof {
        lemma_when_next(start, acc, s2, out@, has_bit(a0, 8), u64_bytes(1) + u64_bytes(0));
        acc = acc + when(has_bit(a0, 8), u64_bytes(1) + u64_bytes(0));
    }
    let ghost s3 = out@;
    if a0 & (1u32 << 9u32) != 0 {
        put_u32(out, 1);
    }
    proof {
        lemma_when_next(start, acc, s3, out@, has_bit(a0, 9), u32_bytes(1));
        acc = acc + when(has_bit(a0, 9), u32_bytes(1));
    }
    let ghost s4 = out@;
    if a0 & (1u32 << 10u32) != 0 {
        put_u32(out, 90);
    }
    proof {
        lemma_when_next(start, acc, s4, out@, has_bit(a0, 10), u32_bytes(90));
        acc = acc + when(has_bit(a0, 10), u32_bytes(90));
    }
    let ghost s5 = out@;
    if a0 & (1u32 << 20u32) != 0 {
        put_u64(out, fileid(path, is_root));
    }
    proof {
        lemma_when_next(start, acc, s5, out@, has_bit(a0, 20), u64_bytes(fileid_of(path_view(path), is_root)));
        acc = acc + when(has_bit(a0, 20), u64_bytes(fileid_of(path_view(path), is_root)));
    }
    assert(acc == word0_b(a0, path_view(path), is_root));
}

/// Appends the first six word-1 values.
#[verifier::spinoff_prover]
fn put_word1_a(out: &mut Vec<u8>, a1: u32, meta: &Option<FileMeta>)
    ensures
        final(out)@ == old(out)@ + word1_a(a1, *meta),
{
    let ghost start = out@;
    let ghost s0 = out@;
    if a1 & (1u32 << 1u32) != 0 {
        let mode: u32 = match meta {
            Some(m) => if m.is_dir { 0o755 } else { 0o644 },
            None => 0o644,
        };
        put_u32(out, mode);
    }
    proof { lemma_when_first(start, out@, has_bit(a1, 1), u32_bytes(mode_of(*meta))); }
    let ghost mut acc: Seq<u8> = when(has_bit(a1, 1), u32_bytes(mode_of(*meta)));
    let ghost s1 = out@;
    if a1 & (1u32 << 3u32) != 0 {
        put_u32(out, 1);
    }
    proof {
        lemma_when_next(start, acc, s1, out@, has_bit(a1, 3), u32_bytes(1));
        acc = acc + when(has_bit(a1, 3), u32_bytes(1));
    }
    let ghost s2 = out@;
    if a1 & (1u32 << 4u32) != 0 {
        put_opaque(out, "root".as_bytes());
    }
    proof {
        lemma_when_next(start, acc, s2, out@, has_bit(a1, 4), opaque_bytes(owner_name()));
        acc = acc + when(has_bit(a1, 4), opaque_bytes(owner_name()));
    }
    let ghost s3 = out@;
    if a1 & (1u32 << 5u32) != 0 {
        put_opaque(out, "root".as_bytes());
    }
    proof {
        lemma_when_next(start, acc, s3, out@, has_bit(a1, 5), opaque_bytes(owner_name()));
        acc = acc + when(has_bit(a1, 5), opaque_bytes(owner_name()));
    }
    let ghost s4 = out@;
    if a1 & (1u32 << 9u32) != 0 {
        put_u32(out, 0);
        put_u32(out, 0);
        assert(out@ =~= s4 + (u32_bytes(0) + u32_bytes(0)));
    }
    proof {
        lemma_when_next(start, acc, s4, out@, has_bit(a1, 9), u32_bytes(0) + u32_bytes(0));
        acc = acc + when(has_bit(a1, 9), u32_bytes(0) + u32_bytes(0));
    }
    let ghost s5 = out@;
    if a1 & (1u32 << 13u32) != 0 {
        let size: u64 = match meta {
            Some(m) => m.len,
            None => 0,
        };
        let used: u64 = if size == 0 { 0 } else { ((size as u128 + 511) / 512 * 512) as u64 };
        put_u64(out, used);
    }
    proof {
        lemma_when_next(start, acc, s5, out@, has_bit(a1, 13), u64_bytes(space_used_of(*meta)));
        acc = acc + when(has_bit(a1, 13), u64_bytes(space_used_of(*meta)));
    }
    assert(acc == word1_a(a1, *meta));
}

/// A time's seconds and nanoseconds, or zeros.
fn time_or_zero_of(t: Option<(u64, u32)>) -> (r: (u64, u32))
    ensures
        r == time_or_zero(t),
{
    match t {
        Some(v) => v,
        None => (0, 0),
    }
}

/// Computes [`atime_of`].
fn atime(meta: &Option<FileMeta>) -> (r: (u64, u32))
    ensures
        r == atime_of(*meta),
{
    match meta {
        Some(m) => match m.accessed {
            Some(t) => t,
            None => time_or_zero_of(m.modified),
        },
        None => (0, 0),
    }
}

/// Computes [`ctime_of`].
fn ctime(meta: &Option<FileMeta>) -> (r: (u64, u32))
    ensures
        r == ctime_of(*meta),
{
    match meta {
        Some(m) => time_or_zero_of(m.created),
        None => (0, 0),
    }
}

/// Computes [`mtime_of`].
fn mtime(meta: &Option<FileMeta>) -> (r: (u64, u32))
    ensures
        r == mtime_of(*meta),
{
    match meta {
        Some(m) => time_or_zero_of(m.modified),
        None => (0, 0),
    }
}

/// Appends the remaining word-1 values.
#[verifier::spinoff_prover]
#[verifier::rlimit(40)]
fn put_word1_b(out: &mut Vec<u8>, a1: u32, meta: &Option<FileMeta>, path: &Option<Vec<u8>>, is_root: bool)
    ensures
        final(out)@ == old(out)@ + word1_b(a1, *meta, path_view(path), is_root),
{
    let ghost start = out@;
    let ghost s0 = out@;
    if a1 & (1u32 << 14u32) != 0 {
        put_u64(out, 0);
    }
    proof { lemma_when_first(start, out@, has_bit(a1, 14), u64_bytes(0)); }
    let ghost mut acc: Seq<u8> = when(has_bit(a1, 14), u64_bytes(0));
    let ghost s1 = out@;
    if a1 & (1u32 << 15u32) != 0 {
        let t = atime(meta);
        put_u64(out, t.0);
        put_u32(out, t.1);
        assert(out@ =~= s1 + (u64_bytes(atime_of(*meta).0) + u32_bytes(atime_of(*meta).1)));
    }
    proof {
        lemma_when_next(start, acc, s1, out@, has_bit(a1, 15), u64_bytes(atime_of(*meta).0) + u32_bytes(atime_of(*meta).1));
        acc = acc + when(has_bit(a1, 15), u64_bytes(atime_of(*meta).0) + u32_bytes(atime_of(*meta).1));
    }
    let ghost s2 = out@;
    if a1 & (1u32 << 20u32) != 0 {
        let t = ctime(meta);
        put_u64(out, t.0);
        put_u32(out, 0);
        assert(out@ =~= s2 + (u64_bytes(ctime_of(*meta).0) + u32_bytes(0)));
    }
    proof {
        lemma_when_next(start, acc, s2, out@, has_bit(a1, 20), u64_bytes(ctime_of(*meta).0) + u32_bytes(0));
        acc = acc + when(has_bit(a1, 20), u64_bytes(ctime_of(*meta).0) + u32_bytes(0));
    }
    let ghost s3 = out@;
    if a1 & (1u32 << 21u32) != 0 {
        let t = mtime(meta);
        put_u64(out, t.0);
        put_u32(out, 0);
        assert(out@ =~= s3 + (u64_bytes(mtime_of(*meta).0) + u32_bytes(0)));
    }
    proof {
        lemma_when_next(start, acc, s3, out@, has_bit(a1, 21), u64_bytes(mtime_of(*meta).0) + u32_bytes(0));
        acc = acc + when(has_bit(a1, 21), u64_bytes(mtime_of(*meta).0) + u32_bytes(0));
    }
    let ghost s4 = out@;
    if a1 & (1u32 << 23u32) != 0 {
        put_u64(out, fileid(path, is_root));
    }
    proof {
        lemma_when_next(start, acc, s4, out@, has_bit(a1, 23), u64_bytes(fileid_of(path_view(path), is_root)));
        acc = acc + when(has_bit(a1, 23), u64_bytes(fileid_of(path_view(path), is_root)));
    }
    assert(acc == word1_b(a1, *meta, path_view(path), is_root));
}

/// Builds the `fattr4` for the requested bitmap from a file's metadata
/// (`None` when it could not be read), its path, the type to report without
/// metadata and whether the handle is the pseudo-root.
pub fn build_fattr4(meta: &Option<FileMeta>, path: &Option<Vec<u8>>, requested: &[u32], default_type: u32, is_root: bool) -> (r: Vec<u8>)
    ensures
        r@ == fattr4(*meta, path_view(path), requested@, default_type, is_root),
{
    reveal(fattr4);
    let bm0 = if requested.len() > 0 { requested[0] } else { 0 };
    let bm1 = if requested.len() > 1 { requested[1] } else { 0 };
    let a0 = bm0 & BM0_PROVIDE;
    let a1 = bm1 & BM1_PROVIDE;
    let mut vals: Vec<u8> = Vec::new();
    put_word0_a(&mut vals, a0, meta, default_type);
    put_word0_b(&mut vals, a0, path, is_root);
    let ghost w0 = vals@;
    assert(w0 =~= word0_vals(a0, *meta, path_view(path), default_type, is_root));
    put_word1_a(&mut vals, a1, meta);
    put_word1_b(&mut vals, a1, meta, path, is_root);
    assert(vals@ =~= w0 + word1_vals(a1, *meta, path_view(path), is_root));
    let mut r: Vec<u8> = Vec::new();
    put_u32(&mut r, 2);
    put_u32(&mut r, a0);
    put_u32(&mut r, a1);
    put_opaque(&mut r, vals.as_slice());
    assert(r@ =~= fattr4(*meta, path_view(path), requested@, default_type, is_root));
    r
}

/// An `opaque<>` value takes a whole number of 4-byte words.
proof fn lemma_opaque_aligned(d: Seq<u8>)
    ensures
        opaque_bytes(d).len() % 4 == 0,
{
    let n = d.len() as int;
    crate::xdr::lemma_pad_mod(n);
    assert(opaque_bytes(d).len() == 4 + n + (crate::xdr::pad4(n) - n));
}

/// Joining two word-aligned byte strings gives a word-aligned one.
proof fn lemma_join_aligned(x: Seq<u8>, y: Seq<u8>)
    requires
        x.len() % 4 == 0,
        y.len() % 4 == 0,
    ensures
        (x + y).len() % 4 == 0,
{
    let (m, n) = (x.len() as int, y.len() as int);
    assert((m + n) % 4 == 0) by (nonlinear_arith)
        requires m % 4 == 0, n % 4 == 0;
}

/// Encoded integers take four and eight bytes.
proof fn lemma_int_bytes_lens()
    ensures
        forall|v: u32| #[trigger] u32_bytes(v).len() == 4,
        forall|v: u64| #[trigger] u64_bytes(v).len() == 8,
{
    assert forall|v: u32| #[trigger] u32_bytes(v).len() == 4 by {}
    assert forall|v: u64| #[trigger] u64_bytes(v).len() == 8 by {
        assert(u32_bytes((v / 0x1_0000_0000) as u32).len() == 4);
        assert(u32_bytes((v % 0x1_0000_0000) as u32).len() == 4);
    }
}

/// A value present or absent keeps alignment.
proof fn lemma_present_aligned(b: bool, x: Seq<u8>)
    requires
        x.len() % 4 == 0,
    ensures
        self::when(b, x).len() % 4 == 0,
{
    reveal(when);
}

/// The first six word-0 values fill whole words.
proof fn lemma_word0_a_aligned(a0: u32, meta: Option<FileMeta>, default_type: u32)
    ensures
        word0_a(a0, meta, default_type).len() % 4 == 0,
{
    lemma_int_bytes_lens();
    let p1 = when(has_bit(a0, 0), u32_bytes(2) + u32_bytes(BM0_PROVIDE) + u32_bytes(BM1_PROVIDE));
    lemma_present_aligned(has_bit(a0, 0), u32_bytes(2) + u32_bytes(BM0_PROVIDE) + u32_bytes(BM1_PROVIDE));
    let p2 = when(has_bit(a0, 1), u32_bytes(ftype_of(meta, default_type)));
    lemma_present_aligned(has_bit(a0, 1), u32_bytes(ftype_of(meta, default_type)));
    let p3 = when(has_bit(a0, 2), u32_bytes(1));
    lemma_present_aligned(has_bit(a0, 2), u32_bytes(1));
    let p4 = when(has_bit(a0, 3), u64_bytes(change_of(meta)));
    lemma_present_aligned(has_bit(a0, 3), u64_bytes(change_of(meta)));
    let p5 = when(has_bit(a0, 4), u64_bytes(size_of_meta(meta)));
    lemma_present_aligned(has_bit(a0, 4), u64_bytes(size_of_meta(meta)));
    let p6 = when(has_bit(a0, 5), u32_bytes(1));
    lemma_present_aligned(has_bit(a0, 5), u32_bytes(1));
    lemma_join_aligned(p1, p2);
    lemma_join_aligned(p1 + p2, p3);
    lemma_join_aligned(p1 + p2 + p3, p4);
    lemma_join_aligned(p1 + p2 + p3 + p4, p5);
    lemma_join_aligned(p1 + p2 + p3 + p4 + p5, p6);
}

/// The remaining word-0 values fill whole words.
proof fn lemma_word0_b_aligned(a0: u32, path: Option<Seq<u8>>, is_root: bool)
    ensures
        word0_b(a0, path, is_root).len() % 4 == 0,
{
    lemma_int_bytes_lens();
    let q1 = when(has_bit(a0, 6), u32_bytes(1));
    lemma_present_aligned(has_bit(a0, 6), u32_bytes(1));
    let q2 = when(has_bit(a0, 7), u32_bytes(0));
    lemma_present_aligned(has_bit(a0, 7), u32_bytes(0));
    let q3 = when(has_bit(a0, 8), u64_bytes(1) + u64_bytes(0));
    lemma_present_aligned(has_bit(a0, 8), u64_bytes(1) + u64_bytes(0));
    let q4 = when(has_bit(a0, 9), u32_bytes(1));
    lemma_present_aligned(has_bit(a0, 9), u32_bytes(1));
    let q5 = when(has_bit(a0, 10), u32_bytes(90));
    lemma_present_aligned(has_bit(a0, 10), u32_bytes(90));
    let q6 = when(has_bit(a0, 20), u64_bytes(fileid_of(path, is_root)));
    lemma_present_aligned(has_bit(a0, 20), u64_bytes(fileid_of(path, is_root)));
    lemma_join_aligned(q1, q2);
    lemma_join_aligned(q1 + q2, q3);
    lemma_join_aligned(q1 + q2 + q3, q4);
    lemma_join_aligned(q1 + q2 + q3 + q4, q5);
    lemma_join_aligned(q1 + q2 + q3 + q4 + q5, q6);
}

/// The first six word-1 values fill whole words.
proof fn lemma_word1_a_aligned(a1: u32, meta: Option<FileMeta>)
    ensures
        word1_a(a1, meta).len() % 4 == 0,
{
    lemma_int_bytes_lens();
    lemma_opaque_aligned(owner_name());
    let r1 = when(has_bit(a1, 1), u32_bytes(mode_of(meta)));
    lemma_present_aligned(has_bit(a1, 1), u32_bytes(mode_of(meta)));
    let r2 = when(has_bit(a1, 3), u32_bytes(1));
    lemma_present_aligned(has_bit(a1, 3), u32_bytes(1));
    let r3 = when(has_bit(a1, 4), opaque_bytes(owner_name()));
    lemma_present_aligned(has_bit(a1, 4), opaque_bytes(owner_name()));
    let r4 = when(has_bit(a1, 5), opaque_bytes(owner_name()));
    lemma_present_aligned(has_bit(a1, 5), opaque_bytes(owner_name()));
    let r5 = when(has_bit(a1, 9), u32_bytes(0) + u32_bytes(0));
    lemma_present_aligned(has_bit(a1, 9), u32_bytes(0) + u32_bytes(0));
    let r6 = when(has_bit(a1, 13), u64_bytes(space_used_of(meta)));
    lemma_present_aligned(has_bit(a1, 13), u64_bytes(space_used_of(meta)));
    lemma_join_aligned(r1, r2);
    lemma_join_aligned(r1 + r2, r3);
    lemma_join_aligned(r1 + r2 + r3, r4);
    lemma_join_aligned(r1 + r2 + r3 + r4, r5);
    lemma_join_aligned(r1 + r2 + r3 + r4 + r5, r6);
}

/// The remaining word-1 values fill whole words.
proof fn lemma_word1_b_aligned(a1: u32, meta: Option<FileMeta>, path: Option<Seq<u8>>, is_root: bool)
    ensures
        word1_b(a1, meta, path, is_root).len() % 4 == 0,
{
    lemma_int_bytes_lens();
    let t1 = when(has_bit(a1, 14), u64_bytes(0));
    lemma_present_aligned(has_bit(a1, 14), u64_bytes(0));
    let t2 = when(has_bit(a1, 15), u64_bytes(atime_of(meta).0) + u32_bytes(atime_of(meta).1));
    lemma_present_aligned(has_bit(a1, 15), u64_bytes(atime_of(meta).0) + u32_bytes(atime_of(meta).1));
    let t3 = when(has_bit(a1, 20), u64_bytes(ctime_of(meta).0) + u32_bytes(0));
    lemma_present_aligned(has_bit(a1, 20), u64_bytes(ctime_of(meta).0) + u32_bytes(0));
    let t4 = when(has_bit(a1, 21), u64_bytes(mtime_of(meta).0) + u32_bytes(0));
    lemma_present_aligned(has_bit(a1, 21), u64_bytes(mtime_of(meta).0) + u32_bytes(0));
    let t5 = when(has_bit(a1, 23), u64_bytes(fileid_of(path, is_root)));
    lemma_present_aligned(has_bit(a1, 23), u64_bytes(fileid_of(path, is_root)));
    lemma_join_aligned(t1, t2);
    lemma_join_aligned(t1 + t2, t3);
    lemma_join_aligned(t1 + t2 + t3, t4);
    lemma_join_aligned(t1 + t2 + t3 + t4, t5);
}

/// The attribute values of every `fattr4` fill whole 4-byte words, as XDR
/// requires of each of them.
pub proof fn lemma_fattr4_values_aligned(meta: Option<FileMeta>, path: Option<Seq<u8>>, a0: u32, a1: u32,
    default_type: u32, is_root: bool)
    ensures
        word0_vals(a0, meta, path, default_type, is_root).len() % 4 == 0,
        word1_vals(a1, meta, path, is_root).len() % 4 == 0,
{
    lemma_word0_a_aligned(a0, meta, default_type);
    lemma_word0_b_aligned(a0, path, is_root);
    lemma_word1_a_aligned(a1, meta);
    lemma_word1_b_aligned(a1, meta, path, is_root);
    lemma_join_aligned(word0_a(a0, meta, default_type), word0_b(a0, path, is_root));
    lemma_join_aligned(word1_a(a1, meta), word1_b(a1, meta, path, is_root));
}

} // verus!
