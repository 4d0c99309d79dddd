//! NFSv4 operations that touch the file system. Each is split in two: a
//! plan that reads the arguments, checks the file handles and resolves the
//! paths (answering at once where the operation cannot go on), and a finish
//! that turns what the file system gave into the operation's outcome. The
//! caller does the file system work between the two.

use vstd::prelude::*;
use crate::dirlist::{entry_views, sort_by_name, sorted_by_name, DirEntry, DirEntryView};
use crate::exports::{
    export_views, fh_export_options, fh_path, fh_root, index_by_path, ExportView, ExportsManager, FhView, handle_for_path,
    handles_after_path, counter_after_path,
};
use crate::nfs4_attrs::{build_fattr4, fattr4, path_view, FileMeta};
use crate::nfs4_consts::{
    CLAIM_NULL, NF4DIR, NF4REG, NFS4ERR_ATTRNOTSUPP, NFS4ERR_BADHANDLE, NFS4ERR_BADTYPE, NFS4ERR_BADXDR,
    NFS4ERR_EXIST, NFS4ERR_INVAL, NFS4ERR_IO, NFS4ERR_NOENT, NFS4ERR_NOFILEHANDLE, NFS4ERR_NOTEMPTY,
    NFS4ERR_NOTSUPP, NFS4ERR_NOT_SAME, NFS4ERR_RESTOREFH, NFS4ERR_ROFS, NFS4ERR_SAME, NFS4ERR_STALE,
    NFS4_OK, OPEN4_CREATE, OP_NVERIFY, OP_VERIFY,
};
use crate::nfs4_attrs::{change_of, ctime_of, ftype_of, has_bit, mtime_of, size_of_meta};
use crate::nfs4_state::{open_reply, opens_put, Nfs4Server, OpenView};
use crate::nfs4_ops::{fail, failed, is_root, is_root_handle, ok, opt_view, succeeded, OpOutcome, Outcome};
use crate::paths::{has_prefix, is_within, parent, parent_of, starts_with, within};
use crate::rpc::{clamp, clamp_len};
use crate::xdr::{
    add_clamped, be32, be64, copy_range, get_u32, get_u64, opaque_bytes, pad4, put_bytes, put_opaque, put_u32,
    put_u64, put_zeros, u32_bytes, u64_bytes, zeros,
};

verus! {

/// The real path a handle stands for.
pub open spec fn path_of(m: ExportsManager, fh: Seq<u8>) -> Option<Seq<u8>> {
    fh_path(m.fh_hmac_key@, m.handle_list(), fh)
}

/// The export root of a handle's directory.
pub open spec fn root_of(m: ExportsManager, fh: Seq<u8>) -> Option<Seq<u8>> {
    fh_root(m.fh_hmac_key@, m.handle_list(), fh)
}

/// The export root of a handle, or `dflt` when it has none.
pub open spec fn root_or(m: ExportsManager, fh: Seq<u8>, dflt: Seq<u8>) -> Seq<u8> {
    match root_of(m, fh) {
        Some(r) => r,
        None => dflt,
    }
}

/// Whether a handle lies in a read-only export.
pub open spec fn read_only(m: ExportsManager, fh: Seq<u8>) -> bool {
    match fh_export_options(m, fh) {
        Some(o) => o.read_only,
        None => false,
    }
}

/// The path of the first export, standing for the pseudo-root's attributes.
pub open spec fn first_root(m: ExportsManager) -> Option<Seq<u8>> {
    if m.exports@.len() > 0 { Some(m.exports@[0].path@) } else { None }
}

/// The `n` bitmap words after the count word at `p`.
pub open spec fn bitmap_at(s: Seq<u8>, p: int, n: nat) -> Seq<u32> {
    Seq::new(n, |i: int| be32(s, p + 4 + 4 * i))
}

/// Reads `n` bitmap words after the count word at `p`.
fn read_bitmap(buf: &[u8], p: usize, n: u32) -> (r: Vec<u32>)
    requires
        p + 4 + 4 * n <= buf@.len(),
    ensures
        r@ == bitmap_at(buf@, p as int, n as nat),
{
    let mut r: Vec<u32> = Vec::new();
    let mut i: u32 = 0;
    let l = buf.len();
    while i < n
        invariant
            i <= n,
            l == buf@.len(),
            p + 4 + 4 * n <= buf@.len(),
            r@ == bitmap_at(buf@, p as int, i as nat),
        decreases n - i,
    {
        let w = get_u32(buf, p + 4 + 4 * (i as usize));
        r.push(w);
        assert(r@ =~= bitmap_at(buf@, p as int, (i + 1) as nat));
        i += 1;
    }
    r
}

/// What GETATTR needs from the file system: the metadata of `path`.
pub struct AttrQuery {
    pub path: Option<Vec<u8>>,
    pub bitmap: Vec<u32>,
    pub default_type: u32,
    pub is_root: bool,
    pub advance: usize,
}

/// GETATTR, first half: the requested bitmap and the path (the first
/// export's root for the pseudo-root).
pub fn plan_getattr(exports: &ExportsManager, request: &[u8], p: usize, current_fh: &Option<Vec<u8>>) -> (r: Result<AttrQuery, OpOutcome>)
    ensures
        match opt_view(*current_fh) {
            None => r matches Err(o) && o@ == fail(0, NFS4ERR_NOFILEHANDLE),
            Some(fh) => if p + 4 > request@.len() {
                r matches Err(o) && o@ == fail(0, NFS4ERR_BADXDR)
            } else {
                let n = be32(request@, p as int);
                let c = clamp(4 + 4 * n);
                if p + 4 + 4 * n > request@.len() {
                    r matches Err(o) && o@ == fail(c, NFS4ERR_BADXDR)
                } else {
                    r matches Ok(q) && q.bitmap@ == bitmap_at(request@, p as int, n as nat) && q.advance == c
                        && q.is_root == is_root(fh) && q.default_type == (if is_root(fh) { NF4DIR } else { NF4REG })
                        && path_view(&q.path) == (if is_root(fh) { first_root(*exports) } else { path_of(*exports, fh) })
                }
            },
        },
{
    let fh = match current_fh {
        None => return Err(failed(0, NFS4ERR_NOFILEHANDLE)),
        Some(fh) => fh,
    };
    if p > request.len() || request.len() - p < 4 {
        return Err(failed(0, NFS4ERR_BADXDR));
    }
    let n = get_u32(request, p);
    let c = clamp_len(4 + 4 * (n as u64));
    if ((request.len() - p) as u64) < 4 + 4 * (n as u64) {
        return Err(failed(c, NFS4ERR_BADXDR));
    }
    let bitmap = read_bitmap(request, p, n);
    let root = is_root_handle(fh.as_slice());
    let path = if root { exports.get_first_export_root() } else { exports.resolve_fh(fh.as_slice()) };
    Ok(AttrQuery { path, bitmap, default_type: if root { NF4DIR } else { NF4REG }, is_root: root, advance: c })
}

/// GETATTR, second half: the attributes from the metadata (`None` when it
/// could not be read).
pub fn finish_getattr(q: &AttrQuery, meta: &Option<FileMeta>) -> (r: OpOutcome)
    ensures
        r@ == ok(fattr4(*meta, path_view(&q.path), q.bitmap@, q.default_type, q.is_root), q.advance as int, None, None),
{
    succeeded(build_fattr4(meta, &q.path, q.bitmap.as_slice(), q.default_type, q.is_root), q.advance, None, None)
}

/// A `component4` name at `p`: its bytes and the offset (relative to `p`)
/// past it, when its bytes fit.
pub open spec fn name_arg(s: Seq<u8>, p: int) -> Option<(Seq<u8>, int)> {
    if p + 4 > s.len() || p + 4 + be32(s, p) > s.len() {
        None
    } else {
        Some((s.subrange(p + 4, p + 4 + be32(s, p)), clamp(4 + pad4(be32(s, p) as int))))
    }
}

/// What LOOKUP does next.
pub enum LookupStep {
    /// Answered.
    Done(OpOutcome),
    /// A name in the pseudo-root: an export name or alias.
    Export { name: Vec<u8>, advance: usize },
    /// A child of a directory: the caller checks whether `child` exists and
    /// where it really lies.
    Child { child: Vec<u8>, root: Vec<u8>, advance: usize },
}

/// LOOKUP, first half.
pub fn plan_lookup(exports: &ExportsManager, request: &[u8], p: usize, current_fh: &Option<Vec<u8>>) -> (r: LookupStep)
    ensures
        match opt_view(*current_fh) {
            None => r matches LookupStep::Done(o) && o@ == fail(0, NFS4ERR_NOFILEHANDLE),
            Some(fh) => if p + 4 > request@.len() {
                r matches LookupStep::Done(o) && o@ == fail(0, NFS4ERR_BADXDR)
            } else {
                match name_arg(request@, p as int) {
                    None => r matches LookupStep::Done(o) && o@ == fail(clamp(4 + pad4(be32(request@, p as int) as int)), NFS4ERR_BADXDR),
                    Some((name, c)) => if is_root(fh) {
                        r matches LookupStep::Export { name: n, advance } && n@ == name && advance == c
                    } else if !crate::exports::safe_name(name) || path_of(*exports, fh) is None {
                        r matches LookupStep::Done(o) && o@ == fail(c, NFS4ERR_NOENT)
                    } else {
                        let dir = path_of(*exports, fh).unwrap();
                        r matches LookupStep::Child { child, root, advance } && advance == c
                            && child@ == crate::paths::join(dir, name) && root@ == root_or(*exports, fh, dir)
                    },
                }
            },
        },
{
    let fh = match current_fh {
        None => return LookupStep::Done(failed(0, NFS4ERR_NOFILEHANDLE)),
        Some(fh) => fh,
    };
    if p > request.len() || request.len() - p < 4 {
        return LookupStep::Done(failed(0, NFS4ERR_BADXDR));
    }
    let n = get_u32(request, p) as usize;
    let c = clamp_len(4 + (n as u64 + 3) / 4 * 4);
    if request.len() - p - 4 < n {
        return LookupStep::Done(failed(c, NFS4ERR_BADXDR));
    }
    let name = copy_range(request, p + 4, n);
    if is_root_handle(fh.as_slice()) {
        return LookupStep::Export { name, advance: c };
    }
    match exports.lookup_child_target(fh.as_slice(), name.as_slice()) {
        None => LookupStep::Done(failed(c, NFS4ERR_NOENT)),
        Some((child, root)) => LookupStep::Child { child, root, advance: c },
    }
}

/// LOOKUP in the pseudo-root: the handle of the export with that name or
/// alias; NOENT when there is none.
pub fn lookup_export(exports: &mut ExportsManager, name: &[u8], advance: usize, salt: u32) -> (r: OpOutcome)
    requires
        old(exports).wf(),
        crate::exports::resolve_index(old(exports).export_list(), name@) matches Some(i)
            && crate::exports::create_issues_id(*old(exports), old(exports).export_list()[i].path)
            ==> old(exports).fh_counter < u64::MAX,
    ensures
        final(exports).wf(),
        final(exports).exports == old(exports).exports,
        final(exports).fh_hmac_key == old(exports).fh_hmac_key,
        final(exports).config == old(exports).config,
        match crate::exports::resolve_index(old(exports).export_list(), name@) {
            None => r@ == fail(advance as int, NFS4ERR_NOENT) && final(exports).handles == old(exports).handles
                && final(exports).fh_counter == old(exports).fh_counter,
            Some(i) => {
                let path = old(exports).export_list()[i].path;
                &&& r@ == ok(Seq::empty(), advance as int, Some(crate::exports::created_handle(*old(exports), path, salt)), None)
                &&& final(exports).handle_list() == crate::exports::handles_after_create(*old(exports), path)
                &&& final(exports).fh_counter == crate::exports::counter_after_create(*old(exports), path)
            },
        },
{
    match exports.get_export(name) {
        None => failed(advance, NFS4ERR_NOENT),
        Some(e) => {
            let fh = exports.create_file_handle(e.path.as_slice(), salt);
            succeeded(Vec::new(), advance, Some(fh), None)
        },
    }
}

/// LOOKUP of a child, second half. When the child exists it must really
/// lie under the export root (`canonical_child` is its resolved path,
/// `None` when it could not be resolved; `canonical_root` the root's, or the
/// root itself); when it does not, its path must begin with the root. Then
/// the child's handle becomes current; NOENT otherwise.
pub fn finish_lookup_child(
    exports: &mut ExportsManager,
    child: &[u8],
    root: &[u8],
    exists: bool,
    canonical_child: &Option<Vec<u8>>,
    canonical_root: &[u8],
    advance: usize,
    salt: u32,
) -> (r: OpOutcome)
    requires
        old(exports).wf(),
        crate::exports::index_by_path(old(exports).handle_list(), child@) is None ==> old(exports).fh_counter < u64::MAX,
    ensures
        final(exports).wf(),
        final(exports).exports == old(exports).exports,
        final(exports).fh_hmac_key == old(exports).fh_hmac_key,
        final(exports).config == old(exports).config,
        ({
            let allowed = if exists {
                match path_view(canonical_child) {
                    Some(cc) => within(cc, canonical_root@),
                    None => false,
                }
            } else {
                starts_with(child@, root@)
            };
            if allowed {
                &&& r@ == ok(Seq::empty(), advance as int, Some(handle_for_path(*old(exports), child@, salt)), None)
                &&& final(exports).handle_list() == handles_after_path(*old(exports), child@, root@)
                &&& final(exports).fh_counter == counter_after_path(*old(exports), child@)
            } else {
                &&& r@ == fail(advance as int, NFS4ERR_NOENT)
                &&& final(exports).handles == old(exports).handles
                &&& final(exports).fh_counter == old(exports).fh_counter
            }
        }),
{
    match exports.lookup_child(child, root, exists, canonical_child, canonical_root, salt) {
        None => failed(advance, NFS4ERR_NOENT),
        Some((fh, _path)) => succeeded(Vec::new(), advance, Some(fh), None),
    }
}

/// Whether LOOKUPP issues a new handle ID: the handle resolves, its parent
/// lies within its export root, and the parent has no entry yet.
pub open spec fn lookupp_issues_id(m: ExportsManager, fh: Option<Seq<u8>>) -> bool {
    match fh {
        Some(h) => !is_root(h) && match path_of(m, h) {
            Some(path) => match parent(path) {
                Some(par) => within(par, root_or(m, h, par))
                    && crate::exports::index_by_path(m.handle_list(), par) is None,
                None => false,
            },
            None => false,
        },
        None => false,
    }
}

/// LOOKUPP: the pseudo-root is its own parent; otherwise the parent of the
/// handle's path, which must still lie within the handle's export root.
pub fn op_lookupp(exports: &mut ExportsManager, current_fh: &Option<Vec<u8>>, salt: u32) -> (r: OpOutcome)
    requires
        old(exports).wf(),
        lookupp_issues_id(*old(exports), opt_view(*current_fh)) ==> old(exports).fh_counter < u64::MAX,
    ensures
        final(exports).wf(),
        final(exports).exports == old(exports).exports,
        final(exports).fh_hmac_key == old(exports).fh_hmac_key,
        final(exports).config == old(exports).config,
        match opt_view(*current_fh) {
            None => r@ == fail(0, NFS4ERR_NOFILEHANDLE) && *final(exports) == *old(exports),
            Some(fh) => if is_root(fh) {
                r@ == ok(Seq::empty(), 0, Some(fh), None) && *final(exports) == *old(exports)
            } else {
                match path_of(*old(exports), fh) {
                    None => r@ == fail(0, NFS4ERR_STALE) && *final(exports) == *old(exports),
                    Some(path) => match parent(path) {
                        None => r@ == fail(0, NFS4ERR_NOENT) && *final(exports) == *old(exports),
                        Some(par) => {
                            let root = root_or(*old(exports), fh, par);
                            if !within(par, root) {
                                r@ == fail(0, NFS4ERR_NOENT) && *final(exports) == *old(exports)
                            } else {
                                &&& r@ == ok(Seq::empty(), 0, Some(handle_for_path(*old(exports), par, salt)), None)
                                &&& final(exports).handle_list() == handles_after_path(*old(exports), par, root)
                                &&& final(exports).fh_counter == counter_after_path(*old(exports), par)
                            }
                        },
                    },
                }
            },
        },
{
    let fh = match current_fh {
        None => return failed(0, NFS4ERR_NOFILEHANDLE),
        Some(fh) => fh,
    };
    if is_root_handle(fh.as_slice()) {
        return succeeded(Vec::new(), 0, Some(crate::exports::clone_bytes(fh)), None);
    }
    let path = match exports.resolve_fh(fh.as_slice()) {
        None => return failed(0, NFS4ERR_STALE),
        Some(p) => p,
    };
    let par = match parent_of(path.as_slice()) {
        None => return failed(0, NFS4ERR_NOENT),
        Some(q) => q,
    };
    let root = match exports.get_fh_export_root(fh.as_slice()) {
        Some(r) => r,
        None => crate::exports::clone_bytes(&par),
    };
    if !is_within(par.as_slice(), root.as_slice()) {
        return failed(0, NFS4ERR_NOENT);
    }
    let pfh = exports.get_or_create_fh(par.as_slice(), root.as_slice(), salt);
    succeeded(Vec::new(), 0, Some(pfh), None)
}

/// READLINK: an empty link text for any resolvable handle.
pub fn op_readlink(exports: &ExportsManager, current_fh: &Option<Vec<u8>>) -> (r: OpOutcome)
    ensures
        r@ == (match opt_view(*current_fh) {
            None => fail(0, NFS4ERR_NOFILEHANDLE),
            Some(fh) => if path_of(*exports, fh) is None { fail(0, NFS4ERR_STALE) } else { ok(u32_bytes(0), 0, None, None) },
        }),
{
    let fh = match current_fh {
        None => return failed(0, NFS4ERR_NOFILEHANDLE),
        Some(fh) => fh,
    };
    if exports.resolve_fh(fh.as_slice()).is_none() {
        return failed(0, NFS4ERR_STALE);
    }
    let mut r: Vec<u8> = Vec::new();
    put_u32(&mut r, 0);
    succeeded(r, 0, None, None)
}

/// What READ, READ_PLUS and SEEK need: the file and the offset and count
/// (or seek type) asked for.
pub struct RangeQuery {
    pub path: Vec<u8>,
    pub offset: u64,
    pub count: u32,
}

/// The first half READ, READ_PLUS and SEEK share: a stateid, an offset and a
/// word (count or seek type), 28 bytes; the file must resolve.
pub open spec fn range_plan(m: ExportsManager, s: Seq<u8>, p: int, fh: Seq<u8>) -> Result<(Seq<u8>, u64, u32), Outcome> {
    if p + 28 > s.len() {
        Err(fail(28, NFS4ERR_BADXDR))
    } else {
        match path_of(m, fh) {
            None => Err(fail(28, NFS4ERR_STALE)),
            Some(path) => Ok((path, be64(s, p + 16), be32(s, p + 24))),
        }
    }
}

/// Plans READ, READ_PLUS or SEEK; `no_fh_advance` is what the operation
/// reports consumed when there is no current handle.
pub fn plan_range(exports: &ExportsManager, request: &[u8], p: usize, current_fh: &Option<Vec<u8>>, no_fh_advance: usize) -> (r: Result<RangeQuery, OpOutcome>)
    ensures
        match opt_view(*current_fh) {
            None => r matches Err(o) && o@ == fail(no_fh_advance as int, NFS4ERR_NOFILEHANDLE),
            Some(fh) => match range_plan(*exports, request@, p as int, fh) {
                Err(e) => r matches Err(o) && o@ == e,
                Ok((path, off, n)) => r matches Ok(q) && q.path@ == path && q.offset == off && q.count == n,
            },
        },
{
    let fh = match current_fh {
        None => return Err(failed(no_fh_advance, NFS4ERR_NOFILEHANDLE)),
        Some(fh) => fh,
    };
    if p > request.len() || request.len() - p < 28 {
        return Err(failed(28, NFS4ERR_BADXDR));
    }
    match exports.resolve_fh(fh.as_slice()) {
        None => Err(failed(28, NFS4ERR_STALE)),
        Some(path) => Ok(RangeQuery { path, offset: get_u64(request, p + 16), count: get_u32(request, p + 24) }),
    }
}

/// The READ result from the whole file's contents: the bytes from `offset`
/// (capped at the end) for up to `count` bytes, with end-of-file when they
/// reach the end.
pub open spec fn read_reply(data: Seq<u8>, offset: u64, count: u32) -> Seq<u8> {
    let start = if offset < data.len() { offset as int } else { data.len() as int };
    let end = if start + count < data.len() { start + count } else { data.len() as int };
    u32_bytes(if end >= data.len() { 1u32 } else { 0u32 }) + opaque_bytes(data.subrange(start, end))
}

/// A big-endian word read from a joined sequence comes from the part it
/// lies in.
proof fn lemma_be32_join(a: Seq<u8>, b: Seq<u8>, i: int)
    ensures
        0 <= i && i + 4 <= a.len() ==> be32(a + b, i) == be32(a, i),
        0 <= i && i + 4 <= b.len() ==> be32(a + b, a.len() + i) == be32(b, i),
{
    let c = a + b;
    if 0 <= i && i + 4 <= a.len() {
        assert(c[i] == a[i] && c[i + 1] == a[i + 1] && c[i + 2] == a[i + 2] && c[i + 3] == a[i + 3]);
    }
    if 0 <= i && i + 4 <= b.len() {
        let j = a.len() + i;
        assert(c[j] == b[i] && c[j + 1] == b[i + 1] && c[j + 2] == b[i + 2] && c[j + 3] == b[i + 3]);
    }
}

/// What a READ answers, field by field: it returns the bytes of the file
/// from `offset` on, as many as asked for and as there are (none past the
/// end), and its end-of-file flag is set exactly when the bytes returned
/// reach the end of the file, that is when `offset` plus the number of
/// bytes returned is at least the file size (equivalently, when `offset`
/// plus `count` is).
pub proof fn lemma_read_reply_fields(data: Seq<u8>, offset: u64, count: u32)
    requires
        data.len() <= u32::MAX,
    ensures
        ({
            let r = read_reply(data, offset, count);
            let n = if offset >= data.len() { 0 } else if count < data.len() - offset { count as int } else { data.len() - offset };
            let from = if offset < data.len() { offset as int } else { data.len() as int };
            &&& r.len() >= 8 + n
            &&& be32(r, 4) == n
            &&& r.subrange(8, 8 + n) == data.subrange(from, from + n)
            &&& (be32(r, 0) == 1 <==> offset + n >= data.len())
            &&& (be32(r, 0) == 1 <==> offset + count >= data.len())
            &&& (be32(r, 0) == 0 || be32(r, 0) == 1)
        }),
{
    let len = data.len() as int;
    let start = if offset < len { offset as int } else { len };
    let end = if start + count < len { start + count } else { len };
    let flag: u32 = if end >= len { 1u32 } else { 0u32 };
    let sub = data.subrange(start, end);
    let ob = opaque_bytes(sub);
    crate::xdr::lemma_u32_roundtrip(flag);
    crate::xdr::lemma_u32_roundtrip(sub.len() as u32);
    let r = read_reply(data, offset, count);
    assert(r == u32_bytes(flag) + ob);
    lemma_be32_join(u32_bytes(flag), ob, 0);
    assert(ob == u32_bytes(sub.len() as u32) + sub + zeros(pad4(sub.len() as int) - sub.len()));
    lemma_be32_join(u32_bytes(sub.len() as u32), sub + zeros(pad4(sub.len() as int) - sub.len()), 0);
    assert(u32_bytes(sub.len() as u32) + sub + zeros(pad4(sub.len() as int) - sub.len())
        == u32_bytes(sub.len() as u32) + (sub + zeros(pad4(sub.len() as int) - sub.len())));
    assert(be32(ob, 0) == sub.len());
    assert(be32(r, 4) == be32(ob, 0));
    crate::xdr::lemma_pad_mod(sub.len() as int);
    assert(r.subrange(8, 8 + (end - start)) =~= sub);
    if offset >= len {
        assert(start == len && end == len);
    }
}

/// READ, second half, from the file's contents (`None` when the file could
/// not be read).
pub fn finish_read(q: &RangeQuery, data: &Option<Vec<u8>>) -> (r: OpOutcome)
    ensures
        r@ == (match path_view(data) {
            None => fail(28, NFS4ERR_IO),
            Some(d) => ok(read_reply(d, q.offset, q.count), 28, None, None),
        }),
{
    let d = match data {
        None => return failed(28, NFS4ERR_IO),
        Some(d) => d,
    };
    let len = d.len() as u64;
    let start: u64 = if q.offset < len { q.offset } else { len };
    let end: u64 = if (q.count as u64) < len - start { start + q.count as u64 } else { len };
    let mut r: Vec<u8> = Vec::new();
    put_u32(&mut r, if end >= len { 1 } else { 0 });
    let slice = copy_range(d.as_slice(), start as usize, (end - start) as usize);
    put_opaque(&mut r, slice.as_slice());
    succeeded(r, 28, None, None)
}

/// The READ_PLUS result past the end of the file: a zero stateid, nothing
/// read, end of file, and a hole at `offset` of length 0.
pub open spec fn read_plus_hole(offset: u64) -> Seq<u8> {
    zeros(16) + u32_bytes(0) + u32_bytes(1) + u32_bytes(1) + u64_bytes(offset) + u32_bytes(0)
}

/// The READ_PLUS result for the bytes read at `offset`: a zero stateid,
/// their count, end of file when they reach `size`, and one data segment.
pub open spec fn read_plus_data(offset: u64, data: Seq<u8>, size: u64) -> Seq<u8> {
    zeros(16) + u32_bytes(data.len() as u32) + u32_bytes(if offset + data.len() >= size { 1u32 } else { 0u32 })
        + u32_bytes(0) + u64_bytes(offset) + u32_bytes(data.len() as u32) + opaque_bytes(data)
}

/// How many bytes READ_PLUS reads for a file of `size` bytes (when the
/// offset is inside the file).
pub open spec fn read_plus_len(q_offset: u64, count: u32, size: u64) -> int {
    if count < size - q_offset { count as int } else { size - q_offset }
}

/// READ_PLUS, second half, part one: past the end of the file the answer
/// is a hole; otherwise the number of bytes to read at the offset.
pub fn read_plus_extent(q: &RangeQuery, size: Option<u64>) -> (r: Result<u32, OpOutcome>)
    ensures
        match size {
            None => r matches Err(o) && o@ == fail(28, NFS4ERR_IO),
            Some(sz) => if q.offset >= sz {
                r matches Err(o) && o@ == ok(read_plus_hole(q.offset), 28, None, None)
            } else {
                r matches Ok(n) && n == read_plus_len(q.offset, q.count, sz)
            },
        },
{
    let sz = match size {
        None => return Err(failed(28, NFS4ERR_IO)),
        Some(s) => s,
    };
    if q.offset >= sz {
        let mut r: Vec<u8> = Vec::new();
        put_zeros(&mut r, 16);
        put_u32(&mut r, 0);
        put_u32(&mut r, 1);
        put_u32(&mut r, 1);
        put_u64(&mut r, q.offset);
        put_u32(&mut r, 0);
        assert(r@ =~= read_plus_hole(q.offset));
        return Err(succeeded(r, 28, None, None));
    }
    if (q.count as u64) < sz - q.offset { Ok(q.count) } else { Ok((sz - q.offset) as u32) }
}

/// READ_PLUS, second half, part two: the bytes read (`None` when reading
/// failed), at most as many as asked for.
pub fn finish_read_plus(q: &RangeQuery, size: u64, data: &Option<Vec<u8>>) -> (r: OpOutcome)
    requires
        q.offset < size,
        data matches Some(d) ==> d@.len() <= read_plus_len(q.offset, q.count, size),
    ensures
        r@ == (match path_view(data) {
            None => fail(28, NFS4ERR_IO),
            Some(d) => ok(read_plus_data(q.offset, d, size), 28, None, None),
        }),
{
    let d = match data {
        None => return failed(28, NFS4ERR_IO),
        Some(d) => d,
    };
    let n = d.len() as u32;
    let dl = d.len() as u64;
    assert(dl <= size - q.offset);
    let mut r: Vec<u8> = Vec::new();
    put_zeros(&mut r, 16);
    put_u32(&mut r, n);
    put_u32(&mut r, if q.offset + dl >= size { 1 } else { 0 });
    put_u32(&mut r, 0);
    put_u64(&mut r, q.offset);
    put_u32(&mut r, n);
    put_opaque(&mut r, d.as_slice());
    assert(r@ =~= read_plus_data(q.offset, d@, size));
    succeeded(r, 28, None, None)
}

/// The SEEK result for a file of `size` bytes: for data, the offset and the
/// length to the end (or end of file past it); for a hole, the end of the
/// file (or the offset past it) with end of file; INVAL for another type.
pub open spec fn seek_outcome(offset: u64, what: u32, size: u64) -> Outcome {
    if what == 0 {
        if offset < size {
            ok(u64_bytes(offset) + u64_bytes((size - offset) as u64) + u32_bytes(0), 28, None, None)
        } else {
            ok(u64_bytes(offset) + u32_bytes(0) + u32_bytes(1), 28, None, None)
        }
    } else if what == 1 {
        if offset < size {
            ok(u64_bytes(size) + u32_bytes(0) + u32_bytes(1), 28, None, None)
        } else {
            ok(u64_bytes(offset) + u32_bytes(0) + u32_bytes(1), 28, None, None)
        }
    } else {
        fail(28, NFS4ERR_INVAL)
    }
}

/// SEEK, second half, from the file's size (`None` when it could not be
/// read).
pub fn finish_seek(q: &RangeQuery, size: Option<u64>) -> (r: OpOutcome)
    ensures
        r@ == (match size {
            None => fail(28, NFS4ERR_IO),
            Some(sz) => seek_outcome(q.offset, q.count, sz),
        }),
{
    let sz = match size {
        None => return failed(28, NFS4ERR_IO),
        Some(s) => s,
    };
    let off = q.offset;
    let mut r: Vec<u8> = Vec::new();
    if q.count == 0 {
        if off < sz {
            put_u64(&mut r, off);
            put_u64(&mut r, sz - off);
            put_u32(&mut r, 0);
        } else {
            put_u64(&mut r, off);
            put_u32(&mut r, 0);
            put_u32(&mut r, 1);
        }
        succeeded(r, 28, None, None)
    } else if q.count == 1 {
        if off < sz {
            put_u64(&mut r, sz);
        } else {
            put_u64(&mut r, off);
        }
        put_u32(&mut r, 0);
        put_u32(&mut r, 1);
        succeeded(r, 28, None, None)
    } else {
        failed(28, NFS4ERR_INVAL)
    }
}

/// What WRITE needs: the bytes to write at the offset of the file, and
/// whether to sync.
pub struct WriteQuery {
    pub path: Vec<u8>,
    pub offset: u64,
    pub stable: u32,
    pub data: Vec<u8>,
    pub advance: usize,
}

/// WRITE, first half.
pub fn plan_write(exports: &ExportsManager, request: &[u8], p: usize, current_fh: &Option<Vec<u8>>) -> (r: Result<WriteQuery, OpOutcome>)
    ensures
        match opt_view(*current_fh) {
            None => r matches Err(o) && o@ == fail(0, NFS4ERR_NOFILEHANDLE),
            Some(fh) => if read_only(*exports, fh) {
                r matches Err(o) && o@ == fail(0, NFS4ERR_ROFS)
            } else if p + 28 > request@.len() {
                r matches Err(o) && o@ == fail(0, NFS4ERR_BADXDR)
            } else if p + 32 > request@.len() {
                r matches Err(o) && o@ == fail(28, NFS4ERR_BADXDR)
            } else if p + 32 + be32(request@, p + 28) > request@.len() {
                r matches Err(o) && o@ == fail(32, NFS4ERR_BADXDR)
            } else {
                let n = be32(request@, p + 28);
                let c = clamp(32 + pad4(n as int));
                match path_of(*exports, fh) {
                    None => r matches Err(o) && o@ == fail(c, NFS4ERR_STALE),
                    Some(path) => r matches Ok(q) && q.path@ == path && q.offset == be64(request@, p + 16)
                        && q.stable == be32(request@, p + 24) && q.data@ == request@.subrange(p + 32, p + 32 + n)
                        && q.advance == c,
                }
            },
        },
{
    let fh = match current_fh {
        None => return Err(failed(0, NFS4ERR_NOFILEHANDLE)),
        Some(fh) => fh,
    };
    if exports.is_read_only(fh.as_slice()) {
        return Err(failed(0, NFS4ERR_ROFS));
    }
    if p > request.len() || request.len() - p < 28 {
        return Err(failed(0, NFS4ERR_BADXDR));
    }
    if request.len() - p < 32 {
        return Err(failed(28, NFS4ERR_BADXDR));
    }
    let n = get_u32(request, p + 28) as usize;
    if request.len() - p - 32 < n {
        return Err(failed(32, NFS4ERR_BADXDR));
    }
    let c = clamp_len(32 + (n as u64 + 3) / 4 * 4);
    match exports.resolve_fh(fh.as_slice()) {
        None => Err(failed(c, NFS4ERR_STALE)),
        Some(path) => Ok(WriteQuery {
            path,
            offset: get_u64(request, p + 16),
            stable: get_u32(request, p + 24),
            data: copy_range(request, p + 32, n),
            advance: c,
        }),
    }
}

/// The WRITE result: the count written, FILE_SYNC, and the write verifier.
pub open spec fn write_reply(count: u32, writeverf: Seq<u8>) -> Seq<u8> {
    u32_bytes(count) + u32_bytes(2) + writeverf
}

/// WRITE, second half: whether the write went through.
pub fn finish_write(q: &WriteQuery, written: bool, writeverf: &[u8]) -> (r: OpOutcome)
    ensures
        r@ == (if written {
            ok(write_reply(q.data@.len() as u32, writeverf@), q.advance as int, None, None)
        } else {
            fail(q.advance as int, NFS4ERR_IO)
        }),
{
    if !written {
        return failed(q.advance, NFS4ERR_IO);
    }
    let mut r: Vec<u8> = Vec::new();
    put_u32(&mut r, q.data.len() as u32);
    put_u32(&mut r, 2);
    put_bytes(&mut r, writeverf);
    succeeded(r, q.advance, None, None)
}

/// PUTFH, first half: the handle (an `opaque<>`); an empty handle is
/// BADHANDLE. The caller may then rebuild the handle's entry (see
/// [`ExportsManager::rebuild_candidate`]) before it becomes current.
pub fn plan_putfh(request: &[u8], p: usize) -> (r: Result<(Vec<u8>, usize), OpOutcome>)
    ensures
        if p + 4 > request@.len() {
            r matches Err(o) && o@ == fail(0, NFS4ERR_BADXDR)
        } else {
            let n = be32(request@, p as int);
            let c = clamp(4 + pad4(n as int));
            if p + 4 + n > request@.len() {
                r matches Err(o) && o@ == fail(clamp(p + 4), NFS4ERR_BADXDR)
            } else if n == 0 {
                r matches Err(o) && o@ == fail(c, NFS4ERR_BADHANDLE)
            } else {
                r matches Ok((fh, adv)) && fh@ == request@.subrange(p + 4, p + 4 + n) && adv == c
            }
        },
{
    if p > request.len() || request.len() - p < 4 {
        return Err(failed(0, NFS4ERR_BADXDR));
    }
    let n = get_u32(request, p) as usize;
    if request.len() - p - 4 < n {
        return Err(failed(p + 4, NFS4ERR_BADXDR));
    }
    let c = clamp_len(4 + (n as u64 + 3) / 4 * 4);
    if n == 0 {
        return Err(failed(c, NFS4ERR_BADHANDLE));
    }
    Ok((copy_range(request, p + 4, n), c))
}

/// PUTFH, second half: the handle becomes current.
pub fn finish_putfh(fh: Vec<u8>, advance: usize) -> (r: OpOutcome)
    ensures
        r@ == ok(Seq::empty(), advance as int, Some(fh@), None),
{
    succeeded(Vec::new(), advance, Some(fh), None)
}


/// The index of the first entry READDIR returns for `cookie`: the entries
/// carry cookies from 3 up (1 and 2 belong to `.` and `..`), so a cookie of
/// 3 or more resumes after the entry that had it; 0, 1 and 2 start over.
pub open spec fn readdir_start(cookie: u64) -> int {
    if cookie >= 3 { cookie - 2 } else { 0 }
}

/// The entry at position `k` of the sorted listing goes out with cookie
/// `3 + k` (see [`scan`]), and a READDIR resumed from that cookie starts
/// at position `k + 1`: paging neither repeats nor skips an entry.
pub proof fn lemma_resume_after_cookie(es: Seq<DirEntryView>, k: nat)
    requires
        k < es.len(),
        3 + k <= u64::MAX,
    ensures
        first_listed(es, (3 + k) as u64) == k + 1,
{
}

/// The type an entry has without metadata.
pub open spec fn entry_type(e: DirEntryView) -> u32 {
    if e.is_dir { NF4DIR } else { NF4REG }
}

/// One `entry4`: the value-follows flag, the cookie, the name and the
/// attributes.
#[verifier::opaque]
pub open spec fn entry_bytes(e: DirEntryView, cookie: u64, bm: Seq<u32>) -> Seq<u8> {
    u32_bytes(1) + u64_bytes(cookie) + opaque_bytes(e.name) + fattr4(e.meta, Some(e.path), bm, entry_type(e), false)
}

/// The entries READDIR sends after looking at `n` entries from `k0`: the
/// encoded entries, how many, and whether one no longer fit in `maxcount`
/// (counting the 8-byte verifier, the entries, the entry and the 8 closing
/// bytes), which ends the listing.
pub open spec fn scan(es: Seq<DirEntryView>, k0: int, n: nat, maxcount: u32, bm: Seq<u32>) -> (Seq<u8>, nat, bool)
    decreases n,
{
    if n == 0 {
        (Seq::empty(), 0, false)
    } else {
        let prev = scan(es, k0, (n - 1) as nat, maxcount, bm);
        if prev.2 {
            prev
        } else {
            let k = k0 + n - 1;
            let eb = entry_bytes(es[k], (3 + k) as u64, bm);
            if 8 + prev.0.len() + eb.len() + 8 > maxcount {
                (prev.0, prev.1, true)
            } else {
                (prev.0 + eb, prev.1 + 1, false)
            }
        }
    }
}

/// Once the listing is full, looking at more entries changes nothing.
pub proof fn lemma_scan_stays(es: Seq<DirEntryView>, k0: int, n: nat, m: nat, maxcount: u32, bm: Seq<u32>)
    requires
        n <= m,
        scan(es, k0, n, maxcount, bm).2,
    ensures
        scan(es, k0, m, maxcount, bm) == scan(es, k0, n, maxcount, bm),
    decreases m - n,
{
    if n < m {
        lemma_scan_stays(es, k0, n, (m - 1) as nat, maxcount, bm);
    }
}

/// The first entry READDIR looks at.
pub open spec fn first_listed(es: Seq<DirEntryView>, cookie: u64) -> int {
    if readdir_start(cookie) < es.len() { readdir_start(cookie) } else { es.len() as int }
}

/// The READDIR result for the entries in name order.
pub open spec fn readdir_reply(es: Seq<DirEntryView>, cookie: u64, maxcount: u32, bm: Seq<u32>) -> Seq<u8> {
    let k0 = first_listed(es, cookie);
    let sc = scan(es, k0, (es.len() - k0) as nat, maxcount, bm);
    Seq::new(8, |i: int| 1u8) + sc.0 + u32_bytes(0)
        + u32_bytes(if readdir_start(cookie) + sc.1 >= es.len() { 1u32 } else { 0u32 })
}

/// The entries READDIR registers handles for: those it sent and the one
/// that no longer fit.
pub open spec fn readdir_registered(es: Seq<DirEntryView>, cookie: u64, maxcount: u32, bm: Seq<u32>) -> Seq<DirEntryView> {
    let k0 = first_listed(es, cookie);
    let sc = scan(es, k0, (es.len() - k0) as nat, maxcount, bm);
    es.subrange(k0, k0 + sc.1 + (if sc.2 { 1int } else { 0int }))
}

/// The handle entries and counter after registering the paths of `es`
/// under `root` one after another.
pub open spec fn fold_entries(hs: Seq<FhView>, c: u64, es: Seq<DirEntryView>, root: Seq<u8>) -> (Seq<FhView>, u64)
    decreases es.len(),
{
    if es.len() == 0 {
        (hs, c)
    } else {
        let prev = fold_entries(hs, c, es.drop_last(), root);
        let p = es.last().path;
        match index_by_path(prev.0, p) {
            Some(_) => prev,
            None => (prev.0.push(FhView { fhid: prev.1, real_path: p, export_root: root, inode: crate::exports::fnv1a(p), gen: 1 }),
                (prev.1 + 1) as u64),
        }
    }
}

/// Registering entries raises the counter by at most their number.
proof fn lemma_fold_counter(hs: Seq<FhView>, c: u64, es: Seq<DirEntryView>, root: Seq<u8>)
    requires
        c + es.len() < u64::MAX,
    ensures
        c <= fold_entries(hs, c, es, root).1 <= c + es.len(),
    decreases es.len(),
{
    if es.len() > 0 {
        lemma_fold_counter(hs, c, es.drop_last(), root);
    }
}

/// A directory listed in name order.
pub open spec fn listed_in_order(sorted: Seq<DirEntry>, entries: Seq<DirEntry>) -> bool {
    sorted.to_multiset() == entries.to_multiset() && sorted_by_name(sorted)
}

/// Builds one `entry4`.
fn build_entry(e: &DirEntry, cookie: u64, bitmap: &[u32]) -> (r: Vec<u8>)
    ensures
        r@ == entry_bytes(e@, cookie, bitmap@),
{
    reveal(entry_bytes);
    let mut eb: Vec<u8> = Vec::new();
    put_u32(&mut eb, 1);
    put_u64(&mut eb, cookie);
    put_opaque(&mut eb, e.name.as_slice());
    let path = Some(crate::exports::clone_bytes(&e.path));
    let fa = build_fattr4(&e.meta, &path, bitmap, if e.is_dir { NF4DIR } else { NF4REG }, false);
    put_bytes(&mut eb, fa.as_slice());
    eb
}

/// READDIR of a directory, second half, from its entries in any order: sorts
/// them by name, lists them from the cookie on while they fit in
/// `maxcount`, and registers a handle under `root` for each entry it looks
/// at. End of file when the listing reached the last entry.
pub fn finish_readdir(
    exports: &mut ExportsManager,
    entries: Vec<DirEntry>,
    cookie: u64,
    maxcount: u32,
    bitmap: &[u32],
    advance: usize,
    root: &[u8],
    salt: u32,
) -> (r: OpOutcome)
    requires
        old(exports).wf(),
        old(exports).fh_counter + entries@.len() + 3 < u64::MAX,
    ensures
        final(exports).wf(),
        final(exports).exports == old(exports).exports,
        final(exports).fh_hmac_key == old(exports).fh_hmac_key,
        final(exports).config == old(exports).config,
        exists|sorted: Seq<DirEntry>| #[trigger] listed_in_order(sorted, entries@) && {
            let ev = entry_views(sorted);
            &&& r@ == ok(readdir_reply(ev, cookie, maxcount, bitmap@), advance as int, None, None)
            &&& (final(exports).handle_list(), final(exports).fh_counter) == fold_entries(old(exports).handle_list(),
                old(exports).fh_counter, readdir_registered(ev, cookie, maxcount, bitmap@), root@)
        },
{
    let mut v = entries;
    sort_by_name(&mut v);
    let ghost ev = entry_views(v@);
    let ghost h0 = exports.handle_list();
    let ghost c0 = exports.fh_counter;
    let len = v.len();
    let start: u64 = if cookie >= 3 { cookie - 2 } else { 0 };
    let k0: usize = if start < len as u64 { start as usize } else { len };
    assert(k0 == first_listed(ev, cookie));
    let mut body: Vec<u8> = Vec::new();
    let mut count: usize = 0;
    let mut stopped = false;
    let mut k = k0;
    assert(ev.subrange(k0 as int, k0 as int) =~= Seq::<DirEntryView>::empty());
    while k < len && !stopped
        invariant
            k0 <= k <= len,
            len == v@.len(),
            ev == entry_views(v@),
            ev.len() == len,
            k0 == first_listed(ev, cookie),
            c0 + len + 3 < u64::MAX,
            scan(ev, k0 as int, (k - k0) as nat, maxcount, bitmap@) == (body@, count as nat, stopped),
            count + (if stopped { 1int } else { 0int }) == k - k0,
            exports.wf(),
            exports.exports == old(exports).exports,
            exports.fh_hmac_key == old(exports).fh_hmac_key,
            exports.config == old(exports).config,
            (exports.handle_list(), exports.fh_counter) == fold_entries(h0, c0, ev.subrange(k0 as int, k as int), root@),
            c0 <= exports.fh_counter <= c0 + (k - k0),
        decreases len - k,
    {
        let e = &v[k];
        assert(ev[k as int] == e@);
        proof {
            let sub = ev.subrange(k0 as int, k + 1);
            assert(sub.drop_last() =~= ev.subrange(k0 as int, k as int));
            assert(sub.last() == e@);
        }
        let _fh = exports.get_or_create_fh(e.path.as_slice(), root, salt);
        let eb = build_entry(e, 3 + k as u64, bitmap);
        if 16 + body.len() as u128 + eb.len() as u128 > maxcount as u128 {
            stopped = true;
        } else {
            put_bytes(&mut body, eb.as_slice());
            count = count + 1;
        }
        k = k + 1;
    }
    proof {
        lemma_fold_counter(h0, c0, ev.subrange(k0 as int, k as int), root@);
        if stopped {
            lemma_scan_stays(ev, k0 as int, (k - k0) as nat, (len - k0) as nat, maxcount, bitmap@);
        }
    }
    let mut r: Vec<u8> = Vec::new();
    put_bytes(&mut r, &[1u8, 1u8, 1u8, 1u8, 1u8, 1u8, 1u8, 1u8]);
    put_bytes(&mut r, body.as_slice());
    put_u32(&mut r, 0);
    let eof = start as u128 + count as u128 >= len as u128;
    put_u32(&mut r, if eof { 1 } else { 0 });
    assert(r@ =~= readdir_reply(ev, cookie, maxcount, bitmap@));
    assert(listed_in_order(v@, entries@));
    succeeded(r, advance, None, None)
}


/// The name an export has in the pseudo-root: its alias, or the last
/// component of its path, or the whole path when that has none.
pub open spec fn root_entry_name(e: ExportView) -> Seq<u8> {
    match e.alias {
        Some(a) => a,
        None => if crate::paths::file_name(e.path).len() == 0 { e.path } else { crate::paths::file_name(e.path) },
    }
}

/// The `entry4` of an export in the pseudo-root.
#[verifier::opaque]
pub open spec fn root_entry_bytes(path: Seq<u8>, alias: Option<Seq<u8>>, meta: Option<FileMeta>, cookie: u64, bm: Seq<u32>) -> Seq<u8> {
    u32_bytes(1) + u64_bytes(cookie)
        + opaque_bytes(root_entry_name(ExportView { path, alias, clients: Seq::empty(), options: crate::exports::default_options() }))
        + fattr4(meta, Some(path), bm, NF4DIR, false)
}

/// Builds the `entry4` of an export in the pseudo-root.
fn build_root_entry(path: &Vec<u8>, alias: &Option<Vec<u8>>, meta: &Option<FileMeta>, cookie: u64, bitmap: &[u32]) -> (r: Vec<u8>)
    ensures
        r@ == root_entry_bytes(path@, path_view(alias), *meta, cookie, bitmap@),
{
    reveal(root_entry_bytes);
    let name = match alias {
        Some(a) => crate::exports::clone_bytes(a),
        None => {
            let f = crate::paths::file_name_of(path.as_slice());
            if f.len() == 0 { crate::exports::clone_bytes(path) } else { f }
        }
    };
    let mut body: Vec<u8> = Vec::new();
    put_u32(&mut body, 1);
    put_u64(&mut body, cookie);
    put_opaque(&mut body, name.as_slice());
    let fa = build_fattr4(meta, &Some(crate::exports::clone_bytes(path)), bitmap, NF4DIR, false);
    put_bytes(&mut body, fa.as_slice());
    body
}

/// The pseudo-root's entries for the first `n` exports, skipping those
/// whose cookie (3 up) is not past `cookie`; each is a directory.
pub open spec fn root_listing(ex: Seq<ExportView>, metas: Seq<Option<FileMeta>>, cookie: u64, bm: Seq<u32>, n: nat) -> Seq<u8>
    decreases n,
{
    if n == 0 {
        Seq::empty()
    } else {
        let k = n - 1;
        root_listing(ex, metas, cookie, bm, (n - 1) as nat) + (if 3 + k <= cookie {
            Seq::empty()
        } else {
            root_entry_bytes(ex[k].path, ex[k].alias, metas[k], (3 + k) as u64, bm)
        })
    }
}

/// READDIR of the pseudo-root, second half, from the metadata of each
/// export's directory (in export order): every export past the cookie,
/// then end of file.
#[verifier::spinoff_prover]
pub fn finish_readdir_root(exports: &ExportsManager, metas: &Vec<Option<FileMeta>>, cookie: u64, bitmap: &[u32], advance: usize) -> (r: OpOutcome)
    requires
        metas@.len() == exports.exports@.len(),
        exports.exports@.len() + 3 < u64::MAX,
    ensures
        r@ == ok(Seq::new(8, |i: int| 1u8) + root_listing(exports.export_list(), metas@, cookie, bitmap@, exports.export_list().len())
            + u32_bytes(0) + u32_bytes(1), advance as int, None, None),
{
    let list = exports.list_exports_with_aliases();
    let ghost ex = exports.export_list();
    let mut body: Vec<u8> = Vec::new();
    let mut k: usize = 0;
    while k < list.len()
        invariant
            k <= list@.len(),
            list@.len() == exports.exports@.len(),
            ex == exports.export_list(),
            ex.len() == list@.len(),
            metas@.len() == list@.len(),
            list@.len() + 3 < u64::MAX,
            forall|i: int| 0 <= i < list@.len() ==> {
                &&& #[trigger] list@[i].0@ == exports.exports@[i].path@
                &&& (match list@[i].1 {
                    Some(a) => Some(a@),
                    None => None::<Seq<u8>>,
                }) == ex[i].alias
            },
            body@ == root_listing(ex, metas@, cookie, bitmap@, k as nat),
        decreases list@.len() - k,
    {
        let c = 3 + k as u64;
        if c > cookie {
            assert(ex[k as int] == exports.exports@[k as int]@);
            let eb = build_root_entry(&list[k].0, &list[k].1, &metas[k], c, bitmap);
            let ghost before = body@;
            put_bytes(&mut body, eb.as_slice());
            assert(path_view(&list@[k as int].1) == ex[k as int].alias);
        } else {
            assert(body@ =~= body@ + Seq::<u8>::empty());
        }
        k = k + 1;
    }
    let mut r: Vec<u8> = Vec::new();
    put_bytes(&mut r, &[1u8, 1u8, 1u8, 1u8, 1u8, 1u8, 1u8, 1u8]);
    put_bytes(&mut r, body.as_slice());
    put_u32(&mut r, 0);
    put_u32(&mut r, 1);
    assert(r@ =~= Seq::new(8, |i: int| 1u8) + root_listing(ex, metas@, cookie, bitmap@, ex.len()) + u32_bytes(0) + u32_bytes(1));
    succeeded(r, advance, None, None)
}

/// What READDIR does next.
pub enum ReaddirStep {
    /// Answered.
    Done(OpOutcome),
    /// List the pseudo-root: the caller reads each export directory's metadata.
    Root { cookie: u64, bitmap: Vec<u32>, advance: usize },
    /// List directory `path`: the caller reads its entries.
    Dir { path: Vec<u8>, root: Vec<u8>, cookie: u64, maxcount: u32, bitmap: Vec<u32>, advance: usize },
}

/// The number of bitmap words of a pseudo-root READDIR that fit: it reads
/// what fits of the requested bitmap and ignores the rest.
pub open spec fn root_words(s: Seq<u8>, p: int) -> nat {
    let n = be32(s, p + 24) as int;
    let room = (s.len() - p - 28) / 4;
    (if n < room { n } else { room }) as nat
}

/// READDIR, first half. The caller makes sure that when the cookie,
/// verifier and directory count fit, so does the maximum count.
pub fn plan_readdir(exports: &ExportsManager, request: &[u8], p: usize, current_fh: &Option<Vec<u8>>) -> (r: ReaddirStep)
    requires
        current_fh is Some && p + 20 <= request@.len() ==> p + 24 <= request@.len(),
    ensures
        match opt_view(*current_fh) {
            None => r matches ReaddirStep::Done(o) && o@ == fail(0, NFS4ERR_NOFILEHANDLE),
            Some(fh) => if p + 20 > request@.len() {
                r matches ReaddirStep::Done(o) && o@ == fail(0, NFS4ERR_BADXDR)
            } else if p + 28 > request@.len() {
                r matches ReaddirStep::Done(o) && o@ == fail(24, NFS4ERR_BADXDR)
            } else if is_root(fh) {
                let k = root_words(request@, p as int);
                r matches ReaddirStep::Root { cookie, bitmap, advance } && cookie == be64(request@, p as int)
                    && bitmap@ == bitmap_at(request@, p + 24, k) && advance == 28 + 4 * k
            } else {
                let n = be32(request@, p + 24);
                let c = clamp(28 + 4 * n);
                if p + 28 + 4 * n > request@.len() {
                    r matches ReaddirStep::Done(o) && o@ == fail(28, NFS4ERR_BADXDR)
                } else {
                    match path_of(*exports, fh) {
                        None => r matches ReaddirStep::Done(o) && o@ == fail(c, NFS4ERR_STALE),
                        Some(dir) => r matches ReaddirStep::Dir { path, root, cookie, maxcount, bitmap, advance }
                            && path@ == dir && root@ == root_or(*exports, fh, dir) && cookie == be64(request@, p as int)
                            && maxcount == be32(request@, p + 20) && bitmap@ == bitmap_at(request@, p + 24, n as nat)
                            && advance == c,
                    }
                }
            },
        },
{
    let fh = match current_fh {
        None => return ReaddirStep::Done(failed(0, NFS4ERR_NOFILEHANDLE)),
        Some(fh) => fh,
    };
    if p > request.len() || request.len() - p < 20 {
        return ReaddirStep::Done(failed(0, NFS4ERR_BADXDR));
    }
    if request.len() - p < 28 {
        return ReaddirStep::Done(failed(24, NFS4ERR_BADXDR));
    }
    let cookie = get_u64(request, p);
    let n = get_u32(request, p + 24);
    if is_root_handle(fh.as_slice()) {
        let room = (request.len() - p - 28) / 4;
        let k: usize = if (n as usize) < room { n as usize } else { room };
        let bitmap = read_bitmap(request, p + 24, k as u32);
        return ReaddirStep::Root { cookie, bitmap, advance: 28 + 4 * k };
    }
    if ((request.len() - p) as u64) < 28 + 4 * (n as u64) {
        return ReaddirStep::Done(failed(28, NFS4ERR_BADXDR));
    }
    let c = clamp_len(28 + 4 * (n as u64));
    let maxcount = get_u32(request, p + 20);
    match exports.resolve_fh(fh.as_slice()) {
        None => ReaddirStep::Done(failed(c, NFS4ERR_STALE)),
        Some(dir) => {
            let root = match exports.get_fh_export_root(fh.as_slice()) {
                Some(r) => r,
                None => crate::exports::clone_bytes(&dir),
            };
            let bitmap = read_bitmap(request, p + 24, n);
            ReaddirStep::Dir { path: dir, root, cookie, maxcount, bitmap, advance: c }
        },
    }
}


/// OPEN's arguments at `p`: the open type, the file name (empty unless
/// the claim is CLAIM_NULL) and the offset past the arguments.
pub open spec fn open_args(s: Seq<u8>, p: int) -> Option<(u32, Seq<u8>, int)> {
    if p + 24 > s.len() {
        None
    } else {
        let a = clamp(p + 24 + pad4(be32(s, p + 20) as int));
        if a + 4 > s.len() {
            None
        } else {
            let otype = be32(s, a);
            let b = a + 4;
            let c_opt: Option<int> = if otype == OPEN4_CREATE {
                if b + 8 > s.len() {
                    None
                } else {
                    let d = clamp(b + 8 + 4 * be32(s, b + 4));
                    if d + 4 > s.len() { None } else { Some(clamp(d + 4 + pad4(be32(s, d) as int))) }
                }
            } else {
                Some(b)
            };
            match c_opt {
                None => None,
                Some(c) => if c + 4 > s.len() {
                    None
                } else if be32(s, c) == CLAIM_NULL {
                    let e = c + 4;
                    if e + 4 > s.len() || e + 4 + be32(s, e) > s.len() {
                        None
                    } else {
                        Some((otype, s.subrange(e + 4, e + 4 + be32(s, e)), clamp(e + 4 + pad4(be32(s, e) as int))))
                    }
                } else {
                    Some((otype, Seq::empty(), c + 4))
                },
            }
        }
    }
}

/// Parses OPEN's arguments.
pub fn parse_open(buf: &[u8], p: usize) -> (r: Option<(u32, Vec<u8>, usize)>)
    ensures
        r matches Some((t, n, e)) ==> open_args(buf@, p as int) == Some((t, n@, e as int)) && e >= p,
        r is None <==> open_args(buf@, p as int) is None,
{
    if p > buf.len() || buf.len() - p < 24 {
        return None;
    }
    let a = add_clamped(p + 24, (get_u32(buf, p + 20) as u64 + 3) / 4 * 4);
    if a > buf.len() || buf.len() - a < 4 {
        return None;
    }
    let otype = get_u32(buf, a);
    let b = a + 4;
    let c: usize = if otype == OPEN4_CREATE {
        if buf.len() - b < 8 {
            return None;
        }
        let d = add_clamped(b + 8, 4 * (get_u32(buf, b + 4) as u64));
        if d > buf.len() || buf.len() - d < 4 {
            return None;
        }
        add_clamped(d + 4, (get_u32(buf, d) as u64 + 3) / 4 * 4)
    } else {
        b
    };
    if c > buf.len() || buf.len() - c < 4 {
        return None;
    }
    if get_u32(buf, c) == CLAIM_NULL {
        let e = c + 4;
        if buf.len() - e < 4 {
            return None;
        }
        let n = get_u32(buf, e) as usize;
        if buf.len() - e - 4 < n {
            return None;
        }
        let name = copy_range(buf, e + 4, n);
        Some((otype, name, add_clamped(e + 4, (n as u64 + 3) / 4 * 4)))
    } else {
        Some((otype, Vec::new(), c + 4))
    }
}

/// What OPEN does next.
pub enum OpenStep {
    /// Answered.
    Done(OpOutcome),
    /// Open `file` (creating it first when `create` and it does not exist).
    Open { file: Vec<u8>, root: Vec<u8>, create: bool, advance: usize },
}

/// OPEN, first half: the file is the directory itself for an empty name,
/// otherwise the name inside it; creating in a read-only export is ROFS.
pub fn plan_open(exports: &ExportsManager, request: &[u8], p: usize, current_fh: &Option<Vec<u8>>) -> (r: OpenStep)
    ensures
        match opt_view(*current_fh) {
            None => r matches OpenStep::Done(o) && o@ == fail(0, NFS4ERR_NOFILEHANDLE),
            Some(fh) => match open_args(request@, p as int) {
                None => r matches OpenStep::Done(o) && o@ == fail(0, NFS4ERR_BADXDR),
                Some((otype, name, end)) => match path_of(*exports, fh) {
                    None => r matches OpenStep::Done(o) && o@ == fail(end - p, NFS4ERR_STALE),
                    Some(dir) => if otype == OPEN4_CREATE && read_only(*exports, fh) {
                        r matches OpenStep::Done(o) && o@ == fail(end - p, NFS4ERR_ROFS)
                    } else {
                        r matches OpenStep::Open { file, root, create, advance }
                            && file@ == (if name.len() == 0 { dir } else { crate::paths::join(dir, name) })
                            && root@ == root_or(*exports, fh, dir) && create == (otype == OPEN4_CREATE)
                            && advance == end - p
                    },
                },
            },
        },
{
    let fh = match current_fh {
        None => return OpenStep::Done(failed(0, NFS4ERR_NOFILEHANDLE)),
        Some(fh) => fh,
    };
    let (otype, name, end) = match parse_open(request, p) {
        None => return OpenStep::Done(failed(0, NFS4ERR_BADXDR)),
        Some(v) => v,
    };
    let c = end - p;
    let dir = match exports.resolve_fh(fh.as_slice()) {
        None => return OpenStep::Done(failed(c, NFS4ERR_STALE)),
        Some(d) => d,
    };
    let create = otype == OPEN4_CREATE;
    if create && exports.is_read_only(fh.as_slice()) {
        return OpenStep::Done(failed(c, NFS4ERR_ROFS));
    }
    let file = if name.len() == 0 { crate::exports::clone_bytes(&dir) } else { crate::paths::join_path(dir.as_slice(), name.as_slice()) };
    let root = match exports.get_fh_export_root(fh.as_slice()) {
        Some(r) => r,
        None => dir,
    };
    OpenStep::Open { file, root, create, advance: c }
}

/// OPEN, second half: `created` is false when creating the file failed;
/// `exists` whether the file exists afterwards. The opened file gets a
/// handle (under `root`) that becomes current and a stateid.
pub fn finish_open(
    state: &mut Nfs4Server,
    exports: &mut ExportsManager,
    file: &[u8],
    root: &[u8],
    created: bool,
    exists: bool,
    advance: usize,
    salt: u32,
) -> (r: OpOutcome)
    requires
        old(exports).wf(),
        created && exists && crate::exports::index_by_path(old(exports).handle_list(), file@) is None
            ==> old(exports).fh_counter < u64::MAX,
        created && exists ==> old(state).open_counter < u64::MAX,
    ensures
        final(exports).wf(),
        final(exports).exports == old(exports).exports,
        final(exports).fh_hmac_key == old(exports).fh_hmac_key,
        final(exports).config == old(exports).config,
        final(state).clients == old(state).clients,
        final(state).owners == old(state).owners,
        final(state).sessions == old(state).sessions,
        final(state).locks == old(state).locks,
        final(state).writeverf == old(state).writeverf,
        final(state).client_counter == old(state).client_counter,
        final(state).lock_counter == old(state).lock_counter,
        !created ==> r@ == fail(advance as int, NFS4ERR_IO) && *final(exports) == *old(exports) && *final(state) == *old(state),
        created && !exists ==> r@ == fail(advance as int, NFS4ERR_NOENT) && *final(exports) == *old(exports) && *final(state) == *old(state),
        created && exists ==> {
            &&& r@ == ok(open_reply(old(state).open_counter), advance as int, Some(handle_for_path(*old(exports), file@, salt)), None)
            &&& final(exports).handle_list() == handles_after_path(*old(exports), file@, root@)
            &&& final(exports).fh_counter == counter_after_path(*old(exports), file@)
            &&& final(state).open_counter == old(state).open_counter + 1
            &&& final(state).open_list() == opens_put(old(state).open_list(), OpenView { stateid: old(state).open_counter, path: file@ })
        },
{
    if !created {
        return failed(advance, NFS4ERR_IO);
    }
    if !exists {
        return failed(advance, NFS4ERR_NOENT);
    }
    let fh = exports.get_or_create_fh(file, root, salt);
    let id = state.register_open(file);
    let mut result = crate::nfs4_state::make_stateid(id);
    put_u32(&mut result, 0);
    put_u64(&mut result, 0);
    put_u64(&mut result, 0);
    put_u32(&mut result, 0);
    put_u32(&mut result, 0);
    put_u32(&mut result, 0);
    assert(result@ =~= open_reply(id));
    succeeded(result, advance, Some(fh), None)
}

/// Whether bit `bit` (0..64) is set in the two-word bitmap.
pub open spec fn attr_bit(bm0: u32, bm1: u32, bit: nat) -> bool {
    if bit < 32 { has_bit(bm0, bit as u32) } else { has_bit(bm1, (bit - 32) as u32) }
}

/// Compares the attribute values of VERIFY or NVERIFY, from bit `bit` on at
/// offset `off`, with the file's: `Ok(false)` at the first that differs,
/// `Err(())` when the values run short or an attribute other than type,
/// change, size, time_metadata or time_modify is asked for.
pub open spec fn compare_from(meta: Option<FileMeta>, bm0: u32, bm1: u32, d: Seq<u8>, bit: nat, off: int) -> Result<bool, ()>
    decreases 64 - bit,
{
    if bit >= 64 {
        Ok(true)
    } else if !attr_bit(bm0, bm1, bit) {
        compare_from(meta, bm0, bm1, d, bit + 1, off)
    } else if bit == 4 || bit == 3 {
        if off + 8 > d.len() {
            Err(())
        } else if be64(d, off) != (if bit == 4 { size_of_meta(meta) } else { change_of(meta) }) {
            Ok(false)
        } else {
            compare_from(meta, bm0, bm1, d, bit + 1, off + 8)
        }
    } else if bit == 53 || bit == 52 {
        let t = if bit == 53 { mtime_of(meta) } else { ctime_of(meta) };
        if off + 12 > d.len() {
            Err(())
        } else if be64(d, off) != t.0 || be32(d, off + 8) != t.1 {
            Ok(false)
        } else {
            compare_from(meta, bm0, bm1, d, bit + 1, off + 12)
        }
    } else if bit == 1 {
        if off + 4 > d.len() {
            Err(())
        } else if be32(d, off) != ftype_of(meta, NF4REG) {
            Ok(false)
        } else {
            compare_from(meta, bm0, bm1, d, bit + 1, off + 4)
        }
    } else {
        Err(())
    }
}

/// Computes [`attr_bit`].
fn attr_bit_set(bm0: u32, bm1: u32, bit: u32) -> (r: bool)
    requires
        bit < 64,
    ensures
        r == attr_bit(bm0, bm1, bit as nat),
{
    if bit < 32 { bm0 & (1u32 << bit) != 0 } else { bm1 & (1u32 << (bit - 32)) != 0 }
}

/// Compares the VERIFY / NVERIFY attribute values with the file's metadata.
pub fn compare_attr_vals(meta: &Option<FileMeta>, bm0: u32, bm1: u32, d: &[u8]) -> (r: Result<bool, ()>)
    ensures
        r == compare_from(*meta, bm0, bm1, d@, 0, 0),
{
    let mut bit: u32 = 0;
    let mut off: usize = 0;
    let l = d.len();
    while bit < 64
        invariant
            bit <= 64,
            off <= l,
            l == d@.len(),
            compare_from(*meta, bm0, bm1, d@, 0, 0) == compare_from(*meta, bm0, bm1, d@, bit as nat, off as int),
        decreases 64 - bit,
    {
        if attr_bit_set(bm0, bm1, bit) {
            if bit == 4 || bit == 3 {
                if l - off < 8 {
                    return Err(());
                }
                let want = if bit == 4 {
                    match meta { Some(m) => m.len, None => 0 }
                } else {
                    match meta {
                        Some(m) => match m.modified {
                            Some(t) => (t.0 as u128 * 1_000_000_000u128 + t.1 as u128) as u64,
                            None => 0,
                        },
                        None => 0,
                    }
                };
                if get_u64(d, off) != want {
                    return Ok(false);
                }
                off = off + 8;
            } else if bit == 53 || bit == 52 {
                let t: (u64, u32) = match meta {
                    Some(m) => {
                        let x = if bit == 53 { m.modified } else { m.created };
                        match x { Some(v) => v, None => (0, 0) }
                    }
                    None => (0, 0),
                };
                if l - off < 12 {
                    return Err(());
                }
                if get_u64(d, off) != t.0 || get_u32(d, off + 8) != t.1 {
                    return Ok(false);
                }
                off = off + 12;
            } else if bit == 1 {
                if l - off < 4 {
                    return Err(());
                }
                let want = match meta {
                    Some(m) => if m.is_dir { NF4DIR } else { NF4REG },
                    None => NF4REG,
                };
                if get_u32(d, off) != want {
                    return Ok(false);
                }
                off = off + 4;
            } else {
                return Err(());
            }
        }
        bit = bit + 1;
    }
    Ok(true)
}

/// VERIFY's and NVERIFY's arguments at `p`: the first two bitmap words,
/// the attribute values and the offset past them.
pub open spec fn verify_args(s: Seq<u8>, p: int) -> Option<(u32, u32, Seq<u8>, int)> {
    if p + 4 > s.len() {
        None
    } else {
        let n = be32(s, p);
        let a = clamp(p + 4 + 4 * n);
        if !crate::xdr::opaque_fits(s, a) {
            None
        } else {
            Some((if n > 0 { be32(s, p + 4) } else { 0 }, if n > 1 { be32(s, p + 8) } else { 0 },
                crate::xdr::opaque_data(s, a), clamp(crate::xdr::opaque_end(s, a))))
        }
    }
}

/// What VERIFY and NVERIFY need: the file's metadata.
pub struct VerifyQuery {
    pub path: Vec<u8>,
    pub bm0: u32,
    pub bm1: u32,
    pub data: Vec<u8>,
    pub advance: usize,
}

/// VERIFY / NVERIFY, first half.
pub fn plan_verify(exports: &ExportsManager, request: &[u8], p: usize, current_fh: &Option<Vec<u8>>) -> (r: Result<VerifyQuery, OpOutcome>)
    ensures
        match opt_view(*current_fh) {
            None => r matches Err(o) && o@ == fail(0, NFS4ERR_NOFILEHANDLE),
            Some(fh) => match verify_args(request@, p as int) {
                None => r matches Err(o) && o@ == fail(0, NFS4ERR_BADXDR),
                Some((bm0, bm1, data, end)) => match path_of(*exports, fh) {
                    None => r matches Err(o) && o@ == fail(end - p, NFS4ERR_STALE),
                    Some(path) => r matches Ok(q) && q.path@ == path && q.bm0 == bm0 && q.bm1 == bm1
                        && q.data@ == data && q.advance == end - p,
                },
            },
        },
{
    let fh = match current_fh {
        None => return Err(failed(0, NFS4ERR_NOFILEHANDLE)),
        Some(fh) => fh,
    };
    if p > request.len() || request.len() - p < 4 {
        return Err(failed(0, NFS4ERR_BADXDR));
    }
    let n = get_u32(request, p);
    let a = add_clamped(p + 4, 4 * (n as u64));
    let (data, end) = match crate::xdr::read_opaque(request, a) {
        None => return Err(failed(0, NFS4ERR_BADXDR)),
        Some(v) => v,
    };
    let bm0 = if n > 0 { get_u32(request, p + 4) } else { 0 };
    let bm1 = if n > 1 { get_u32(request, p + 8) } else { 0 };
    match exports.resolve_fh(fh.as_slice()) {
        None => Err(failed(end - p, NFS4ERR_STALE)),
        Some(path) => Ok(VerifyQuery { path, bm0, bm1, data, advance: end - p }),
    }
}

/// The VERIFY / NVERIFY outcome for a comparison.
pub open spec fn verify_outcome(opcode: u32, cmpr: Result<bool, ()>, adv: int) -> Outcome {
    match cmpr {
        Err(_) => fail(adv, NFS4ERR_ATTRNOTSUPP),
        Ok(same) => if opcode == OP_NVERIFY {
            if same { fail(adv, NFS4ERR_SAME) } else { ok(Seq::empty(), adv, None, None) }
        } else {
            if same { ok(Seq::empty(), adv, None, None) } else { fail(adv, NFS4ERR_NOT_SAME) }
        },
    }
}

/// VERIFY and NVERIFY are each other's negation: on the same file and the
/// same attribute values, exactly one of them succeeds, unless the values
/// cannot be compared, when both answer ATTRNOTSUPP.
pub proof fn lemma_verify_nverify_opposite(meta: Option<FileMeta>, bm0: u32, bm1: u32, d: Seq<u8>, adv: int)
    ensures
        compare_from(meta, bm0, bm1, d, 0, 0) is Ok ==> (verify_outcome(OP_VERIFY, compare_from(meta, bm0, bm1, d, 0, 0), adv).status
            == NFS4_OK <==> verify_outcome(OP_NVERIFY, compare_from(meta, bm0, bm1, d, 0, 0), adv).status != NFS4_OK),
        compare_from(meta, bm0, bm1, d, 0, 0) is Err ==> verify_outcome(OP_VERIFY, compare_from(meta, bm0, bm1, d, 0, 0), adv)
            == fail(adv, NFS4ERR_ATTRNOTSUPP) && verify_outcome(OP_NVERIFY, compare_from(meta, bm0, bm1, d, 0, 0), adv)
            == fail(adv, NFS4ERR_ATTRNOTSUPP),
{
}

/// VERIFY / NVERIFY, second half, from the file's metadata.
pub fn finish_verify(opcode: u32, q: &VerifyQuery, meta: &Option<FileMeta>) -> (r: OpOutcome)
    ensures
        r@ == verify_outcome(opcode, compare_from(*meta, q.bm0, q.bm1, q.data@, 0, 0), q.advance as int),
{
    match compare_attr_vals(meta, q.bm0, q.bm1, q.data.as_slice()) {
        Err(_) => failed(q.advance, NFS4ERR_ATTRNOTSUPP),
        Ok(same) => if opcode == OP_NVERIFY {
            if same { failed(q.advance, NFS4ERR_SAME) } else { succeeded(Vec::new(), q.advance, None, None) }
        } else {
            if same { succeeded(Vec::new(), q.advance, None, None) } else { failed(q.advance, NFS4ERR_NOT_SAME) }
        },
    }
}

/// A `change_info4` with the given atomic flag and before/after values.
pub open spec fn change_info(atomic: u32, before: u64, after: u64) -> Seq<u8> {
    u32_bytes(atomic) + u64_bytes(before) + u64_bytes(after)
}

/// Appends a `change_info4`.
fn put_change_info(out: &mut Vec<u8>, atomic: u32, before: u64, after: u64)
    ensures
        final(out)@ == old(out)@ + change_info(atomic, before, after),
{
    put_u32(out, atomic);
    put_u64(out, before);
    put_u64(out, after);
    assert(final(out)@ =~= old(out)@ + change_info(atomic, before, after));
}


/// CREATE's arguments at `p`: the object type, the name and the offset
/// past the arguments (link data and attributes skipped).
pub open spec fn create_args(s: Seq<u8>, p: int) -> Option<(u32, Seq<u8>, int)> {
    if p + 4 > s.len() {
        None
    } else {
        let t = be32(s, p);
        let a_opt: Option<int> = if t == crate::nfs4_consts::NF4LNK {
            if p + 8 > s.len() { None } else { Some(clamp(p + 8 + pad4(be32(s, p + 4) as int))) }
        } else {
            Some(p + 4)
        };
        match a_opt {
            None => None,
            Some(a) => if a + 4 > s.len() || a + 4 + be32(s, a) > s.len() {
                None
            } else {
                let b = clamp(a + 4 + pad4(be32(s, a) as int));
                if b + 4 > s.len() {
                    None
                } else {
                    let c = clamp(b + 4 + 4 * be32(s, b));
                    if c + 4 > s.len() {
                        None
                    } else {
                        Some((t, s.subrange(a + 4, a + 4 + be32(s, a)), clamp(c + 4 + pad4(be32(s, c) as int))))
                    }
                }
            },
        }
    }
}

/// Parses CREATE's arguments.
pub fn parse_create(buf: &[u8], p: usize) -> (r: Option<(u32, Vec<u8>, usize)>)
    ensures
        r matches Some((t, n, e)) ==> create_args(buf@, p as int) == Some((t, n@, e as int)) && e >= p,
        r is None <==> create_args(buf@, p as int) is None,
{
    if p > buf.len() || buf.len() - p < 4 {
        return None;
    }
    let t = get_u32(buf, p);
    let a: usize = if t == crate::nfs4_consts::NF4LNK {
        if buf.len() - p < 8 {
            return None;
        }
        add_clamped(p + 8, (get_u32(buf, p + 4) as u64 + 3) / 4 * 4)
    } else {
        p + 4
    };
    if a > buf.len() || buf.len() - a < 4 {
        return None;
    }
    let n = get_u32(buf, a) as usize;
    if buf.len() - a - 4 < n {
        return None;
    }
    let name = copy_range(buf, a + 4, n);
    let b = add_clamped(a + 4, (n as u64 + 3) / 4 * 4);
    if b > buf.len() || buf.len() - b < 4 {
        return None;
    }
    let c = add_clamped(b + 4, 4 * (get_u32(buf, b) as u64));
    if c > buf.len() || buf.len() - c < 4 {
        return None;
    }
    Some((t, name, add_clamped(c + 4, (get_u32(buf, c) as u64 + 3) / 4 * 4)))
}

/// What CREATE does next.
pub enum CreateStep {
    /// Answered.
    Done(OpOutcome),
    /// Create an object of type `objtype` at `path` (see [`create_kind`]).
    Create { path: Vec<u8>, root: Vec<u8>, objtype: u32, advance: usize },
}

/// CREATE, first half.
pub fn plan_create(exports: &ExportsManager, request: &[u8], p: usize, current_fh: &Option<Vec<u8>>) -> (r: CreateStep)
    ensures
        match opt_view(*current_fh) {
            None => r matches CreateStep::Done(o) && o@ == fail(0, NFS4ERR_NOFILEHANDLE),
            Some(fh) => if read_only(*exports, fh) {
                r matches CreateStep::Done(o) && o@ == fail(0, NFS4ERR_ROFS)
            } else {
                match create_args(request@, p as int) {
                    None => r matches CreateStep::Done(o) && o@ == fail(0, NFS4ERR_BADXDR),
                    Some((t, name, end)) => match path_of(*exports, fh) {
                        None => r matches CreateStep::Done(o) && o@ == fail(end - p, NFS4ERR_STALE),
                        Some(dir) => r matches CreateStep::Create { path, root, objtype, advance }
                            && path@ == crate::paths::join(dir, name) && root@ == root_or(*exports, fh, dir)
                            && objtype == t && advance == end - p,
                    },
                }
            },
        },
{
    let fh = match current_fh {
        None => return CreateStep::Done(failed(0, NFS4ERR_NOFILEHANDLE)),
        Some(fh) => fh,
    };
    if exports.is_read_only(fh.as_slice()) {
        return CreateStep::Done(failed(0, NFS4ERR_ROFS));
    }
    let (t, name, end) = match parse_create(request, p) {
        None => return CreateStep::Done(failed(0, NFS4ERR_BADXDR)),
        Some(v) => v,
    };
    let dir = match exports.resolve_fh(fh.as_slice()) {
        None => return CreateStep::Done(failed(end - p, NFS4ERR_STALE)),
        Some(d) => d,
    };
    let path = crate::paths::join_path(dir.as_slice(), name.as_slice());
    let root = match exports.get_fh_export_root(fh.as_slice()) {
        Some(r) => r,
        None => dir,
    };
    CreateStep::Create { path, root, objtype: t, advance: end - p }
}

/// What CREATE makes of an object type: a directory (`Some(true)`), a
/// regular file (`Some(false)`), or nothing (`None`: BADTYPE).
pub fn create_kind(objtype: u32) -> (r: Option<bool>)
    ensures
        r == (if objtype == NF4DIR { Some(true) } else if objtype == NF4REG { Some(false) } else { None::<bool> }),
{
    if objtype == NF4DIR { Some(true) } else if objtype == NF4REG { Some(false) } else { None }
}

/// CREATE, second half: EXIST when the path already exists, BADTYPE for
/// a type it cannot make, IO when making it failed; otherwise the new
/// object's handle becomes current.
pub fn finish_create(
    exports: &mut ExportsManager,
    path: &[u8],
    root: &[u8],
    objtype: u32,
    existed: bool,
    created: bool,
    advance: usize,
    salt: u32,
) -> (r: OpOutcome)
    requires
        old(exports).wf(),
        !existed && (objtype == NF4DIR || objtype == NF4REG) && created
            && crate::exports::index_by_path(old(exports).handle_list(), path@) is None
            ==> old(exports).fh_counter < u64::MAX,
    ensures
        final(exports).wf(),
        final(exports).exports == old(exports).exports,
        final(exports).fh_hmac_key == old(exports).fh_hmac_key,
        final(exports).config == old(exports).config,
        existed ==> r@ == fail(advance as int, NFS4ERR_EXIST) && *final(exports) == *old(exports),
        !existed && objtype != NF4DIR && objtype != NF4REG ==> r@ == fail(advance as int, NFS4ERR_BADTYPE) && *final(exports) == *old(exports),
        !existed && (objtype == NF4DIR || objtype == NF4REG) && !created ==> r@ == fail(advance as int, NFS4ERR_IO) && *final(exports) == *old(exports),
        !existed && (objtype == NF4DIR || objtype == NF4REG) && created ==> {
            &&& r@ == ok(change_info(1, 0, 1) + u32_bytes(0), advance as int, Some(handle_for_path(*old(exports), path@, salt)), None)
            &&& final(exports).handle_list() == handles_after_path(*old(exports), path@, root@)
            &&& final(exports).fh_counter == counter_after_path(*old(exports), path@)
        },
{
    if existed {
        return failed(advance, NFS4ERR_EXIST);
    }
    if objtype != NF4DIR && objtype != NF4REG {
        return failed(advance, NFS4ERR_BADTYPE);
    }
    if !created {
        return failed(advance, NFS4ERR_IO);
    }
    let fh = exports.get_or_create_fh(path, root, salt);
    let mut r: Vec<u8> = Vec::new();
    put_change_info(&mut r, 1, 0, 1);
    put_u32(&mut r, 0);
    succeeded(r, advance, Some(fh), None)
}

/// What REMOVE does next.
pub enum RemoveStep {
    /// Answered.
    Done(OpOutcome),
    /// Remove `target` (inside the directory) if it can be.
    Remove { target: Vec<u8>, advance: usize },
}

/// REMOVE, first half.
pub fn plan_remove(exports: &ExportsManager, request: &[u8], p: usize, current_fh: &Option<Vec<u8>>) -> (r: RemoveStep)
    ensures
        match opt_view(*current_fh) {
            None => r matches RemoveStep::Done(o) && o@ == fail(0, NFS4ERR_NOFILEHANDLE),
            Some(fh) => if read_only(*exports, fh) {
                r matches RemoveStep::Done(o) && o@ == fail(0, NFS4ERR_ROFS)
            } else if p + 4 > request@.len() {
                r matches RemoveStep::Done(o) && o@ == fail(0, NFS4ERR_BADXDR)
            } else {
                match name_arg(request@, p as int) {
                    None => r matches RemoveStep::Done(o) && o@ == fail(clamp(4 + pad4(be32(request@, p as int) as int)), NFS4ERR_BADXDR),
                    Some((name, c)) => match path_of(*exports, fh) {
                        None => r matches RemoveStep::Done(o) && o@ == fail(c, NFS4ERR_STALE),
                        Some(dir) => r matches RemoveStep::Remove { target, advance }
                            && target@ == crate::paths::join(dir, name) && advance == c,
                    },
                }
            },
        },
{
    let fh = match current_fh {
        None => return RemoveStep::Done(failed(0, NFS4ERR_NOFILEHANDLE)),
        Some(fh) => fh,
    };
    if exports.is_read_only(fh.as_slice()) {
        return RemoveStep::Done(failed(0, NFS4ERR_ROFS));
    }
    if p > request.len() || request.len() - p < 4 {
        return RemoveStep::Done(failed(0, NFS4ERR_BADXDR));
    }
    let n = get_u32(request, p) as usize;
    let c = clamp_len(4 + (n as u64 + 3) / 4 * 4);
    if request.len() - p - 4 < n {
        return RemoveStep::Done(failed(c, NFS4ERR_BADXDR));
    }
    let name = copy_range(request, p + 4, n);
    match exports.resolve_fh(fh.as_slice()) {
        None => RemoveStep::Done(failed(c, NFS4ERR_STALE)),
        Some(dir) => RemoveStep::Remove { target: crate::paths::join_path(dir.as_slice(), name.as_slice()), advance: c },
    }
}

/// REMOVE, the decision before removing: NOENT when the target does not
/// exist, NOTEMPTY for a directory that is not empty (or cannot be read);
/// otherwise whether to remove a directory (`true`) or a file.
pub fn remove_decision(exists: bool, is_dir: bool, dir_empty: bool, advance: usize) -> (r: Result<bool, OpOutcome>)
    ensures
        !exists ==> (r matches Err(o) && o@ == fail(advance as int, NFS4ERR_NOENT)),
        exists && is_dir && !dir_empty ==> (r matches Err(o) && o@ == fail(advance as int, NFS4ERR_NOTEMPTY)),
        exists && !(is_dir && !dir_empty) ==> (r matches Ok(d) && d == is_dir),
{
    if !exists {
        return Err(failed(advance, NFS4ERR_NOENT));
    }
    if is_dir && !dir_empty {
        return Err(failed(advance, NFS4ERR_NOTEMPTY));
    }
    Ok(is_dir)
}

/// REMOVE, second half: whether the removal went through.
pub fn finish_remove(removed: bool, advance: usize) -> (r: OpOutcome)
    ensures
        r@ == (if removed { ok(change_info(1, 0, 1), advance as int, None, None) } else { fail(advance as int, NFS4ERR_IO) }),
{
    if !removed {
        return failed(advance, NFS4ERR_IO);
    }
    let mut r: Vec<u8> = Vec::new();
    put_change_info(&mut r, 1, 0, 1);
    succeeded(r, advance, None, None)
}

/// Two names one after the other at `p` (RENAME): the old name, the new
/// name and the offset past them.
pub open spec fn two_names(s: Seq<u8>, p: int) -> Option<(Seq<u8>, Seq<u8>, int)> {
    if p + 4 > s.len() || p + 4 + be32(s, p) > s.len() {
        None
    } else {
        let a = clamp(p + 4 + pad4(be32(s, p) as int));
        if a + 4 > s.len() || a + 4 + be32(s, a) > s.len() {
            None
        } else {
            Some((s.subrange(p + 4, p + 4 + be32(s, p)), s.subrange(a + 4, a + 4 + be32(s, a)),
                clamp(a + 4 + pad4(be32(s, a) as int))))
        }
    }
}

/// What RENAME and LINK do next.
pub enum MoveStep {
    /// Answered.
    Done(OpOutcome),
    /// Move (RENAME) or link (LINK) `from` to `to`.
    Move { from: Vec<u8>, to: Vec<u8>, advance: usize },
}

/// RENAME, first half: the saved handle is the source directory, the
/// current one the target directory.
pub fn plan_rename(exports: &ExportsManager, request: &[u8], p: usize, current_fh: &Option<Vec<u8>>, saved_fh: &Option<Vec<u8>>) -> (r: MoveStep)
    ensures
        match (opt_view(*saved_fh), opt_view(*current_fh)) {
            (None, _) => r matches MoveStep::Done(o) && o@ == fail(0, NFS4ERR_RESTOREFH),
            (Some(_), None) => r matches MoveStep::Done(o) && o@ == fail(0, NFS4ERR_NOFILEHANDLE),
            (Some(sfh), Some(cfh)) => if read_only(*exports, cfh) {
                r matches MoveStep::Done(o) && o@ == fail(0, NFS4ERR_ROFS)
            } else {
                match two_names(request@, p as int) {
                    None => r matches MoveStep::Done(o) && o@ == fail(0, NFS4ERR_BADXDR),
                    Some((old_name, new_name, end)) => match (path_of(*exports, sfh), path_of(*exports, cfh)) {
                        (Some(src), Some(dst)) => r matches MoveStep::Move { from, to, advance }
                            && from@ == crate::paths::join(src, old_name) && to@ == crate::paths::join(dst, new_name)
                            && advance == end - p,
                        _ => r matches MoveStep::Done(o) && o@ == fail(end - p, NFS4ERR_STALE),
                    },
                }
            },
        },
{
    let sfh = match saved_fh {
        None => return MoveStep::Done(failed(0, NFS4ERR_RESTOREFH)),
        Some(f) => f,
    };
    let cfh = match current_fh {
        None => return MoveStep::Done(failed(0, NFS4ERR_NOFILEHANDLE)),
        Some(f) => f,
    };
    if exports.is_read_only(cfh.as_slice()) {
        return MoveStep::Done(failed(0, NFS4ERR_ROFS));
    }
    let (old_name, new_name, end) = match parse_two_names(request, p) {
        None => return MoveStep::Done(failed(0, NFS4ERR_BADXDR)),
        Some(v) => v,
    };
    let src = match exports.resolve_fh(sfh.as_slice()) {
        None => return MoveStep::Done(failed(end - p, NFS4ERR_STALE)),
        Some(d) => d,
    };
    let dst = match exports.resolve_fh(cfh.as_slice()) {
        None => return MoveStep::Done(failed(end - p, NFS4ERR_STALE)),
        Some(d) => d,
    };
    MoveStep::Move {
        from: crate::paths::join_path(src.as_slice(), old_name.as_slice()),
        to: crate::paths::join_path(dst.as_slice(), new_name.as_slice()),
        advance: end - p,
    }
}

/// Parses two names.
fn parse_two_names(buf: &[u8], p: usize) -> (r: Option<(Vec<u8>, Vec<u8>, usize)>)
    ensures
        r matches Some((a, b, e)) ==> two_names(buf@, p as int) == Some((a@, b@, e as int)) && e >= p,
        r is None <==> two_names(buf@, p as int) is None,
{
    if p > buf.len() || buf.len() - p < 4 {
        return None;
    }
    let n = get_u32(buf, p) as usize;
    if buf.len() - p - 4 < n {
        return None;
    }
    let first = copy_range(buf, p + 4, n);
    let a = add_clamped(p + 4, (n as u64 + 3) / 4 * 4);
    if a > buf.len() || buf.len() - a < 4 {
        return None;
    }
    let m = get_u32(buf, a) as usize;
    if buf.len() - a - 4 < m {
        return None;
    }
    let second = copy_range(buf, a + 4, m);
    Some((first, second, add_clamped(a + 4, (m as u64 + 3) / 4 * 4)))
}

/// RENAME, second half: NOENT when the source does not exist, IO when the
/// rename failed; otherwise the source and target change infos.
pub fn finish_rename(source_exists: bool, renamed: bool, advance: usize) -> (r: OpOutcome)
    ensures
        r@ == (if !source_exists {
            fail(advance as int, NFS4ERR_NOENT)
        } else if !renamed {
            fail(advance as int, NFS4ERR_IO)
        } else {
            ok(change_info(1, 0, 1) + change_info(1, 0, 1), advance as int, None, None)
        }),
{
    if !source_exists {
        return failed(advance, NFS4ERR_NOENT);
    }
    if !renamed {
        return failed(advance, NFS4ERR_IO);
    }
    let mut r: Vec<u8> = Vec::new();
    put_change_info(&mut r, 1, 0, 1);
    put_change_info(&mut r, 1, 0, 1);
    succeeded(r, advance, None, None)
}

/// LINK, first half: the current handle is the file, the saved one the
/// directory to link it into.
pub fn plan_link(exports: &ExportsManager, request: &[u8], p: usize, current_fh: &Option<Vec<u8>>, saved_fh: &Option<Vec<u8>>) -> (r: MoveStep)
    ensures
        match (opt_view(*current_fh), opt_view(*saved_fh)) {
            (None, _) => r matches MoveStep::Done(o) && o@ == fail(0, NFS4ERR_NOFILEHANDLE),
            (Some(_), None) => r matches MoveStep::Done(o) && o@ == fail(0, NFS4ERR_NOFILEHANDLE),
            (Some(cfh), Some(sfh)) => if read_only(*exports, sfh) {
                r matches MoveStep::Done(o) && o@ == fail(0, NFS4ERR_ROFS)
            } else if p + 4 > request@.len() {
                r matches MoveStep::Done(o) && o@ == fail(0, NFS4ERR_BADXDR)
            } else {
                match name_arg(request@, p as int) {
                    None => r matches MoveStep::Done(o) && o@ == fail(4, NFS4ERR_BADXDR),
                    Some((name, c)) => match (path_of(*exports, cfh), path_of(*exports, sfh)) {
                        (Some(src), Some(dir)) => r matches MoveStep::Move { from, to, advance }
                            && from@ == src && to@ == crate::paths::join(dir, name) && advance == c,
                        _ => r matches MoveStep::Done(o) && o@ == fail(c, NFS4ERR_STALE),
                    },
                }
            },
        },
{
    let cfh = match current_fh {
        None => return MoveStep::Done(failed(0, NFS4ERR_NOFILEHANDLE)),
        Some(f) => f,
    };
    let sfh = match saved_fh {
        None => return MoveStep::Done(failed(0, NFS4ERR_NOFILEHANDLE)),
        Some(f) => f,
    };
    if exports.is_read_only(sfh.as_slice()) {
        return MoveStep::Done(failed(0, NFS4ERR_ROFS));
    }
    if p > request.len() || request.len() - p < 4 {
        return MoveStep::Done(failed(0, NFS4ERR_BADXDR));
    }
    let n = get_u32(request, p) as usize;
    if request.len() - p - 4 < n {
        return MoveStep::Done(failed(4, NFS4ERR_BADXDR));
    }
    let name = copy_range(request, p + 4, n);
    let c = clamp_len(4 + (n as u64 + 3) / 4 * 4);
    let src = match exports.resolve_fh(cfh.as_slice()) {
        None => return MoveStep::Done(failed(c, NFS4ERR_STALE)),
        Some(d) => d,
    };
    let dir = match exports.resolve_fh(sfh.as_slice()) {
        None => return MoveStep::Done(failed(c, NFS4ERR_STALE)),
        Some(d) => d,
    };
    MoveStep::Move { from: src, to: crate::paths::join_path(dir.as_slice(), name.as_slice()), advance: c }
}

/// How making a hard link turned out.
#[derive(Clone, Copy, Debug, PartialEq, Eq)]
pub enum LinkResult {
    /// Made, at this time (nanoseconds since the epoch).
    Made(u64),
    AlreadyExists,
    NotFound,
    Failed,
}

/// LINK, second half: the change info (not atomic, from 0 to the time the
/// link was made), or EXIST, STALE or IO.
pub fn finish_link(res: LinkResult, advance: usize) -> (r: OpOutcome)
    ensures
        r@ == (match res {
            LinkResult::Made(t) => ok(change_info(0, 0, t), advance as int, None, None),
            LinkResult::AlreadyExists => fail(advance as int, NFS4ERR_EXIST),
            LinkResult::NotFound => fail(advance as int, NFS4ERR_STALE),
            LinkResult::Failed => fail(advance as int, NFS4ERR_IO),
        }),
{
    match res {
        LinkResult::Made(t) => {
            let mut r: Vec<u8> = Vec::new();
            put_change_info(&mut r, 0, 0, t);
            succeeded(r, advance, None, None)
        }
        LinkResult::AlreadyExists => failed(advance, crate::nfs4_consts::NFS4ERR_EXIST),
        LinkResult::NotFound => failed(advance, NFS4ERR_STALE),
        LinkResult::Failed => failed(advance, NFS4ERR_IO),
    }
}


/// A change SETATTR asks of the file system.
#[derive(Clone, Copy, Debug, PartialEq, Eq)]
pub enum SetAction {
    /// Truncate or extend the file to this size.
    Size(u64),
    /// Set the modification time (seconds, nanoseconds since the epoch).
    Mtime(u64, u32),
    /// Set the modification time to now.
    MtimeNow,
}

/// The changes SETATTR's attribute values ask for, from bit `bit` on at
/// offset `off`, and whether the values ran short (BADXDR). Type (bit 1)
/// and mode (bit 33) are skipped, owner and group (36, 37) skipped over,
/// time_access_set (53) skipped over; size (4) and time_modify_set (54) give
/// changes; any other bit skips four bytes.
pub open spec fn setattr_scan(bm0: u32, bm1: u32, d: Seq<u8>, bit: nat, off: int) -> (Seq<SetAction>, bool)
    decreases 64 - bit,
{
    if bit >= 64 {
        (Seq::empty(), false)
    } else if !attr_bit(bm0, bm1, bit) {
        setattr_scan(bm0, bm1, d, bit + 1, off)
    } else if bit == 1 {
        setattr_scan(bm0, bm1, d, bit + 1, clamp(off + 4))
    } else if bit == 33 {
        setattr_scan(bm0, bm1, d, bit + 1, clamp(off + 8))
    } else if bit == 4 {
        if off + 8 > d.len() {
            (Seq::empty(), true)
        } else {
            let r = setattr_scan(bm0, bm1, d, bit + 1, off + 8);
            (seq![SetAction::Size(be64(d, off))] + r.0, r.1)
        }
    } else if bit == 36 || bit == 37 {
        if off + 4 > d.len() {
            (Seq::empty(), true)
        } else {
            setattr_scan(bm0, bm1, d, bit + 1, clamp(off + 4 + pad4(be32(d, off) as int)))
        }
    } else if bit == 53 {
        if off + 4 > d.len() {
            (Seq::empty(), true)
        } else {
            setattr_scan(bm0, bm1, d, bit + 1, clamp(off + 4 + (if be32(d, off) == 0 { 12int } else { 0int })))
        }
    } else if bit == 54 {
        if off + 4 > d.len() {
            (Seq::empty(), true)
        } else if be32(d, off) == 0 {
            if off + 16 > d.len() {
                (Seq::empty(), true)
            } else {
                let r = setattr_scan(bm0, bm1, d, bit + 1, off + 16);
                (seq![SetAction::Mtime(be64(d, off + 4), be32(d, off + 8 + 4))] + r.0, r.1)
            }
        } else {
            let r = setattr_scan(bm0, bm1, d, bit + 1, off + 4);
            (seq![SetAction::MtimeNow] + r.0, r.1)
        }
    } else {
        if off + 4 > d.len() {
            (Seq::empty(), true)
        } else {
            setattr_scan(bm0, bm1, d, bit + 1, off + 4)
        }
    }
}

/// Walks SETATTR's attribute values.
pub fn scan_setattr(bm0: u32, bm1: u32, d: &[u8]) -> (r: (Vec<SetAction>, bool))
    ensures
        (r.0@, r.1) == setattr_scan(bm0, bm1, d@, 0, 0),
{
    let mut actions: Vec<SetAction> = Vec::new();
    let mut bit: u32 = 0;
    let mut off: usize = 0;
    let l = d.len();
    while bit < 64
        invariant
            bit <= 64,
            l == d@.len(),
            ({
                let rest = setattr_scan(bm0, bm1, d@, bit as nat, off as int);
                setattr_scan(bm0, bm1, d@, 0, 0) == (actions@ + rest.0, rest.1)
            }),
        decreases 64 - bit,
    {
        let ghost before = actions@;
        proof {
            let rest1 = setattr_scan(bm0, bm1, d@, (bit + 1) as nat, off as int);
            assert(setattr_scan(bm0, bm1, d@, 64, off as int) == (Seq::<SetAction>::empty(), false));
        }
        if attr_bit_set(bm0, bm1, bit) {
            if bit == 1 {
                off = add_clamped(off, 4);
            } else if bit == 33 {
                off = add_clamped(off, 8);
            } else if bit == 4 {
                if off > l || l - off < 8 {
                    assert(actions@ =~= actions@ + Seq::<SetAction>::empty());
                    return (actions, true);
                }
                actions.push(SetAction::Size(get_u64(d, off)));
                proof {
                    let r = setattr_scan(bm0, bm1, d@, (bit + 1) as nat, off + 8);
                    assert(before + (seq![SetAction::Size(be64(d@, off as int))] + r.0) =~= actions@ + r.0);
                }
                off = off + 8;
            } else if bit == 36 || bit == 37 {
                if off > l || l - off < 4 {
                    assert(actions@ =~= actions@ + Seq::<SetAction>::empty());
                    return (actions, true);
                }
                off = add_clamped(off + 4, (get_u32(d, off) as u64 + 3) / 4 * 4);
            } else if bit == 53 {
                if off > l || l - off < 4 {
                    assert(actions@ =~= actions@ + Seq::<SetAction>::empty());
                    return (actions, true);
                }
                let how = get_u32(d, off);
                off = off + 4;
                if how == 0 {
                    off = add_clamped(off, 12);
                }
            } else if bit == 54 {
                if off > l || l - off < 4 {
                    assert(actions@ =~= actions@ + Seq::<SetAction>::empty());
                    return (actions, true);
                }
                let how = get_u32(d, off);
                if how == 0 {
                    if l - off < 16 {
                        assert(actions@ =~= actions@ + Seq::<SetAction>::empty());
                        return (actions, true);
                    }
                    actions.push(SetAction::Mtime(get_u64(d, off + 4), get_u32(d, off + 12)));
                    proof {
                        let r = setattr_scan(bm0, bm1, d@, (bit + 1) as nat, off + 16);
                        assert(before + (seq![SetAction::Mtime(be64(d@, off + 4), be32(d@, off + 8 + 4))] + r.0) =~= actions@ + r.0);
                    }
                    off = off + 16;
                } else {
                    actions.push(SetAction::MtimeNow);
                    proof {
                        let r = setattr_scan(bm0, bm1, d@, (bit + 1) as nat, off + 4);
                        assert(before + (seq![SetAction::MtimeNow] + r.0) =~= actions@ + r.0);
                    }
                    off = off + 4;
                }
            } else {
                if off > l || l - off < 4 {
                    assert(actions@ =~= actions@ + Seq::<SetAction>::empty());
                    return (actions, true);
                }
                off = off + 4;
            }
        }
        bit = bit + 1;
    }
    assert(actions@ =~= actions@ + Seq::<SetAction>::empty());
    (actions, false)
}

/// SETATTR's arguments at `p`: the first two bitmap words, the attribute
/// values and the offset past them. The bitmap is always taken to span at
/// least two words.
pub open spec fn setattr_args(s: Seq<u8>, p: int) -> Option<(u32, u32, Seq<u8>, int)> {
    if p + 20 > s.len() {
        None
    } else {
        let n = be32(s, p + 16);
        if p + 20 + 4 * n > s.len() {
            None
        } else {
            let a = p + 20 + 4 * (if n < 2 { 2 } else { n as int });
            if !crate::xdr::opaque_fits(s, a) {
                None
            } else {
                Some((if n > 0 { be32(s, p + 20) } else { 0 }, if n > 1 { be32(s, p + 24) } else { 0 },
                    crate::xdr::opaque_data(s, a), clamp(crate::xdr::opaque_end(s, a))))
            }
        }
    }
}

/// What SETATTR asks of the file system.
pub struct SetattrPlan {
    pub path: Vec<u8>,
    pub actions: Vec<SetAction>,
    /// The values ran short: after the actions, the answer is BADXDR.
    pub short: bool,
    pub advance: usize,
}

/// SETATTR, first half: the changes to make to the file, in bitmap order.
pub fn plan_setattr(exports: &ExportsManager, request: &[u8], p: usize, current_fh: &Option<Vec<u8>>) -> (r: Result<SetattrPlan, OpOutcome>)
    ensures
        match opt_view(*current_fh) {
            None => r matches Err(o) && o@ == fail(0, NFS4ERR_NOFILEHANDLE),
            Some(fh) => if read_only(*exports, fh) {
                r matches Err(o) && o@ == fail(0, NFS4ERR_ROFS)
            } else {
                match setattr_args(request@, p as int) {
                    None => r matches Err(o) && o@ == fail(0, NFS4ERR_BADXDR),
                    Some((bm0, bm1, data, end)) => match path_of(*exports, fh) {
                        None => r matches Err(o) && o@ == fail(end - p, NFS4ERR_STALE),
                        Some(path) => r matches Ok(q) && q.path@ == path && q.advance == end - p
                            && (q.actions@, q.short) == setattr_scan(bm0, bm1, data, 0, 0),
                    },
                }
            },
        },
{
    let fh = match current_fh {
        None => return Err(failed(0, NFS4ERR_NOFILEHANDLE)),
        Some(fh) => fh,
    };
    if exports.is_read_only(fh.as_slice()) {
        return Err(failed(0, NFS4ERR_ROFS));
    }
    if p > request.len() || request.len() - p < 20 {
        return Err(failed(0, NFS4ERR_BADXDR));
    }
    let n = get_u32(request, p + 16);
    if ((request.len() - p - 20) as u64) < 4 * (n as u64) {
        return Err(failed(0, NFS4ERR_BADXDR));
    }
    let words: usize = if n < 2 { 2 } else { n as usize };
    if request.len() - p - 20 < 4 * words {
        return Err(failed(0, NFS4ERR_BADXDR));
    }
    let a = p + 20 + 4 * words;
    let (data, end) = match crate::xdr::read_opaque(request, a) {
        None => return Err(failed(0, NFS4ERR_BADXDR)),
        Some(v) => v,
    };
    let bm0 = if n > 0 { get_u32(request, p + 20) } else { 0 };
    let bm1 = if n > 1 { get_u32(request, p + 24) } else { 0 };
    let path = match exports.resolve_fh(fh.as_slice()) {
        None => return Err(failed(end - p, NFS4ERR_STALE)),
        Some(x) => x,
    };
    let (actions, short) = scan_setattr(bm0, bm1, data.as_slice());
    Ok(SetattrPlan { path, actions, short, advance: end - p })
}

/// Whether some action of the kind picked by `pick` went through.
pub open spec fn any_done(actions: Seq<SetAction>, done: Seq<bool>, size_kind: bool) -> bool {
    exists|i: int| 0 <= i < actions.len() && #[trigger] done[i] && (if size_kind { actions[i] is Size } else { !(actions[i] is Size) })
}

/// SETATTR, second half, from whether each action went through: BADXDR
/// when the values ran short; otherwise the attributes set (size in word
/// 0, time_modify_set in word 1).
pub fn finish_setattr(q: &SetattrPlan, done: &[bool]) -> (r: OpOutcome)
    requires
        done@.len() == q.actions@.len(),
    ensures
        r@ == (if q.short {
            fail(q.advance as int, NFS4ERR_BADXDR)
        } else {
            ok(u32_bytes(2) + u32_bytes(if any_done(q.actions@, done@, true) { 16u32 } else { 0u32 })
                + u32_bytes(if any_done(q.actions@, done@, false) { 0x400000u32 } else { 0u32 }), q.advance as int, None, None)
        }),
{
    if q.short {
        return failed(q.advance, NFS4ERR_BADXDR);
    }
    let mut size_set = false;
    let mut time_set = false;
    let mut i: usize = 0;
    while i < q.actions.len()
        invariant
            i <= q.actions@.len(),
            done@.len() == q.actions@.len(),
            size_set == exists|k: int| 0 <= k < i && #[trigger] done@[k] && q.actions@[k] is Size,
            time_set == exists|k: int| 0 <= k < i && #[trigger] done@[k] && !(q.actions@[k] is Size),
        decreases q.actions@.len() - i,
    {
        if done[i] {
            match q.actions[i] {
                SetAction::Size(_) => { size_set = true; }
                _ => { time_set = true; }
            }
        }
        i += 1;
    }
    let mut r: Vec<u8> = Vec::new();
    put_u32(&mut r, 2);
    put_u32(&mut r, if size_set { 16 } else { 0 });
    put_u32(&mut r, if time_set { 0x400000 } else { 0 });
    succeeded(r, q.advance, None, None)
}


/// COPY's arguments at `p`: source offset, count, sink offset and the
/// offset past them; or the answer: BADXDR when they run short, NOTSUPP
/// for a source server other than this one (a net address or none).
pub open spec fn copy_args(s: Seq<u8>, p: int) -> Result<(u64, u32, u64, int), Outcome> {
    if p + 56 > s.len() {
        Err(fail(0, NFS4ERR_BADXDR))
    } else {
        let netloc = be32(s, p + 52);
        let q = p + 56;
        if netloc == 3 {
            if q + 4 > s.len() || q + 4 + pad4(be32(s, q) as int) > s.len() {
                Err(fail(0, NFS4ERR_BADXDR))
            } else {
                let q2 = q + 4 + pad4(be32(s, q) as int);
                if q2 + 8 > s.len() { Err(fail(0, NFS4ERR_BADXDR)) } else { Ok((be64(s, p + 16), be32(s, p + 24), be64(s, p + 44), q2 + 8)) }
            }
        } else if netloc == 0 {
            if q + 8 > s.len() { Err(fail(0, NFS4ERR_BADXDR)) } else { Ok((be64(s, p + 16), be32(s, p + 24), be64(s, p + 44), q + 8)) }
        } else {
            Err(fail(56, NFS4ERR_NOTSUPP))
        }
    }
}

/// What COPY and CLONE need: the source and sink files, the offsets and
/// the count.
pub struct CopyQuery {
    pub source: Vec<u8>,
    pub sink: Vec<u8>,
    pub source_offset: u64,
    pub count: u32,
    pub sink_offset: u64,
    pub advance: usize,
}

/// COPY, first half: the current handle is the sink, the saved one the
/// source; a sink in a read-only export is refused.
pub fn plan_copy(exports: &ExportsManager, request: &[u8], p: usize, current_fh: &Option<Vec<u8>>, saved_fh: &Option<Vec<u8>>) -> (r: Result<CopyQuery, OpOutcome>)
    ensures
        match (opt_view(*current_fh), opt_view(*saved_fh)) {
            (None, _) => r matches Err(o) && o@ == fail(0, NFS4ERR_NOFILEHANDLE),
            (Some(_), None) => r matches Err(o) && o@ == fail(0, NFS4ERR_NOFILEHANDLE),
            (Some(sink_fh), Some(src_fh)) => if read_only(*exports, sink_fh) {
                r matches Err(o) && o@ == fail(0, NFS4ERR_ROFS)
            } else { match copy_args(request@, p as int) {
                Err(e) => r matches Err(o) && o@ == e,
                Ok((so, n, ko, end)) => match (path_of(*exports, sink_fh), path_of(*exports, src_fh)) {
                    (Some(sink), Some(src)) => r matches Ok(q) && q.source@ == src && q.sink@ == sink
                        && q.source_offset == so && q.count == n && q.sink_offset == ko && q.advance == end - p,
                    _ => r matches Err(o) && o@ == fail(end - p, NFS4ERR_BADHANDLE),
                },
            } },
        },
{
    let sink_fh = match current_fh {
        None => return Err(failed(0, NFS4ERR_NOFILEHANDLE)),
        Some(f) => f,
    };
    let src_fh = match saved_fh {
        None => return Err(failed(0, NFS4ERR_NOFILEHANDLE)),
        Some(f) => f,
    };
    if exports.is_read_only(sink_fh.as_slice()) {
        return Err(failed(0, NFS4ERR_ROFS));
    }
    if p > request.len() || request.len() - p < 56 {
        return Err(failed(0, NFS4ERR_BADXDR));
    }
    let netloc = get_u32(request, p + 52);
    let q = p + 56;
    let end: usize = if netloc == 3 {
        if request.len() - q < 4 {
            return Err(failed(0, NFS4ERR_BADXDR));
        }
        let n = get_u32(request, q) as u64;
        let padded = (n + 3) / 4 * 4;
        if ((request.len() - q - 4) as u64) < padded {
            return Err(failed(0, NFS4ERR_BADXDR));
        }
        let q2 = q + 4 + padded as usize;
        if request.len() - q2 < 8 {
            return Err(failed(0, NFS4ERR_BADXDR));
        }
        q2 + 8
    } else if netloc == 0 {
        if request.len() - q < 8 {
            return Err(failed(0, NFS4ERR_BADXDR));
        }
        q + 8
    } else {
        return Err(failed(56, NFS4ERR_NOTSUPP));
    };
    let sink = match exports.resolve_fh(sink_fh.as_slice()) {
        None => return Err(failed(end - p, NFS4ERR_BADHANDLE)),
        Some(x) => x,
    };
    let source = match exports.resolve_fh(src_fh.as_slice()) {
        None => return Err(failed(end - p, NFS4ERR_BADHANDLE)),
        Some(x) => x,
    };
    Ok(CopyQuery {
        source,
        sink,
        source_offset: get_u64(request, p + 16),
        count: get_u32(request, p + 24),
        sink_offset: get_u64(request, p + 44),
        advance: end - p,
    })
}

/// CLONE, first half: the current handle is the sink, the saved one the
/// source; the arguments are a fixed 52 bytes. A sink in a read-only
/// export is refused.
pub fn plan_clone(exports: &ExportsManager, request: &[u8], p: usize, current_fh: &Option<Vec<u8>>, saved_fh: &Option<Vec<u8>>) -> (r: Result<CopyQuery, OpOutcome>)
    ensures
        match (opt_view(*current_fh), opt_view(*saved_fh)) {
            (None, _) => r matches Err(o) && o@ == fail(0, NFS4ERR_NOFILEHANDLE),
            (Some(_), None) => r matches Err(o) && o@ == fail(0, NFS4ERR_NOFILEHANDLE),
            (Some(sink_fh), Some(src_fh)) => if read_only(*exports, sink_fh) {
                r matches Err(o) && o@ == fail(0, NFS4ERR_ROFS)
            } else if p + 52 > request@.len() {
                r matches Err(o) && o@ == fail(0, NFS4ERR_BADXDR)
            } else {
                match (path_of(*exports, src_fh), path_of(*exports, sink_fh)) {
                    (Some(src), Some(sink)) => r matches Ok(q) && q.source@ == src && q.sink@ == sink
                        && q.source_offset == be64(request@, p + 16) && q.count == be32(request@, p + 24)
                        && q.sink_offset == be64(request@, p + 44) && q.advance == 52,
                    _ => r matches Err(o) && o@ == fail(52, NFS4ERR_BADHANDLE),
                }
            },
        },
{
    let sink_fh = match current_fh {
        None => return Err(failed(0, NFS4ERR_NOFILEHANDLE)),
        Some(f) => f,
    };
    let src_fh = match saved_fh {
        None => return Err(failed(0, NFS4ERR_NOFILEHANDLE)),
        Some(f) => f,
    };
    if exports.is_read_only(sink_fh.as_slice()) {
        return Err(failed(0, NFS4ERR_ROFS));
    }
    if p > request.len() || request.len() - p < 52 {
        return Err(failed(0, NFS4ERR_BADXDR));
    }
    let source = match exports.resolve_fh(src_fh.as_slice()) {
        None => return Err(failed(52, NFS4ERR_BADHANDLE)),
        Some(x) => x,
    };
    let sink = match exports.resolve_fh(sink_fh.as_slice()) {
        None => return Err(failed(52, NFS4ERR_BADHANDLE)),
        Some(x) => x,
    };
    Ok(CopyQuery {
        source,
        sink,
        source_offset: get_u64(request, p + 16),
        count: get_u32(request, p + 24),
        sink_offset: get_u64(request, p + 44),
        advance: 52,
    })
}

/// The bytes COPY and CLONE take from the source's contents: from the
/// offset, at most `count` of them; `None` when the offset lies past the end.
pub open spec fn copied_bytes(src: Seq<u8>, offset: u64, count: u32) -> Option<Seq<u8>> {
    if offset > src.len() {
        None
    } else {
        let n = if count < src.len() - offset { count as int } else { src.len() - offset };
        Some(src.subrange(offset as int, offset + n))
    }
}

/// COPY / CLONE, the middle: from the source's contents (`None` when it
/// could not be read), the bytes to write to the sink; IO or INVAL
/// otherwise.
pub fn copy_source(q: &CopyQuery, src: &Option<Vec<u8>>) -> (r: Result<Vec<u8>, OpOutcome>)
    ensures
        match path_view(src) {
            None => r matches Err(o) && o@ == fail(q.advance as int, NFS4ERR_IO),
            Some(s) => match copied_bytes(s, q.source_offset, q.count) {
                None => r matches Err(o) && o@ == fail(q.advance as int, NFS4ERR_INVAL),
                Some(b) => r matches Ok(v) && v@ == b,
            },
        },
{
    let s = match src {
        None => return Err(failed(q.advance, NFS4ERR_IO)),
        Some(s) => s,
    };
    let len = s.len() as u64;
    if q.source_offset > len {
        return Err(failed(q.advance, NFS4ERR_INVAL));
    }
    let n: u64 = if (q.count as u64) < len - q.source_offset { q.count as u64 } else { len - q.source_offset };
    Ok(copy_range(s.as_slice(), q.source_offset as usize, n as usize))
}

/// COPY, second half: the number of bytes written and a synchronous copy;
/// IO when writing failed.
pub fn finish_copy(q: &CopyQuery, data_len: usize, written: bool) -> (r: OpOutcome)
    requires
        data_len <= u32::MAX,
    ensures
        r@ == (if written { ok(u32_bytes(data_len as u32) + u32_bytes(1), q.advance as int, None, None) } else { fail(q.advance as int, NFS4ERR_IO) }),
{
    if !written {
        return failed(q.advance, NFS4ERR_IO);
    }
    let mut r: Vec<u8> = Vec::new();
    put_u32(&mut r, data_len as u32);
    put_u32(&mut r, 1);
    succeeded(r, q.advance, None, None)
}

/// CLONE, second half: nothing to report; IO when writing failed.
pub fn finish_clone(q: &CopyQuery, written: bool) -> (r: OpOutcome)
    ensures
        r@ == (if written { ok(Seq::empty(), q.advance as int, None, None) } else { fail(q.advance as int, NFS4ERR_IO) }),
{
    if !written {
        return failed(q.advance, NFS4ERR_IO);
    }
    succeeded(Vec::new(), q.advance, None, None)
}

} // verus!
