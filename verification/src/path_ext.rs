//! Windows extended-length paths (`\\?\C:\...`, `\\?\UNC\server\share\...`).
//!
//! A path with the `\\?\` prefix is exempt from the classic 260-character
//! limit, but it must be absolute and use `\` only. Paths are byte strings;
//! the current directory, which makes a relative path absolute, is passed in
//! by the caller (`None` when it could not be determined). Extended paths
//! exist on Windows only: on other platforms (`windows` false) the
//! conversions hand the path back unchanged.

use vstd::prelude::*;
use crate::paths::{is_letter, is_sep, join, join_path, starts_with};

verus! {

/// `\\?\`
pub open spec fn verbatim_prefix() -> Seq<u8> {
    seq![0x5cu8, 0x5cu8, 0x3fu8, 0x5cu8]
}

/// `\\.\`
pub open spec fn device_prefix() -> Seq<u8> {
    seq![0x5cu8, 0x5cu8, 0x2eu8, 0x5cu8]
}

/// `\\?\UNC\`
pub open spec fn verbatim_unc_prefix() -> Seq<u8> {
    seq![0x5cu8, 0x5cu8, 0x3fu8, 0x5cu8, 0x55u8, 0x4eu8, 0x43u8, 0x5cu8]
}

/// `\\`
pub open spec fn unc_lead() -> Seq<u8> {
    seq![0x5cu8, 0x5cu8]
}

/// Whether a path is absolute under Windows rules: a drive with a root
/// (`C:\`, `C:/`), or a path that opens with two separators (a UNC share
/// `\\server\share`, or a `\\?\` / `\\.\` device path).
pub open spec fn is_absolute(p: Seq<u8>) -> bool {
    ||| (p.len() >= 3 && is_letter(p[0]) && p[1] == 0x3a && is_sep(p[2]))
    ||| (p.len() >= 2 && is_sep(p[0]) && is_sep(p[1]))
}

/// `p` with every `/` turned into `\`.
pub open spec fn backslashed(p: Seq<u8>) -> Seq<u8> {
    Seq::new(p.len(), |i: int| if p[i] == 0x2f { 0x5cu8 } else { p[i] })
}

/// The extended-length form of an absolute path: `\\?\UNC\` in place of the
/// `\\` of a share, `\\?\` before anything else, with `\` separators.
pub open spec fn verbatim_form(abs: Seq<u8>) -> Seq<u8> {
    let n = backslashed(abs);
    if starts_with(n, unc_lead()) {
        verbatim_unc_prefix() + n.subrange(2, n.len() as int)
    } else {
        verbatim_prefix() + n
    }
}

/// What [`to_extended_path`] gives for `p` with current directory `cwd`:
/// `p` itself when it already is a `\\?\` or `\\.\` path, or when it is
/// relative and the current directory is unknown; otherwise the extended
/// form of `p`, made absolute against `cwd`.
pub open spec fn extended_path(p: Seq<u8>, cwd: Option<Seq<u8>>) -> Seq<u8> {
    if starts_with(p, verbatim_prefix()) || starts_with(p, device_prefix()) {
        p
    } else if is_absolute(p) {
        verbatim_form(p)
    } else {
        match cwd {
            Some(c) => verbatim_form(join(c, p)),
            None => p,
        }
    }
}

/// What [`strip_extended_prefix`] gives: a `\\?\UNC\` path back as a share
/// path `\\server\...`, a `\\?\` path without its prefix, anything else as
/// it is.
pub open spec fn stripped_path(p: Seq<u8>) -> Seq<u8> {
    if starts_with(p, verbatim_unc_prefix()) {
        unc_lead() + p.subrange(8, p.len() as int)
    } else if starts_with(p, verbatim_prefix()) {
        p.subrange(4, p.len() as int)
    } else {
        p
    }
}

/// Whether the first bytes of `p` are `a`, `b`, `c`, `d`.
fn begins4(p: &[u8], a: u8, b: u8, c: u8, d: u8) -> (r: bool)
    ensures
        r == starts_with(p@, seq![a, b, c, d]),
{
    if p.len() >= 4 && p[0] == a && p[1] == b && p[2] == c && p[3] == d {
        assert(p@.subrange(0, 4) =~= seq![a, b, c, d]);
        true
    } else {
        if p.len() >= 4 {
            let ghost s = p@.subrange(0, 4);
            assert(s[0] == p@[0] && s[1] == p@[1] && s[2] == p@[2] && s[3] == p@[3]);
        }
        false
    }
}

/// Whether `p` starts with `\\?\`.
fn is_verbatim(p: &[u8]) -> (r: bool)
    ensures
        r == starts_with(p@, verbatim_prefix()),
{
    begins4(p, 0x5c, 0x5c, 0x3f, 0x5c)
}

/// Whether `p` starts with `\\?\UNC\`.
fn is_verbatim_unc(p: &[u8]) -> (r: bool)
    ensures
        r == starts_with(p@, verbatim_unc_prefix()),
{
    if p.len() < 8 {
        return false;
    }
    let head = begins4(p, 0x5c, 0x5c, 0x3f, 0x5c);
    let tail = p[4] == 0x55 && p[5] == 0x4e && p[6] == 0x43 && p[7] == 0x5c;
    proof {
        let s = p@.subrange(0, 8);
        if head && tail {
            assert(p@.subrange(0, 4)[0] == p@[0] && p@.subrange(0, 4)[1] == p@[1]);
            assert(p@.subrange(0, 4)[2] == p@[2] && p@.subrange(0, 4)[3] == p@[3]);
            assert(s =~= verbatim_unc_prefix());
        } else if s == verbatim_unc_prefix() {
            assert(s[0] == p@[0] && s[1] == p@[1] && s[2] == p@[2] && s[3] == p@[3]);
            assert(s[4] == p@[4] && s[5] == p@[5] && s[6] == p@[6] && s[7] == p@[7]);
            assert(p@.subrange(0, 4) =~= seq![0x5cu8, 0x5cu8, 0x3fu8, 0x5cu8]);
        }
    }
    head && tail
}

/// Computes whether `p` is absolute under Windows rules.
pub fn path_is_absolute(p: &[u8]) -> (r: bool)
    ensures
        r == is_absolute(p@),
{
    let drive = p.len() >= 3 && ((0x41 <= p[0] && p[0] <= 0x5a) || (0x61 <= p[0] && p[0] <= 0x7a))
        && p[1] == 0x3a && (p[2] == 0x5c || p[2] == 0x2f);
    let share = p.len() >= 2 && (p[0] == 0x5c || p[0] == 0x2f) && (p[1] == 0x5c || p[1] == 0x2f);
    drive || share
}

/// Copies `p` with every `/` turned into `\`.
pub fn to_backslashes(p: &[u8]) -> (r: Vec<u8>)
    ensures
        r@ == backslashed(p@),
{
    let mut r: Vec<u8> = Vec::with_capacity(p.len());
    let mut i: usize = 0;
    while i < p.len()
        invariant
            i <= p@.len(),
            r@ == backslashed(p@.subrange(0, i as int)),
        decreases p@.len() - i,
    {
        let b = if p[i] == 0x2f { 0x5c } else { p[i] };
        r.push(b);
        i += 1;
        assert(r@ =~= backslashed(p@.subrange(0, i as int)));
    }
    assert(p@.subrange(0, p@.len() as int) =~= p@);
    r
}

/// The extended-length form of the absolute path `abs`.
fn verbatim_of(abs: &[u8]) -> (r: Vec<u8>)
    ensures
        r@ == verbatim_form(abs@),
{
    let n = to_backslashes(abs);
    let share = n.len() >= 2 && n[0] == 0x5c && n[1] == 0x5c;
    proof {
        if n@.len() >= 2 {
            let s = n@.subrange(0, 2);
            assert(s[0] == n@[0] && s[1] == n@[1]);
            if share {
                assert(s =~= unc_lead());
            }
        }
    }
    let mut r: Vec<u8> = Vec::new();
    r.push(0x5c);
    r.push(0x5c);
    r.push(0x3f);
    r.push(0x5c);
    if share {
        r.push(0x55);
        r.push(0x4e);
        r.push(0x43);
        r.push(0x5c);
        let rest = crate::xdr::copy_range(n.as_slice(), 2, n.len() - 2);
        crate::xdr::put_bytes(&mut r, rest.as_slice());
        assert(r@ =~= verbatim_unc_prefix() + n@.subrange(2, n@.len() as int));
    } else {
        crate::xdr::put_bytes(&mut r, n.as_slice());
        assert(r@ =~= verbatim_prefix() + n@);
    }
    r
}

/// Converts a path to its extended-length form (`\\?\<absolute path>`).
///
/// A `\\?\` or `\\.\` path is returned as it is; a relative path is first
/// joined to `cwd`, and returned unchanged when `cwd` is `None`; `/`
/// becomes `\`; a share `\\server\share` becomes `\\?\UNC\server\share`.
/// Off Windows the path is returned unchanged.
pub fn to_extended_path(path: &[u8], cwd: Option<&[u8]>, windows: bool) -> (r: Vec<u8>)
    ensures
        r@ == (if windows { extended_path(path@, match cwd { Some(c) => Some(c@), None => None }) } else { path@ }),
{
    let whole = crate::xdr::copy_range(path, 0, path.len());
    assert(path@.subrange(0, path@.len() as int) =~= path@);
    if !windows {
        return whole;
    }
    if is_verbatim(path) || begins4(path, 0x5c, 0x5c, 0x2e, 0x5c) {
        return whole;
    }
    if path_is_absolute(path) {
        return verbatim_of(path);
    }
    match cwd {
        Some(c) => {
            let abs = join_path(c, path);
            verbatim_of(abs.as_slice())
        },
        None => whole,
    }
}

/// [`to_extended_path`] on an owned path.
pub fn extend_path(path: Vec<u8>, cwd: Option<&[u8]>, windows: bool) -> (r: Vec<u8>)
    ensures
        r@ == (if windows { extended_path(path@, match cwd { Some(c) => Some(c@), None => None }) } else { path@ }),
{
    to_extended_path(path.as_slice(), cwd, windows)
}

/// Removes the extended-length prefix, for display and for the wire:
/// `\\?\UNC\server\share` becomes `\\server\share`, `\\?\C:\x` becomes
/// `C:\x`, and any other path is returned as it is. Off Windows every path
/// is returned as it is.
pub fn strip_extended_prefix(path: &[u8], windows: bool) -> (r: Vec<u8>)
    ensures
        r@ == (if windows { stripped_path(path@) } else { path@ }),
{
    if !windows {
        let r = crate::xdr::copy_range(path, 0, path.len());
        assert(path@.subrange(0, path@.len() as int) =~= path@);
        return r;
    }
    if is_verbatim_unc(path) {
        let mut r: Vec<u8> = Vec::new();
        r.push(0x5c);
        r.push(0x5c);
        let rest = crate::xdr::copy_range(path, 8, path.len() - 8);
        crate::xdr::put_bytes(&mut r, rest.as_slice());
        assert(r@ =~= unc_lead() + path@.subrange(8, path@.len() as int));
        r
    } else if is_verbatim(path) {
        crate::xdr::copy_range(path, 4, path.len() - 4)
    } else {
        let r = crate::xdr::copy_range(path, 0, path.len());
        assert(path@.subrange(0, path@.len() as int) =~= path@);
        r
    }
}

/// Stripping the prefix from the extended form of an absolute path gives
/// the path back, with `\` separators.
pub proof fn lemma_strip_undoes_extend(p: Seq<u8>, cwd: Option<Seq<u8>>)
    requires
        is_absolute(p),
        !starts_with(p, verbatim_prefix()),
        !starts_with(p, device_prefix()),
    ensures
        stripped_path(extended_path(p, cwd)) == backslashed(p),
{
    let n = backslashed(p);
    let e = extended_path(p, cwd);
    if starts_with(n, unc_lead()) {
        let rest = n.subrange(2, n.len() as int);
        assert(e == verbatim_unc_prefix() + rest);
        assert(e.subrange(0, 8) =~= verbatim_unc_prefix());
        assert(e.subrange(8, e.len() as int) =~= rest);
        assert(unc_lead() + rest =~= n) by {
            assert(n.subrange(0, 2) == unc_lead());
            assert forall|i: int| 0 <= i < n.len() implies #[trigger] (unc_lead() + rest)[i] == n[i] by {
                if i < 2 {
                    assert(n.subrange(0, 2)[i] == n[i]);
                }
            }
        }
    } else {
        assert(e == verbatim_prefix() + n);
        assert(e.subrange(0, 4) =~= verbatim_prefix());
        assert(e.subrange(4, e.len() as int) =~= n);
        // a drive path `C:\..` cannot begin with `\\?\UNC\`
        if starts_with(e, verbatim_unc_prefix()) {
            assert(e.subrange(0, 8)[4] == e[4]);
            assert(e[4] == n[0]);
            assert(n[0] == p[0]);
            assert(e.subrange(0, 8)[5] == e[5]);
            assert(e[5] == n[1]);
            assert(p[1] == 0x3a || is_sep(p[1]));
            if is_sep(p[1]) {
                assert(is_sep(p[0]) && is_sep(p[1]));
                assert(n.subrange(0, 2) =~= unc_lead());
            }
        }
    }
}

/// Converting a path that is already in extended form changes nothing.
pub proof fn lemma_extend_idempotent(p: Seq<u8>, cwd: Option<Seq<u8>>)
    ensures
        extended_path(extended_path(p, cwd), cwd) == extended_path(p, cwd),
{
    let e = extended_path(p, cwd);
    if e != p {
        let n = if is_absolute(p) { backslashed(p) } else { backslashed(join(cwd->0, p)) };
        if starts_with(n, unc_lead()) {
            assert(e.subrange(0, 4) =~= verbatim_prefix());
        } else {
            assert(e.subrange(0, 4) =~= verbatim_prefix());
        }
    }
}

} // verus!
