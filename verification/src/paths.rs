//! Byte-string path helpers with Windows separator rules (`\` and `/`).

use vstd::prelude::*;

verus! {

/// Whether `b` separates path components.
pub open spec fn is_sep(b: u8) -> bool {
    b == 0x5c || b == 0x2f
}

/// `s` without its trailing separators.
pub open spec fn trim_trailing_seps(s: Seq<u8>) -> Seq<u8>
    decreases s.len(),
{
    if s.len() > 0 && is_sep(s.last()) {
        trim_trailing_seps(s.drop_last())
    } else {
        s
    }
}

/// The bytes after the last separator of `s` (all of `s` if it has none).
pub open spec fn after_last_sep(s: Seq<u8>) -> Seq<u8>
    decreases s.len(),
{
    if s.len() == 0 {
        s
    } else if is_sep(s.last()) {
        Seq::empty()
    } else {
        after_last_sep(s.drop_last()).push(s.last())
    }
}

/// Whether `c` is a bare drive designator such as `C:`.
pub open spec fn is_drive(c: Seq<u8>) -> bool {
    c.len() == 2 && c[1] == 0x3a
}

/// The final component of a path: empty for a root, a drive, or a path
/// that ends in `..`.
pub open spec fn file_name(p: Seq<u8>) -> Seq<u8> {
    let c = after_last_sep(trim_trailing_seps(p));
    if c == seq![0x2eu8, 0x2eu8] || is_drive(c) {
        Seq::empty()
    } else {
        c
    }
}

/// `s` without its leading `/` characters.
pub open spec fn trim_leading_slashes(s: Seq<u8>) -> Seq<u8>
    decreases s.len(),
{
    if s.len() > 0 && s[0] == 0x2f {
        trim_leading_slashes(s.drop_first())
    } else {
        s
    }
}

/// Whether `b` is an ASCII letter.
pub open spec fn is_letter(b: u8) -> bool {
    (0x41 <= b <= 0x5a) || (0x61 <= b <= 0x7a)
}

/// Whether `p` opens with a drive such as `C:`.
pub open spec fn has_drive(p: Seq<u8>) -> bool {
    p.len() >= 2 && is_letter(p[0]) && p[1] == 0x3a
}

/// Whether `p` opens with two separators, as a share (`\\server\share`) or a
/// `\\?\` / `\\.\` path does.
pub open spec fn has_double_sep(p: Seq<u8>) -> bool {
    p.len() >= 2 && is_sep(p[0]) && is_sep(p[1])
}

/// Where the component of `s` that starts at `i` ends: at the first
/// separator from `i` on, or at the end of `s`.
pub open spec fn comp_end(s: Seq<u8>, i: int) -> int
    decreases s.len() - i,
{
    if i >= s.len() {
        s.len() as int
    } else if is_sep(s[i]) {
        i
    } else {
        comp_end(s, i + 1)
    }
}

/// `UNC`
pub open spec fn unc_word() -> Seq<u8> {
    seq![0x55u8, 0x4eu8, 0x43u8]
}

/// The length of the prefix of a path that a name starting at the root
/// keeps: a drive `C:`; a share `\\server\share` (both parts present);
/// `\\?\UNC\server\share`; `\\?\X` or `\\.\X` up to the end of `X`; none
/// otherwise.
pub open spec fn dir_prefix_len(d: Seq<u8>) -> int {
    if has_drive(d) {
        2
    } else if has_double_sep(d) {
        let a = comp_end(d, 2);
        let b = comp_end(d, a + 1);
        if a == 3 && d[2] == 0x3f && a < d.len() && d.subrange(a + 1, b) == unc_word() {
            comp_end(d, comp_end(d, b + 1) + 1)
        } else if a > 2 && b > a + 1 {
            b
        } else {
            0
        }
    } else {
        0
    }
}

/// `name` inside `dir`, as Windows joins paths: a name that opens with a
/// drive or with two separators replaces `dir`; a name that starts at the
/// root keeps only the prefix of `dir` (its drive or share); otherwise
/// `name` is appended with a `\` between them, unless `dir` is empty, ends
/// in a separator, or is a bare drive `C:`.
pub open spec fn join(dir: Seq<u8>, name: Seq<u8>) -> Seq<u8> {
    if has_drive(name) || has_double_sep(name) {
        name
    } else if name.len() > 0 && is_sep(name[0]) {
        dir.subrange(0, dir_prefix_len(dir)) + name
    } else if dir.len() == 0 || is_sep(dir.last()) || (dir.len() == 2 && has_drive(dir)) {
        dir + name
    } else {
        dir.push(0x5c) + name
    }
}

/// A component ends between its start and the end of the path.
proof fn lemma_comp_end_bounds(s: Seq<u8>, i: int)
    requires
        0 <= i,
    ensures
        i <= s.len() ==> i <= comp_end(s, i) <= s.len(),
        i >= s.len() ==> comp_end(s, i) == s.len(),
    decreases s.len() - i,
{
    if i < s.len() && !is_sep(s[i]) {
        lemma_comp_end_bounds(s, i + 1);
    }
}

/// A prefix is never longer than the path.
proof fn lemma_dir_prefix_len_bounds(d: Seq<u8>)
    ensures
        0 <= dir_prefix_len(d) <= d.len(),
{
    if !has_drive(d) && has_double_sep(d) {
        let a = comp_end(d, 2);
        lemma_comp_end_bounds(d, 2);
        lemma_comp_end_bounds(d, a + 1);
        let b = comp_end(d, a + 1);
        lemma_comp_end_bounds(d, b + 1);
        let c = comp_end(d, b + 1);
        lemma_comp_end_bounds(d, c + 1);
    }
}

proof fn lemma_trim_trailing_prefix(s: Seq<u8>, i: int)
    requires
        0 <= i <= s.len(),
        forall|k: int| i <= k < s.len() ==> is_sep(#[trigger] s[k]),
    ensures
        trim_trailing_seps(s) == trim_trailing_seps(s.subrange(0, i)),
    decreases s.len(),
{
    if i < s.len() {
        assert(s.drop_last() =~= s.subrange(0, s.len() - 1));
        lemma_trim_trailing_prefix(s.drop_last(), i);
        assert(s.drop_last().subrange(0, i) =~= s.subrange(0, i));
    } else {
        assert(s.subrange(0, i) =~= s);
    }
}

proof fn lemma_after_last_sep_suffix(s: Seq<u8>, i: int)
    requires
        0 <= i <= s.len(),
        forall|k: int| i <= k < s.len() ==> !is_sep(#[trigger] s[k]),
        i == 0 || is_sep(s[i - 1]),
    ensures
        after_last_sep(s) == s.subrange(i, s.len() as int),
    decreases s.len(),
{
    if i < s.len() {
        assert(s.drop_last() =~= s.subrange(0, s.len() - 1));
        lemma_after_last_sep_suffix(s.drop_last(), i);
        assert(s.drop_last().subrange(i, s.len() - 1).push(s.last()) =~= s.subrange(i, s.len() as int));
    } else {
        if i > 0 {
            assert(is_sep(s.last()));
        }
        assert(s.subrange(i, s.len() as int) =~= Seq::<u8>::empty());
    }
}

/// Computes the final component of a path.
pub fn file_name_of(p: &[u8]) -> (r: Vec<u8>)
    ensures
        r@ == file_name(p@),
{
    let mut end = p.len();
    while end > 0 && (p[end - 1] == 0x5c || p[end - 1] == 0x2f)
        invariant
            end <= p@.len(),
            forall|k: int| end <= k < p@.len() ==> is_sep(#[trigger] p@[k]),
        decreases end,
    {
        end -= 1;
    }
    proof {
        lemma_trim_trailing_prefix(p@, end as int);
        let t = p@.subrange(0, end as int);
        if end > 0 {
            assert(!is_sep(t.last()));
        }
        assert(trim_trailing_seps(t) == t);
    }
    let mut start = end;
    while start > 0 && !(p[start - 1] == 0x5c || p[start - 1] == 0x2f)
        invariant
            start <= end <= p@.len(),
            forall|k: int| start <= k < end ==> !is_sep(#[trigger] p@[k]),
        decreases start,
    {
        start -= 1;
    }
    let ghost t = p@.subrange(0, end as int);
    proof {
        assert forall|k: int| start <= k < t.len() implies !is_sep(#[trigger] t[k]) by {
            assert(t[k] == p@[k]);
        }
        if start > 0 {
            assert(t[start - 1] == p@[start - 1]);
        }
        lemma_after_last_sep_suffix(t, start as int);
        assert(t.subrange(start as int, t.len() as int) =~= p@.subrange(start as int, end as int));
    }
    let len = end - start;
    let dotdot = len == 2 && p[start] == 0x2e && p[start + 1] == 0x2e;
    let drive = len == 2 && p[start + 1] == 0x3a;
    if dotdot || drive {
        proof {
            let c = p@.subrange(start as int, end as int);
            if dotdot {
                assert(c =~= seq![0x2eu8, 0x2eu8]);
            }
        }
        Vec::new()
    } else {
        let r = crate::xdr::copy_range(p, start, len);
        proof {
            let c = p@.subrange(start as int, end as int);
            if c == seq![0x2eu8, 0x2eu8] {
                assert(c[0] == p@[start as int] && c[1] == p@[start + 1]);
            }
        }
        r
    }
}

/// Computes `s` without its leading `/` characters.
pub fn trim_leading_slashes_of(s: &[u8]) -> (r: Vec<u8>)
    ensures
        r@ == trim_leading_slashes(s@),
{
    let mut i: usize = 0;
    assert(s@.subrange(0, s@.len() as int) =~= s@);
    while i < s.len() && s[i] == 0x2f
        invariant
            i <= s@.len(),
            trim_leading_slashes(s@) == trim_leading_slashes(s@.subrange(i as int, s@.len() as int)),
        decreases s@.len() - i,
    {
        proof {
            let t = s@.subrange(i as int, s@.len() as int);
            assert(t.drop_first() =~= s@.subrange(i + 1, s@.len() as int));
        }
        i += 1;
    }
    crate::xdr::copy_range(s, i, s.len() - i)
}

/// Computes where the component of `s` that starts at `i` ends.
fn comp_end_of(s: &[u8], i: usize) -> (r: usize)
    requires
        i <= s@.len(),
    ensures
        r == comp_end(s@, i as int),
        i <= r <= s@.len(),
{
    let mut j = i;
    while j < s.len() && !(s[j] == 0x5c || s[j] == 0x2f)
        invariant
            i <= j <= s@.len(),
            comp_end(s@, i as int) == comp_end(s@, j as int),
        decreases s@.len() - j,
    {
        j += 1;
    }
    j
}

/// Computes the length of the prefix that a rooted name keeps of `d`.
fn dir_prefix_len_of(d: &[u8]) -> (r: usize)
    ensures
        r == dir_prefix_len(d@),
{
    proof { lemma_dir_prefix_len_bounds(d@); }
    if d.len() >= 2 && ((0x41 <= d[0] && d[0] <= 0x5a) || (0x61 <= d[0] && d[0] <= 0x7a)) && d[1] == 0x3a {
        return 2;
    }
    if !(d.len() >= 2 && (d[0] == 0x5c || d[0] == 0x2f) && (d[1] == 0x5c || d[1] == 0x2f)) {
        return 0;
    }
    let a = comp_end_of(d, 2);
    let b = if a < d.len() { comp_end_of(d, a + 1) } else { a };
    proof {
        lemma_comp_end_bounds(d@, a + 1);
    }
    let unc = a == 3 && d[2] == 0x3f && a < d.len() && b == a + 4 && d[a + 1] == 0x55 && d[a + 2] == 0x4e
        && d[a + 3] == 0x43;
    proof {
        if a == 3 && d@[2] == 0x3f && a < d@.len() {
            let w = d@.subrange(a + 1, b as int);
            if unc {
                assert(w =~= unc_word());
            } else if w == unc_word() {
                assert(w.len() == 3);
                assert(w[0] == d@[a + 1] && w[1] == d@[a + 2] && w[2] == d@[a + 3]);
            }
        }
    }
    if unc {
        let c = if b < d.len() { comp_end_of(d, b + 1) } else { b };
        proof {
            lemma_comp_end_bounds(d@, b + 1);
            lemma_comp_end_bounds(d@, c + 1);
        }
        if c < d.len() { comp_end_of(d, c + 1) } else { c }
    } else if a > 2 && b - a > 1 {
        b
    } else {
        0
    }
}

/// Computes the path of `name` inside `dir`.
pub fn join_path(dir: &[u8], name: &[u8]) -> (r: Vec<u8>)
    ensures
        r@ == join(dir@, name@),
{
    let drive_name = name.len() >= 2 && ((0x41 <= name[0] && name[0] <= 0x5a) || (0x61 <= name[0] && name[0] <= 0x7a))
        && name[1] == 0x3a;
    let double_sep = name.len() >= 2 && (name[0] == 0x5c || name[0] == 0x2f) && (name[1] == 0x5c || name[1] == 0x2f);
    if drive_name || double_sep {
        let r = crate::xdr::copy_range(name, 0, name.len());
        assert(name@.subrange(0, name@.len() as int) =~= name@);
        return r;
    }
    if name.len() > 0 && (name[0] == 0x5c || name[0] == 0x2f) {
        let k = dir_prefix_len_of(dir);
        proof { lemma_dir_prefix_len_bounds(dir@); }
        let mut r = crate::xdr::copy_range(dir, 0, k);
        crate::xdr::put_bytes(&mut r, name);
        return r;
    }
    let mut r = crate::xdr::copy_range(dir, 0, dir.len());
    assert(dir@.subrange(0, dir@.len() as int) =~= dir@);
    let bare_drive = dir.len() == 2 && ((0x41 <= dir[0] && dir[0] <= 0x5a) || (0x61 <= dir[0] && dir[0] <= 0x7a))
        && dir[1] == 0x3a;
    if !(dir.len() == 0 || dir[dir.len() - 1] == 0x5c || dir[dir.len() - 1] == 0x2f || bare_drive) {
        r.push(0x5c);
    }
    crate::xdr::put_bytes(&mut r, name);
    r
}

/// Whether `s` begins with `prefix`.
pub open spec fn starts_with(s: Seq<u8>, prefix: Seq<u8>) -> bool {
    prefix.len() <= s.len() && s.subrange(0, prefix.len() as int) == prefix
}

/// Computes whether `s` begins with `prefix`.
pub fn has_prefix(s: &[u8], prefix: &[u8]) -> (r: bool)
    ensures
        r == starts_with(s@, prefix@),
{
    if prefix.len() > s.len() {
        return false;
    }
    let mut i: usize = 0;
    while i < prefix.len()
        invariant
            i <= prefix@.len() <= s@.len(),
            forall|k: int| 0 <= k < i ==> s@[k] == prefix@[k],
        decreases prefix@.len() - i,
    {
        if s[i] != prefix[i] {
            assert(s@.subrange(0, prefix@.len() as int)[i as int] != prefix@[i as int]);
            return false;
        }
        i += 1;
    }
    assert(s@.subrange(0, prefix@.len() as int) =~= prefix@);
    true
}

/// Whether `s` contains the byte `b`.
pub fn contains_byte(s: &[u8], b: u8) -> (r: bool)
    ensures
        r == s@.contains(b),
{
    let mut i: usize = 0;
    while i < s.len()
        invariant
            i <= s@.len(),
            forall|k: int| 0 <= k < i ==> s@[k] != b,
        decreases s@.len() - i,
    {
        if s[i] == b {
            assert(s@[i as int] == b);
            return true;
        }
        i += 1;
    }
    false
}


/// The parent of a path: `None` for an empty path, a root or a bare drive;
/// the empty path for a single relative component; otherwise the path
/// without its final component and the separators before it, keeping the
/// separator of a root (`\`, `/`, `C:\`).
pub open spec fn parent(p: Seq<u8>) -> Option<Seq<u8>> {
    let t = trim_trailing_seps(p);
    let c = after_last_sep(t);
    if c.len() == 0 || (is_drive(c) && c.len() == t.len()) {
        None
    } else {
        let rest = t.subrange(0, t.len() - c.len());
        let r = trim_trailing_seps(rest);
        if rest.len() == 0 {
            Some(Seq::empty())
        } else if r.len() == 0 || is_drive(r) {
            Some(rest.subrange(0, r.len() as int + 1))
        } else {
            Some(r)
        }
    }
}

/// Whether path `a` lies at or under path `b`, component by component.
pub open spec fn within(a: Seq<u8>, b: Seq<u8>) -> bool {
    let b2 = trim_trailing_seps(b);
    starts_with(a, b2) && (b2.len() == 0 || a.len() == b2.len() || is_sep(a[b2.len() as int]))
}

/// The end of `s[..end]` once trailing separators are dropped.
fn trim_end(s: &[u8], end: usize) -> (r: usize)
    requires
        end <= s@.len(),
    ensures
        r <= end,
        trim_trailing_seps(s@.subrange(0, end as int)) == s@.subrange(0, r as int),
{
    let mut e = end;
    while e > 0 && (s[e - 1] == 0x5c || s[e - 1] == 0x2f)
        invariant
            e <= end <= s@.len(),
            forall|k: int| e <= k < end ==> is_sep(#[trigger] s@[k]),
        decreases e,
    {
        e -= 1;
    }
    proof {
        let u = s@.subrange(0, end as int);
        assert forall|k: int| e <= k < u.len() implies is_sep(#[trigger] u[k]) by {
            assert(u[k] == s@[k]);
        }
        lemma_trim_trailing_prefix(u, e as int);
        assert(u.subrange(0, e as int) =~= s@.subrange(0, e as int));
        let t = s@.subrange(0, e as int);
        if e > 0 {
            assert(!is_sep(t.last()));
        }
        assert(trim_trailing_seps(t) == t);
    }
    e
}

/// Computes the parent of a path.
pub fn parent_of(p: &[u8]) -> (r: Option<Vec<u8>>)
    ensures
        match parent(p@) {
            Some(q) => r matches Some(v) && v@ == q,
            None => r is None,
        },
{
    assert(p@.subrange(0, p@.len() as int) =~= p@);
    let end = trim_end(p, p.len());
    let mut start = end;
    while start > 0 && !(p[start - 1] == 0x5c || p[start - 1] == 0x2f)
        invariant
            start <= end <= p@.len(),
            forall|k: int| start <= k < end ==> !is_sep(#[trigger] p@[k]),
        decreases start,
    {
        start -= 1;
    }
    let ghost t = p@.subrange(0, end as int);
    proof {
        assert forall|k: int| start <= k < t.len() implies !is_sep(#[trigger] t[k]) by {
            assert(t[k] == p@[k]);
        }
        if start > 0 {
            assert(t[start - 1] == p@[start - 1]);
        }
        lemma_after_last_sep_suffix(t, start as int);
        assert(t.subrange(start as int, t.len() as int) =~= p@.subrange(start as int, end as int));
        assert(t.subrange(0, start as int) =~= p@.subrange(0, start as int));
    }
    if start == end {
        return None;
    }
    if start == 0 && end == 2 && p[1] == 0x3a {
        return None;
    }
    if start == 0 {
        return Some(Vec::new());
    }
    let r_end = trim_end(p, start);
    if r_end == 0 || (r_end == 2 && p[1] == 0x3a) {
        let v = crate::xdr::copy_range(p, 0, r_end + 1);
        proof {
            assert(p@.subrange(0, start as int).subrange(0, r_end + 1) =~= p@.subrange(0, r_end + 1));
        }
        Some(v)
    } else {
        Some(crate::xdr::copy_range(p, 0, r_end))
    }
}

/// Computes whether path `a` lies at or under path `b`.
pub fn is_within(a: &[u8], b: &[u8]) -> (r: bool)
    ensures
        r == within(a@, b@),
{
    assert(b@.subrange(0, b@.len() as int) =~= b@);
    let e = trim_end(b, b.len());
    let b2 = crate::xdr::copy_range(b, 0, e);
    if !has_prefix(a, b2.as_slice()) {
        return false;
    }
    e == 0 || a.len() == e || a[e] == 0x5c || a[e] == 0x2f
}

} // verus!
