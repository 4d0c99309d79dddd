//! Directory entries as the server lists them, and their order by name.

use vstd::prelude::*;
use crate::nfs4_attrs::FileMeta;

verus! {

/// A directory entry: its name, full path, whether it is a directory, and
/// its metadata (`None` when it could not be read).
pub struct DirEntry {
    pub name: Vec<u8>,
    pub path: Vec<u8>,
    pub is_dir: bool,
    pub meta: Option<FileMeta>,
}

/// The value of a directory entry.
pub struct DirEntryView {
    pub name: Seq<u8>,
    pub path: Seq<u8>,
    pub is_dir: bool,
    pub meta: Option<FileMeta>,
}

impl View for DirEntry {
    type V = DirEntryView;

    open spec fn view(&self) -> DirEntryView {
        DirEntryView { name: self.name@, path: self.path@, is_dir: self.is_dir, meta: self.meta }
    }
}

/// The values of a sequence of entries.
pub open spec fn entry_views(es: Seq<DirEntry>) -> Seq<DirEntryView> {
    es.map_values(|e: DirEntry| e@)
}

/// Byte strings in lexicographic order: `a` is not after `b`.
pub open spec fn lex_le(a: Seq<u8>, b: Seq<u8>) -> bool
    decreases a.len(),
{
    if a.len() == 0 {
        true
    } else if b.len() == 0 {
        false
    } else if a[0] != b[0] {
        a[0] < b[0]
    } else {
        lex_le(a.drop_first(), b.drop_first())
    }
}

/// Entries in ascending order of name.
pub open spec fn sorted_by_name(es: Seq<DirEntry>) -> bool {
    forall|i: int, j: int| 0 <= i < j < es.len() ==> lex_le(es[i].name@, es[j].name@)
}

/// Compares two byte strings lexicographically: negative when `x` comes
/// first, zero when they are equal, positive when `y` comes first.
pub fn lex_compare(x: &[u8], y: &[u8]) -> (r: i8)
    ensures
        r <= 0 <==> lex_le(x@, y@),
        r == 0 <==> x@ == y@,
{
    let mut i: usize = 0;
    assert(x@.subrange(0, 0) =~= y@.subrange(0, 0));
    assert(x@.subrange(0, x@.len() as int) =~= x@);
    assert(y@.subrange(0, y@.len() as int) =~= y@);
    while i < x.len() && i < y.len()
        invariant
            i <= x@.len(),
            i <= y@.len(),
            x@.subrange(0, i as int) == y@.subrange(0, i as int),
            lex_le(x@, y@) == lex_le(x@.subrange(i as int, x@.len() as int), y@.subrange(i as int, y@.len() as int)),
        decreases x@.len() - i,
    {
        let ghost xs = x@.subrange(i as int, x@.len() as int);
        let ghost ys = y@.subrange(i as int, y@.len() as int);
        if x[i] != y[i] {
            proof {
                assert(xs[0] == x@[i as int] && ys[0] == y@[i as int]);
                if x@ == y@ {
                    assert(x@[i as int] == y@[i as int]);
                }
            }
            if x[i] < y[i] {
                return -1;
            } else {
                return 1;
            }
        }
        proof {
            assert(xs[0] == ys[0]);
            assert(xs.drop_first() =~= x@.subrange(i + 1, x@.len() as int));
            assert(ys.drop_first() =~= y@.subrange(i + 1, y@.len() as int));
            assert(x@.subrange(0, i + 1) =~= x@.subrange(0, i as int).push(x@[i as int]));
            assert(y@.subrange(0, i + 1) =~= y@.subrange(0, i as int).push(y@[i as int]));
        }
        i += 1;
    }
    proof {
        let xs = x@.subrange(i as int, x@.len() as int);
        let ys = y@.subrange(i as int, y@.len() as int);
        if i == x@.len() && i == y@.len() {
            assert(x@ =~= x@.subrange(0, i as int));
            assert(y@ =~= y@.subrange(0, i as int));
        }
        if i == x@.len() && i < y@.len() {
            assert(x@.len() != y@.len());
        }
        if i == y@.len() && i < x@.len() {
            assert(x@.len() != y@.len());
            assert(xs.len() > 0 && ys.len() == 0);
        }
    }
    if x.len() == y.len() {
        0
    } else if x.len() < y.len() {
        -1
    } else {
        1
    }
}

/// Orders two entries by name, byte by byte.
pub fn order_names(a: &DirEntry, b: &DirEntry) -> (r: std::cmp::Ordering)
    ensures
        (r is Less || r is Equal) <==> lex_le(a.name@, b.name@),
        r is Equal <==> a.name@ == b.name@,
{
    let c = lex_compare(a.name.as_slice(), b.name.as_slice());
    if c < 0 {
        std::cmp::Ordering::Less
    } else if c == 0 {
        std::cmp::Ordering::Equal
    } else {
        std::cmp::Ordering::Greater
    }
}

/// Sorts entries by name with std's stable sort (`slice::sort_by`), which
/// the documentation promises yields a permutation in the order the
/// comparison gives; the comparison is [`order_names`], a total order.
#[verifier::external_body]
pub(crate) fn sort_by_name(v: &mut Vec<DirEntry>)
    ensures
        final(v)@.to_multiset() == old(v)@.to_multiset(),
        final(v)@.len() == old(v)@.len(),
        sorted_by_name(final(v)@),
{
    v.sort_by(|a, b| order_names(a, b));
}

} // verus!
