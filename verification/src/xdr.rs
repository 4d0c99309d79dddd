//! XDR (RFC 4506) primitives: big-endian integers, 4-byte alignment and
//! variable-length opaque data.

use vstd::prelude::*;

verus! {

/// Big-endian encoding of a 32-bit unsigned integer.
pub open spec fn u32_bytes(v: u32) -> Seq<u8> {
    seq![
        (v / 0x100_0000) as u8,
        ((v / 0x1_0000) % 0x100) as u8,
        ((v / 0x100) % 0x100) as u8,
        (v % 0x100) as u8,
    ]
}

/// Big-endian encoding of a 64-bit unsigned integer.
pub open spec fn u64_bytes(v: u64) -> Seq<u8> {
    u32_bytes((v / 0x1_0000_0000) as u32) + u32_bytes((v % 0x1_0000_0000) as u32)
}

/// The 32-bit big-endian value stored at `s[i..i+4]`.
pub open spec fn be32(s: Seq<u8>, i: int) -> u32 {
    (s[i] * 0x100_0000int + s[i + 1] * 0x1_0000int + s[i + 2] * 0x100int + s[i + 3]) as u32
}

/// The 64-bit big-endian value stored at `s[i..i+8]`.
pub open spec fn be64(s: Seq<u8>, i: int) -> u64 {
    (be32(s, i) * 0x1_0000_0000int + be32(s, i + 4)) as u64
}

/// `n` rounded up to the next multiple of four.
pub open spec fn pad4(n: int) -> int {
    (n + 3) / 4 * 4
}

/// A run of `n` zero bytes.
pub open spec fn zeros(n: int) -> Seq<u8> {
    Seq::new(n as nat, |i: int| 0u8)
}

/// XDR `opaque<>`: length word, the bytes, then zero padding to a 4-byte boundary.
pub open spec fn opaque_bytes(data: Seq<u8>) -> Seq<u8> {
    u32_bytes(data.len() as u32) + data + zeros(pad4(data.len() as int) - data.len())
}

/// Padding to a 4-byte boundary, computed from the remainder.
pub proof fn lemma_pad_mod(n: int)
    requires
        n >= 0,
    ensures
        pad4(n) - n == (4 - n % 4) % 4,
        pad4(n) >= n,
        pad4(n) < n + 4,
        pad4(n) % 4 == 0,
{
    assert(pad4(n) - n == (4 - n % 4) % 4 && pad4(n) % 4 == 0) by (nonlinear_arith)
        requires n >= 0, pad4(n) == (n + 3) / 4 * 4;
}

/// Decoding a big-endian 32-bit word gives back the encoded value.
pub proof fn lemma_u32_roundtrip(v: u32)
    ensures
        u32_bytes(v).len() == 4,
        be32(u32_bytes(v), 0) == v,
{
    let s = u32_bytes(v);
    assert(s[0] == (v / 0x100_0000) as u8);
    assert(be32(s, 0) == v) by (nonlinear_arith)
        requires
            s[0] == (v / 0x100_0000) as u8,
            s[1] == ((v / 0x1_0000) % 0x100) as u8,
            s[2] == ((v / 0x100) % 0x100) as u8,
            s[3] == (v % 0x100) as u8,
            be32(s, 0) == (s[0] * 0x100_0000int + s[1] * 0x1_0000int + s[2] * 0x100int + s[3]) as u32,
    ;
}

/// Decoding a big-endian 64-bit word gives back the encoded value.
pub proof fn lemma_u64_roundtrip(v: u64)
    ensures
        u64_bytes(v).len() == 8,
        be64(u64_bytes(v), 0) == v,
{
    let hi = (v / 0x1_0000_0000) as u32;
    let lo = (v % 0x1_0000_0000) as u32;
    lemma_u32_roundtrip(hi);
    lemma_u32_roundtrip(lo);
    let s = u64_bytes(v);
    assert(s.subrange(0, 4) =~= u32_bytes(hi));
    assert(s.subrange(4, 8) =~= u32_bytes(lo));
    assert(be32(s, 0) == be32(u32_bytes(hi), 0));
    assert(be32(s, 4) == be32(u32_bytes(lo), 0));
}

/// Big-endian encoding, computed.
pub fn u32_to_be(v: u32) -> (r: [u8; 4])
    ensures
        r@ == u32_bytes(v),
{
    let r = [(v / 0x100_0000) as u8, ((v / 0x1_0000) % 0x100) as u8, ((v / 0x100) % 0x100) as u8, (v % 0x100) as u8];
    assert(r@ =~= u32_bytes(v));
    r
}

/// Reads the big-endian word at `off`; the caller guarantees it is in bounds.
pub fn get_u32(buf: &[u8], off: usize) -> (r: u32)
    requires
        off + 4 <= buf@.len(),
    ensures
        r == be32(buf@, off as int),
{
    let b0 = buf[off] as u32;
    let b1 = buf[off + 1] as u32;
    let b2 = buf[off + 2] as u32;
    let b3 = buf[off + 3] as u32;
    b0 * 0x100_0000 + b1 * 0x1_0000 + b2 * 0x100 + b3
}

/// Reads the big-endian 64-bit word at `off`; the caller guarantees it is in bounds.
pub fn get_u64(buf: &[u8], off: usize) -> (r: u64)
    requires
        off + 8 <= buf@.len(),
    ensures
        r == be64(buf@, off as int),
{
    let _len = buf.len();
    let hi = get_u32(buf, off) as u64;
    let lo = get_u32(buf, off + 4) as u64;
    hi * 0x1_0000_0000 + lo
}

/// Whether `n` more bytes are available at `off` in a buffer of length `len`
/// (computed without overflow).
pub open spec fn fits(len: int, off: int, n: int) -> bool {
    off + n <= len
}

/// Reads the big-endian word at `off`, or `None` past the end of the buffer.
pub fn read_u32(buf: &[u8], off: usize) -> (r: Option<u32>)
    ensures
        r == (if off + 4 <= buf@.len() { Some(be32(buf@, off as int)) } else { None::<u32> }),
{
    if off <= buf.len() && buf.len() - off >= 4 {
        Some(get_u32(buf, off))
    } else {
        None
    }
}

/// Reads the big-endian 64-bit word at `off`, or `None` past the end of the buffer.
pub fn read_u64(buf: &[u8], off: usize) -> (r: Option<u64>)
    ensures
        r == (if off + 8 <= buf@.len() { Some(be64(buf@, off as int)) } else { None::<u64> }),
{
    if off <= buf.len() && buf.len() - off >= 8 {
        Some(get_u64(buf, off))
    } else {
        None
    }
}

/// `n` rounded up to a multiple of four, or `None` if that overflows.
pub fn checked_pad4(n: usize) -> (r: Option<usize>)
    ensures
        r == (if n + 3 <= usize::MAX { Some(pad4(n as int) as usize) } else { None::<usize> }),
{
    if n <= usize::MAX - 3 {
        Some((n + 3) / 4 * 4)
    } else {
        None
    }
}

/// Appends the big-endian encoding of `v`.
pub fn put_u32(out: &mut Vec<u8>, v: u32)
    ensures
        final(out)@ == old(out)@ + u32_bytes(v),
{
    out.push((v / 0x100_0000) as u8);
    out.push(((v / 0x1_0000) % 0x100) as u8);
    out.push(((v / 0x100) % 0x100) as u8);
    out.push((v % 0x100) as u8);
    assert(out@ =~= old(out)@ + u32_bytes(v));
}

/// Appends the big-endian encoding of a 64-bit `v`.
pub fn put_u64(out: &mut Vec<u8>, v: u64)
    ensures
        final(out)@ == old(out)@ + u64_bytes(v),
{
    put_u32(out, (v / 0x1_0000_0000) as u32);
    put_u32(out, (v % 0x1_0000_0000) as u32);
    assert(out@ =~= old(out)@ + u64_bytes(v));
}

/// Appends raw bytes.
pub fn put_bytes(out: &mut Vec<u8>, data: &[u8])
    ensures
        final(out)@ == old(out)@ + data@,
{
    let mut i: usize = 0;
    while i < data.len()
        invariant
            i <= data@.len(),
            out@ == old(out)@ + data@.subrange(0, i as int),
        decreases data@.len() - i,
    {
        out.push(data[i]);
        i += 1;
        assert(out@ =~= old(out)@ + data@.subrange(0, i as int));
    }
    assert(data@.subrange(0, data@.len() as int) =~= data@);
}

/// Appends `n` zero bytes.
pub fn put_zeros(out: &mut Vec<u8>, n: usize)
    ensures
        final(out)@ == old(out)@ + zeros(n as int),
{
    let mut i: usize = 0;
    while i < n
        invariant
            i <= n,
            out@ == old(out)@ + zeros(i as int),
        decreases n - i,
    {
        out.push(0u8);
        i += 1;
        assert(out@ =~= old(out)@ + zeros(i as int));
    }
}

/// Appends `data` as XDR `opaque<>`.
pub fn put_opaque(out: &mut Vec<u8>, data: &[u8])
    ensures
        final(out)@ == old(out)@ + opaque_bytes(data@),
{
    let n = data.len();
    put_u32(out, n as u32);
    put_bytes(out, data);
    let pad = (4 - n % 4) % 4;
    proof { lemma_pad_mod(n as int); }
    put_zeros(out, pad);
    assert(out@ =~= old(out)@ + opaque_bytes(data@));
}

/// Whether two byte strings are equal.
pub fn bytes_eq(a: &[u8], b: &[u8]) -> (r: bool)
    ensures
        r == (a@ == b@),
{
    if a.len() != b.len() {
        return false;
    }
    let mut i: usize = 0;
    while i < a.len()
        invariant
            i <= a@.len(),
            a@.len() == b@.len(),
            forall|k: int| 0 <= k < i ==> a@[k] == b@[k],
        decreases a@.len() - i,
    {
        if a[i] != b[i] {
            return false;
        }
        i += 1;
    }
    assert(a@ =~= b@);
    true
}

/// Copies `buf[start..start+len]` into a new vector.
pub fn copy_range(buf: &[u8], start: usize, len: usize) -> (r: Vec<u8>)
    requires
        start + len <= buf@.len(),
    ensures
        r@ == buf@.subrange(start as int, start + len),
{
    let _len = buf.len();
    let mut r: Vec<u8> = Vec::new();
    let mut i: usize = 0;
    while i < len
        invariant
            i <= len,
            start + len <= buf@.len(),
            buf@.len() == _len,
            r@ == buf@.subrange(start as int, start + i),
        decreases len - i,
    {
        r.push(buf[start + i]);
        i += 1;
        assert(r@ =~= buf@.subrange(start as int, start + i));
    }
    r
}


/// An XDR `opaque<>` starts at `pos`: its length word and its bytes lie
/// inside `s` (the padding need not).
pub open spec fn opaque_fits(s: Seq<u8>, pos: int) -> bool {
    pos + 4 <= s.len() && pos + 4 + be32(s, pos) <= s.len()
}

/// The bytes of the `opaque<>` at `pos`.
pub open spec fn opaque_data(s: Seq<u8>, pos: int) -> Seq<u8> {
    s.subrange(pos + 4, pos + 4 + be32(s, pos))
}

/// Offset just past the `opaque<>` at `pos`, padding included.
pub open spec fn opaque_end(s: Seq<u8>, pos: int) -> int {
    pos + 4 + pad4(be32(s, pos) as int)
}

/// Reads the `opaque<>` at `pos`: its bytes and the (clamped) offset past
/// it, or `None` when it does not fit.
pub fn read_opaque(buf: &[u8], pos: usize) -> (r: Option<(Vec<u8>, usize)>)
    ensures
        r is Some <==> opaque_fits(buf@, pos as int),
        r matches Some((d, e)) ==> d@ == opaque_data(buf@, pos as int)
            && e == crate::rpc::clamp(opaque_end(buf@, pos as int)),
{
    match skip_opaque(buf, pos) {
        None => None,
        Some(e) => {
            let l = buf.len();
            assert(pos + 4 <= l);
            let n = get_u32(buf, pos) as usize;
            Some((copy_range(buf, pos + 4, n), e))
        }
    }
}

/// The (clamped) offset past the `opaque<>` at `pos`, or `None` when it
/// does not fit.
pub fn skip_opaque(buf: &[u8], pos: usize) -> (r: Option<usize>)
    ensures
        r is Some <==> opaque_fits(buf@, pos as int),
        r matches Some(e) ==> e == crate::rpc::clamp(opaque_end(buf@, pos as int)),
{
    if pos > buf.len() || buf.len() - pos < 4 {
        return None;
    }
    let n = get_u32(buf, pos) as usize;
    if buf.len() - pos - 4 < n {
        return None;
    }
    let end = pos + 4 + n;
    let pad = (4 - n % 4) % 4;
    proof { lemma_pad_mod(n as int); }
    if pad <= usize::MAX - end {
        Some(end + pad)
    } else {
        Some(usize::MAX)
    }
}

/// Adds two offsets, saturating at `usize::MAX`.
pub fn add_clamped(a: usize, b: u64) -> (r: usize)
    ensures
        r == crate::rpc::clamp(a + b),
{
    if b <= (usize::MAX - a) as u64 {
        a + b as usize
    } else {
        usize::MAX
    }
}

} // verus!
