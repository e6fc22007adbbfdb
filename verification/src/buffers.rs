//! Byte-buffer helpers shared by the header parsers: little-endian fields,
//! range copies and XOR masks.
use vstd::prelude::*;

verus! {

/// The little-endian `u32` stored at `off` in `s`.
pub open spec fn le_u32(s: Seq<u8>, off: int) -> u32 {
    (s[off] as int + s[off + 1] as int * 0x100 + s[off + 2] as int * 0x10000 + s[off + 3] as int
        * 0x1000000) as u32
}

/// `dst` with the bytes from `off` on replaced by `src`.
pub open spec fn overwrite(dst: Seq<u8>, off: int, src: Seq<u8>) -> Seq<u8> {
    dst.subrange(0, off) + src + dst.subrange(off + src.len(), dst.len() as int)
}

/// `s` with `s[off + j] ^= key[koff + j]` for `j < n`.
pub open spec fn xor_range(s: Seq<u8>, off: int, key: Seq<u8>, koff: int, n: int) -> Seq<u8> {
    Seq::new(
        s.len(),
        |j: int|
            if off <= j < off + n {
                s[j] ^ key[koff + j - off]
            } else {
                s[j]
            },
    )
}

/// `s` with `s[off + j] ^= key[j % key.len()]` for `j < n` (a repeating key).
pub open spec fn xor_cyclic(s: Seq<u8>, off: int, key: Seq<u8>, n: int) -> Seq<u8> {
    Seq::new(
        s.len(),
        |j: int|
            if off <= j < off + n {
                s[j] ^ key[(j - off) % (key.len() as int)]
            } else {
                s[j]
            },
    )
}

/// `src[soff + j] ^ key[koff + j]` for `j < n`.
pub open spec fn xor_seq(src: Seq<u8>, soff: int, key: Seq<u8>, koff: int, n: nat) -> Seq<u8> {
    Seq::new(n, |j: int| src[soff + j] ^ key[koff + j])
}

/// The first `n` bytes of `s`, as a sequence of exactly `n` bytes (all of
/// `s` when it is `n` bytes long).
pub open spec fn first_bytes(s: Seq<u8>, n: nat) -> Seq<u8> {
    Seq::new(n, |i: int| s[i])
}

/// A sequence of `n` zero bytes.
pub open spec fn zeros(n: nat) -> Seq<u8> {
    Seq::new(n, |j: int| 0u8)
}

/// Reads the little-endian `u32` at `off`.
pub fn read_u32_le(buf: &[u8], off: usize) -> (r: u32)
    requires
        off + 4 <= buf@.len(),
    ensures
        r == le_u32(buf@, off as int),
{
    let b0 = buf[off] as u32;
    let b1 = buf[off + 1] as u32;
    let b2 = buf[off + 2] as u32;
    let b3 = buf[off + 3] as u32;
    b0 + b1 * 0x100 + b2 * 0x10000 + b3 * 0x1000000
}

/// Copies `src[src_off..src_off + n]` into `dst[dst_off..dst_off + n]`.
pub fn copy_into(dst: &mut [u8], dst_off: usize, src: &[u8], src_off: usize, n: usize)
    requires
        dst_off + n <= old(dst)@.len(),
        src_off + n <= src@.len(),
    ensures
        final(dst)@ == overwrite(old(dst)@, dst_off as int, src@.subrange(src_off as int, src_off + n)),
{
    let ghost d0 = dst@;
    let dlen = dst.len();
    let slen = src.len();
    let mut i: usize = 0;
    while i < n
        invariant
            i <= n,
            dlen == d0.len(),
            slen == src@.len(),
            dst_off + n <= d0.len(),
            src_off + n <= src@.len(),
            dst@.len() == d0.len(),
            forall|j: int| 0 <= j < dst_off ==> dst@[j] == d0[j],
            forall|j: int| dst_off + i <= j < d0.len() ==> dst@[j] == d0[j],
            forall|j: int| dst_off <= j < dst_off + i ==> dst@[j] == src@[src_off + j - dst_off],
        decreases n - i,
    {
        dst[dst_off + i] = src[src_off + i];
        i = i + 1;
    }
    assert(dst@ =~= overwrite(d0, dst_off as int, src@.subrange(src_off as int, src_off + n)));
}

/// XORs `buf[off + j]` with `key[koff + j]` for `j < n`.
pub fn xor_into(buf: &mut [u8], off: usize, key: &[u8], koff: usize, n: usize)
    requires
        off + n <= old(buf)@.len(),
        koff + n <= key@.len(),
    ensures
        final(buf)@ == xor_range(old(buf)@, off as int, key@, koff as int, n as int),
{
    let ghost b0 = buf@;
    let blen = buf.len();
    let klen = key.len();
    let mut i: usize = 0;
    while i < n
        invariant
            i <= n,
            blen == b0.len(),
            klen == key@.len(),
            off + n <= b0.len(),
            koff + n <= key@.len(),
            buf@.len() == b0.len(),
            forall|j: int| 0 <= j < b0.len() ==> buf@[j] == (if off <= j < off + i {
                b0[j] ^ key@[koff + j - off]
            } else {
                b0[j]
            }),
        decreases n - i,
    {
        buf[off + i] = buf[off + i] ^ key[koff + i];
        i = i + 1;
    }
    assert(buf@ =~= xor_range(b0, off as int, key@, koff as int, n as int));
}

/// XORs `buf[off + j]` with `key[j % key.len()]` for `j < n`.
pub fn xor_cyclic_into(buf: &mut [u8], off: usize, key: &[u8], n: usize)
    requires
        off + n <= old(buf)@.len(),
        key@.len() > 0,
    ensures
        final(buf)@ == xor_cyclic(old(buf)@, off as int, key@, n as int),
{
    let ghost b0 = buf@;
    let blen = buf.len();
    let klen = key.len();
    let mut i: usize = 0;
    while i < n
        invariant
            i <= n,
            blen == b0.len(),
            off + n <= b0.len(),
            klen == key@.len(),
            klen > 0,
            buf@.len() == b0.len(),
            forall|j: int| 0 <= j < b0.len() ==> buf@[j] == (if off <= j < off + i {
                b0[j] ^ key@[(j - off) % (klen as int)]
            } else {
                b0[j]
            }),
        decreases n - i,
    {
        buf[off + i] = buf[off + i] ^ key[i % klen];
        i = i + 1;
    }
    assert(buf@ =~= xor_cyclic(b0, off as int, key@, n as int));
}

/// Writes `src[soff + j] ^ key[koff + j]` into `dst[doff + j]` for `j < n`.
pub fn xor_copy_into(
    dst: &mut [u8],
    doff: usize,
    src: &[u8],
    soff: usize,
    key: &[u8],
    koff: usize,
    n: usize,
)
    requires
        doff + n <= old(dst)@.len(),
        soff + n <= src@.len(),
        koff + n <= key@.len(),
    ensures
        final(dst)@ == overwrite(
            old(dst)@,
            doff as int,
            xor_seq(src@, soff as int, key@, koff as int, n as nat),
        ),
{
    let ghost d0 = dst@;
    let dlen = dst.len();
    let slen = src.len();
    let klen = key.len();
    let mut i: usize = 0;
    while i < n
        invariant
            i <= n,
            dlen == d0.len(),
            slen == src@.len(),
            klen == key@.len(),
            doff + n <= d0.len(),
            soff + n <= src@.len(),
            koff + n <= key@.len(),
            dst@.len() == d0.len(),
            forall|j: int| 0 <= j < doff ==> dst@[j] == d0[j],
            forall|j: int| doff + i <= j < d0.len() ==> dst@[j] == d0[j],
            forall|j: int|
                doff <= j < doff + i ==> dst@[j] == src@[soff + j - doff] ^ key@[koff + j - doff],
        decreases n - i,
    {
        dst[doff + i] = src[soff + i] ^ key[koff + i];
        i = i + 1;
    }
    assert(dst@ =~= overwrite(d0, doff as int, xor_seq(src@, soff as int, key@, koff as int, n as nat)));
}

/// A copy of `src[start..end]` as a vector.
pub fn slice_to_vec(src: &[u8], start: usize, end: usize) -> (r: Vec<u8>)
    requires
        start <= end <= src@.len(),
    ensures
        r@ == src@.subrange(start as int, end as int),
{
    let mut r: Vec<u8> = Vec::new();
    let mut i = start;
    while i < end
        invariant
            start <= i <= end,
            end <= src@.len(),
            r@ == src@.subrange(start as int, i as int),
        decreases end - i,
    {
        r.push(src[i]);
        i = i + 1;
        assert(r@ =~= src@.subrange(start as int, i as int));
    }
    r
}

/// Appends `src[start..end]` to `v`.
pub fn append_range(v: &mut Vec<u8>, src: &[u8], start: usize, end: usize)
    requires
        start <= end <= src@.len(),
    ensures
        final(v)@ == old(v)@ + src@.subrange(start as int, end as int),
{
    let ghost v0 = v@;
    let mut i = start;
    while i < end
        invariant
            start <= i <= end,
            end <= src@.len(),
            v@ == v0 + src@.subrange(start as int, i as int),
        decreases end - i,
    {
        v.push(src[i]);
        i = i + 1;
        assert(v@ =~= v0 + src@.subrange(start as int, i as int));
    }
}

/// Whether `a[a_off..a_off + n]` and `b[b_off..b_off + n]` hold the same bytes.
pub fn range_eq(a: &[u8], a_off: usize, b: &[u8], b_off: usize, n: usize) -> (r: bool)
    requires
        a_off + n <= a@.len(),
        b_off + n <= b@.len(),
    ensures
        r == (a@.subrange(a_off as int, a_off + n) == b@.subrange(b_off as int, b_off + n)),
{
    let ghost sa = a@.subrange(a_off as int, a_off + n);
    let ghost sb = b@.subrange(b_off as int, b_off + n);
    let alen = a.len();
    let blen = b.len();
    let mut i: usize = 0;
    while i < n
        invariant
            i <= n,
            alen == a@.len(),
            blen == b@.len(),
            a_off + n <= a@.len(),
            b_off + n <= b@.len(),
            sa == a@.subrange(a_off as int, a_off + n),
            sb == b@.subrange(b_off as int, b_off + n),
            forall|j: int| 0 <= j < i ==> sa[j] == sb[j],
        decreases n - i,
    {
        if a[a_off + i] != b[b_off + i] {
            assert(sa[i as int] != sb[i as int]);
            return false;
        }
        i = i + 1;
    }
    assert(sa =~= sb);
    true
}

/// Whether two byte slices hold the same bytes.
pub fn same_bytes(a: &[u8], b: &[u8]) -> (r: bool)
    ensures
        r == (a@ == b@),
{
    if a.len() != b.len() {
        return false;
    }
    let n = a.len();
    let mut i: usize = 0;
    while i < n
        invariant
            i <= n,
            n == a@.len(),
            n == b@.len(),
            forall|j: int| 0 <= j < i ==> a@[j] == b@[j],
        decreases n - i,
    {
        if a[i] != b[i] {
            return false;
        }
        i = i + 1;
    }
    assert(a@ =~= b@);
    true
}

} // verus!
