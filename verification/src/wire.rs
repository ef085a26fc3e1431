//! Little-endian fields of wire records.

use vstd::prelude::*;

verus! {

/// The little-endian 16-bit field at `off`.
pub open spec fn le16_at(b: Seq<u8>, off: int) -> int {
    b[off] + b[off + 1] * 0x100
}

/// The little-endian 32-bit field at `off`.
pub open spec fn le32_at(b: Seq<u8>, off: int) -> int {
    le16_at(b, off) + le16_at(b, off + 2) * 0x1_0000
}

/// The little-endian 64-bit field at `off`.
pub open spec fn le64_at(b: Seq<u8>, off: int) -> int {
    le32_at(b, off) + le32_at(b, off + 4) * 0x1_0000_0000
}

/// The `n` little-endian bytes of `v`.
pub open spec fn le_bytes(v: int, n: nat) -> Seq<u8>
    decreases n,
{
    if n == 0 {
        seq![]
    } else {
        seq![(v % 0x100) as u8] + le_bytes(v / 0x100, (n - 1) as nat)
    }
}

/// `b` with `src` laid over it at `off`.
pub open spec fn put(b: Seq<u8>, off: int, src: Seq<u8>) -> Seq<u8> {
    b.subrange(0, off) + src + b.subrange(off + src.len(), b.len() as int)
}

/// Read the little-endian 16-bit field at `off`.
pub fn le16(b: &[u8], off: usize) -> (v: u16)
    requires
        off + 2 <= b.len(),
    ensures
        v == le16_at(b@, off as int),
{
    b[off] as u16 + b[off + 1] as u16 * 0x100
}

/// Read the little-endian 32-bit field at `off`.
pub fn le32(b: &[u8], off: usize) -> (v: u32)
    requires
        off + 4 <= b.len(),
    ensures
        v == le32_at(b@, off as int),
{
    le16(b, off) as u32 + le16(b, off + 2) as u32 * 0x1_0000
}

/// Read the little-endian 64-bit field at `off`.
pub fn le64(b: &[u8], off: usize) -> (v: u64)
    requires
        off + 8 <= b.len(),
    ensures
        v == le64_at(b@, off as int),
{
    le32(b, off) as u64 + le32(b, off + 4) as u64 * 0x1_0000_0000
}

/// Write the two little-endian bytes of `v` at `off`.
pub fn set_le16<const N: usize>(b: &mut [u8; N], off: usize, v: u16)
    requires
        off + 2 <= N,
    ensures
        final(b)@ == old(b)@.update(off as int, (v % 0x100) as u8).update(
            off + 1,
            (v / 0x100) as u8,
        ),
{
    b[off] = (v % 0x100) as u8;
    b[off + 1] = (v / 0x100) as u8;
}

/// Append the `n` low bytes of `v`, least significant first.
pub fn push_le(out: &mut Vec<u8>, v: u64, n: usize)
    requires
        n <= 8,
    ensures
        final(out)@ == old(out)@ + le_bytes(v as int, n as nat),
{
    let ghost start = out@;
    let mut rest: u64 = v;
    let mut i: usize = 0;
    assert(start + le_bytes(v as int, n as nat) == out@ + le_bytes(rest as int, n as nat));
    while i < n
        invariant
            i <= n,
            start + le_bytes(v as int, n as nat) == out@ + le_bytes(rest as int, (n - i) as nat),
        decreases n - i,
    {
        let ghost before = out@;
        let ghost r0 = rest as int;
        out.push((rest % 0x100) as u8);
        rest = rest / 0x100;
        i += 1;
        proof {
            let tail = le_bytes(rest as int, (n - i) as nat);
            assert(before + (seq![(r0 % 0x100) as u8] + tail) =~= out@ + tail);
        }
    }
    assert(out@ + le_bytes(rest as int, 0) =~= out@);
}

/// Two little-endian bytes read back as the value they came from.
pub proof fn lemma_le2(v: int)
    requires
        0 <= v < 0x1_0000,
    ensures
        le_bytes(v, 2) == seq![(v % 0x100) as u8, (v / 0x100) as u8],
        le16_at(le_bytes(v, 2), 0) == v,
{
    reveal_with_fuel(le_bytes, 3);
    assert((v / 0x100) % 0x100 == v / 0x100);
    assert(le_bytes(v, 2) =~= seq![(v % 0x100) as u8, (v / 0x100) as u8]);
}

/// Four little-endian bytes read back as the value they came from.
pub proof fn lemma_le4(v: int)
    requires
        0 <= v < 0x1_0000_0000,
    ensures
        le_bytes(v, 4).len() == 4,
        le32_at(le_bytes(v, 4), 0) == v,
{
    reveal_with_fuel(le_bytes, 5);
    let a = v / 0x100;
    let b = a / 0x100;
    let c = b / 0x100;
    assert(c % 0x100 == c);
    assert(le_bytes(v, 4) =~= seq![
        (v % 0x100) as u8,
        (a % 0x100) as u8,
        (b % 0x100) as u8,
        (c % 0x100) as u8,
    ]);
}

/// Eight little-endian bytes read back as the value they came from.
pub proof fn lemma_le8(v: int)
    requires
        0 <= v < 0x1_0000_0000_0000_0000,
    ensures
        le_bytes(v, 8).len() == 8,
        le64_at(le_bytes(v, 8), 0) == v,
{
    reveal_with_fuel(le_bytes, 9);
    let a = v / 0x100;
    let b = a / 0x100;
    let c = b / 0x100;
    let d = c / 0x100;
    let e = d / 0x100;
    let f = e / 0x100;
    let g = f / 0x100;
    assert(g % 0x100 == g);
    assert(le_bytes(v, 8) =~= seq![
        (v % 0x100) as u8,
        (a % 0x100) as u8,
        (b % 0x100) as u8,
        (c % 0x100) as u8,
        (d % 0x100) as u8,
        (e % 0x100) as u8,
        (f % 0x100) as u8,
        (g % 0x100) as u8,
    ]);
}

pub proof fn lemma_le_len(v: int, n: nat)
    ensures
        le_bytes(v, n).len() == n,
    decreases n,
{
    if n > 0 {
        lemma_le_len(v / 0x100, (n - 1) as nat);
    }
}

/// `n` zero bytes.
pub open spec fn zeros(n: nat) -> Seq<u8> {
    Seq::new(n, |i: int| 0u8)
}

/// Append `n` zero bytes.
pub fn push_zeros(out: &mut Vec<u8>, n: usize)
    ensures
        final(out)@ == old(out)@ + zeros(n as nat),
{
    let ghost start = out@;
    let mut i: usize = 0;
    assert(start + zeros(0) =~= start);
    while i < n
        invariant
            i <= n,
            out@ == start + zeros(i as nat),
        decreases n - i,
    {
        out.push(0);
        i += 1;
        assert(out@ =~= start + zeros(i as nat));
    }
}

/// Lay `src` over `buf` at `off`.
pub fn store(buf: &mut Vec<u8>, off: usize, src: &[u8])
    requires
        off + src.len() <= old(buf).len(),
    ensures
        final(buf)@ == put(old(buf)@, off as int, src@),
        final(buf).len() == old(buf).len(),
{
    let ghost pre = buf@;
    let n: usize = src.len();
    let mut i: usize = 0;
    while i < n
        invariant
            i <= n,
            n == src.len(),
            off + n <= pre.len(),
            buf.len() == pre.len(),
            forall|k: int| 0 <= k < pre.len() && !(off <= k < off + i) ==> buf@[k] == pre[k],
            forall|k: int| off <= k < off + i ==> buf@[k] == src@[k - off],
        decreases n - i,
    {
        buf.set(off + i, src[i]);
        i += 1;
    }
    assert(buf@ =~= put(pre, off as int, src@));
}

} // verus!
