//! CRC-32C, the digest of NVMe/TCP headers and data.

use vstd::prelude::*;

use crate::pool::SegSink;

verus! {

/// The reflected polynomial.
pub const POLY: u32 = 0x82F6_3B78;

/// One bit of the register shifted out.
pub open spec fn crc_bit(c: u32) -> u32 {
    if c % 2 == 1 {
        (c / 2) ^ POLY
    } else {
        c / 2
    }
}

/// `n` bits of the register shifted out.
pub open spec fn crc_bits(c: u32, n: nat) -> u32
    decreases n,
{
    if n == 0 {
        c
    } else {
        crc_bit(crc_bits(c, (n - 1) as nat))
    }
}

/// The register after the bytes `s`.
pub open spec fn crc_bytes(c: u32, s: Seq<u8>) -> u32
    decreases s.len(),
{
    if s.len() == 0 {
        c
    } else {
        crc_bits(crc_bytes(c, s.drop_last()) ^ (s.last() as u32), 8)
    }
}

/// The digest of `s`.
pub open spec fn crc_of(s: Seq<u8>) -> u32 {
    crc_bytes(0xFFFF_FFFF, s) ^ 0xFFFF_FFFF
}

/// Feeding bytes in two parts is feeding them at once.
pub proof fn crc_splits(c: u32, a: Seq<u8>, b: Seq<u8>)
    ensures
        crc_bytes(c, a + b) == crc_bytes(crc_bytes(c, a), b),
    decreases b.len(),
{
    if b.len() == 0 {
        assert(a + b =~= a);
    } else {
        assert((a + b).drop_last() =~= a + b.drop_last());
        crc_splits(c, a, b.drop_last());
    }
}

/// A digest in the making.
#[derive(Debug, Clone, Copy, PartialEq, Eq, Structural)]
pub struct Crc32c {
    pub state: u32,
}

impl Crc32c {
    /// A digest of nothing yet.
    pub open spec fn fresh() -> Crc32c {
        Crc32c { state: 0xFFFF_FFFF }
    }

    /// The digest after the bytes `s`.
    pub open spec fn fed(self, s: Seq<u8>) -> Crc32c {
        Crc32c { state: crc_bytes(self.state, s) }
    }

    /// The digest's value.
    pub open spec fn sum(self) -> u32 {
        self.state ^ 0xFFFF_FFFF
    }

    pub fn new() -> (c: Crc32c)
        ensures
            c == Crc32c::fresh(),
    {
        Crc32c { state: 0xFFFF_FFFF }
    }

    /// Feed bytes.
    pub fn update(&mut self, s: &[u8])
        ensures
            *final(self) == old(self).fed(s@),
    {
        let ghost start = self.state;
        let mut i: usize = 0;
        assert(s@.subrange(0, 0) =~= seq![]);
        while i < s.len()
            invariant
                i <= s@.len(),
                self.state == crc_bytes(start, s@.subrange(0, i as int)),
            decreases s@.len() - i,
        {
            let ghost before = s@.subrange(0, i as int);
            let mut c: u32 = self.state ^ (s[i] as u32);
            let ghost c0 = c;
            let mut k: usize = 0;
            while k < 8
                invariant
                    k <= 8,
                    c == crc_bits(c0, k as nat),
                decreases 8 - k,
            {
                c = if c % 2 == 1 {
                    (c / 2) ^ POLY
                } else {
                    c / 2
                };
                k += 1;
            }
            self.state = c;
            i += 1;
            assert(s@.subrange(0, i as int).drop_last() =~= before);
        }
        assert(s@.subrange(0, s@.len() as int) =~= s@);
    }

    /// The digest.
    pub fn finalize(&self) -> (d: u32)
        ensures
            d == self.sum(),
    {
        self.state ^ 0xFFFF_FFFF
    }
}

/// A sink that keeps only the digest of what it is handed.
pub struct SumSink {
    crc: Crc32c,
    start: Ghost<Crc32c>,
    fed: Ghost<Seq<u8>>,
}

impl SumSink {
    #[verifier::type_invariant]
    closed spec fn summed(self) -> bool {
        self.crc == self.start@.fed(self.fed@)
    }

    /// A sink that goes on from `crc`.
    pub fn new(crc: Crc32c) -> (s: SumSink)
        ensures
            s.seen() == Seq::<u8>::empty(),
            s.origin() == crc.state,
    {
        SumSink { crc, start: Ghost(crc), fed: Ghost(Seq::empty()) }
    }

    /// The digest of everything handed over.
    pub fn crc(&self) -> (c: Crc32c)
        ensures
            c == (Crc32c { state: self.origin() as u32 }).fed(self.seen()),
    {
        proof {
            use_type_invariant(self);
        }
        self.crc
    }
}

impl SegSink for SumSink {
    closed spec fn seen(&self) -> Seq<u8> {
        self.fed@
    }

    closed spec fn origin(&self) -> int {
        self.start@.state as int
    }

    fn visit(&mut self, chunk: &[u8]) {
        proof {
            use_type_invariant(&*self);
            crc_splits(self.start@.state, self.fed@, chunk@);
        }
        let mut crc = self.crc;
        crc.update(chunk);
        *self = SumSink { crc, start: self.start, fed: Ghost(self.fed@ + chunk@) };
    }
}

/// The digest of `s`.
pub fn crc32c(s: &[u8]) -> (d: u32)
    ensures
        d == crc_of(s@),
{
    let mut c = Crc32c::new();
    c.update(s);
    c.finalize()
}

} // verus!
