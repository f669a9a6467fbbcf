use vstd::prelude::*;

verus! {

/// Value of a byte sequence read big-endian.
pub open spec fn be_bytes_to_nat(s: Seq<u8>) -> nat
    decreases s.len(),
{
    if s.len() == 0 {
        0
    } else {
        be_bytes_to_nat(s.drop_last()) * 256 + s.last() as nat
    }
}

/// Number of values an `n`-byte sequence can take.
pub open spec fn pow256(n: nat) -> nat
    decreases n,
{
    if n == 0 {
        1
    } else {
        256 * pow256((n - 1) as nat)
    }
}

pub proof fn lemma_pow256_increases(a: nat, b: nat)
    requires
        a <= b,
    ensures
        pow256(a) <= pow256(b),
    decreases b,
{
    if a < b && b > 0 {
        lemma_pow256_increases(a, (b - 1) as nat);
    }
}

/// A global adapter address: sixteen raw bytes, exchanged bit-exact during
/// bootstrap. The two eight-byte halves are read big-endian, whatever the
/// native byte order is.
#[derive(Clone, Copy, Debug, PartialEq, Eq)]
pub struct Gid {
    pub raw: [u8; 16],
}

/// Big-endian value of eight bytes of `raw` starting at `start`.
fn be_u64_at(raw: &[u8; 16], start: usize) -> (r: u64)
    requires
        start + 8 <= 16,
    ensures
        r == be_bytes_to_nat(raw@.subrange(start as int, start as int + 8)),
{
    let mut acc: u64 = 0;
    let mut i: usize = 0;
    while i < 8
        invariant
            start + 8 <= 16,
            i <= 8,
            acc == be_bytes_to_nat(raw@.subrange(start as int, start as int + i)),
            acc < pow256(i as nat),
        decreases 8 - i,
    {
        proof {
            lemma_pow256_increases(i as nat, 7);
            assert(pow256(0) == 1);
            assert(pow256(1) == 256);
            assert(pow256(2) == 0x10000);
            assert(pow256(3) == 0x1000000);
            assert(pow256(4) == 0x100000000);
            assert(pow256(5) == 0x10000000000);
            assert(pow256(6) == 0x1000000000000);
            assert(pow256(7) == 0x100000000000000);
            let whole = raw@.subrange(start as int, start as int + i + 1);
            assert(whole.drop_last() =~= raw@.subrange(start as int, start as int + i));
            assert(whole.last() == raw@[start as int + i]);
        }
        acc = acc * 256 + (raw[start + i] as u64);
        i = i + 1;
    }
    acc
}

impl Gid {
    /// The first eight bytes, read big-endian.
    pub open spec fn spec_subnet_prefix(self) -> nat {
        be_bytes_to_nat(self.raw@.subrange(0, 8))
    }

    /// The last eight bytes, read big-endian.
    pub open spec fn spec_interface_id(self) -> nat {
        be_bytes_to_nat(self.raw@.subrange(8, 16))
    }

    pub fn subnet_prefix(&self) -> (r: u64)
        ensures
            r == self.spec_subnet_prefix(),
    {
        be_u64_at(&self.raw, 0)
    }

    pub fn interface_id(&self) -> (r: u64)
        ensures
            r == self.spec_interface_id(),
    {
        be_u64_at(&self.raw, 8)
    }
}

impl Default for Gid {
    /// The all-zero address, the placeholder before bootstrap.
    fn default() -> (r: Self)
        ensures
            r.raw@ == Seq::new(16, |i: int| 0u8),
    {
        let r = Gid { raw: [0u8; 16] };
        proof {
            assert(r.raw@ =~= Seq::new(16, |i: int| 0u8));
        }
        r
    }
}

} // verus!
