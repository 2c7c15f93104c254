//! Little-endian encoding of machine words, as laid out in user memory.
use vstd::prelude::*;

verus! {

/// The `n` low-order bytes of `x`, least significant first.
pub open spec fn le_bytes(x: nat, n: nat) -> Seq<u8>
    decreases n,
{
    if n == 0 {
        Seq::empty()
    } else {
        seq![(x % 256) as u8].add(le_bytes(x / 256, (n - 1) as nat))
    }
}

/// Appends the `n` low-order bytes of `x` to `out`, least significant first.
pub fn push_le(out: &mut Vec<u8>, x: u64, n: usize)
    requires
        n <= 8,
    ensures
        final(out)@ == old(out)@ + le_bytes(x as nat, n as nat),
{
    let mut v: u64 = x;
    let mut j: usize = 0;
    while j < n
        invariant
            j <= n,
            out@ + le_bytes(v as nat, (n - j) as nat) == old(out)@ + le_bytes(x as nat, n as nat),
        decreases n - j,
    {
        let ghost before = out@;
        out.push((v % 256) as u8);
        proof {
            assert(le_bytes(v as nat, (n - j) as nat) == seq![(v % 256) as u8].add(
                le_bytes((v / 256) as nat, (n - j - 1) as nat),
            ));
            assert(out@ + le_bytes((v / 256) as nat, (n - j - 1) as nat) =~= before + le_bytes(
                v as nat,
                (n - j) as nat,
            ));
        }
        v = v / 256;
        j = j + 1;
    }
    assert(le_bytes(v as nat, 0) =~= Seq::<u8>::empty());
    assert(out@ =~= out@ + le_bytes(v as nat, 0));
}

} // verus!
