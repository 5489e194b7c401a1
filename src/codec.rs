//! Little-endian byte images of the integers that make up user records.
use vstd::prelude::*;

verus! {

/// The `n` low bytes of `x`, least significant first.
pub open spec fn le_bytes(x: nat, n: nat) -> Seq<u8>
    decreases n,
{
    if n == 0 {
        Seq::empty()
    } else {
        seq![(x % 256) as u8] + le_bytes(x / 256, (n - 1) as nat)
    }
}

/// Appends the `n` low bytes of `x` to `out`, least significant first.
pub fn push_le(out: &mut Vec<u8>, x: u64, n: usize)
    requires
        n <= 8,
    ensures
        final(out)@ == old(out)@ + le_bytes(x as nat, n as nat),
{
    let ghost start = out@;
    let mut v: u64 = x;
    let mut k: usize = 0;
    while k < n
        invariant
            k <= n,
            out@ + le_bytes(v as nat, (n - k) as nat) == start + le_bytes(x as nat, n as nat),
        decreases n - k,
    {
        let ghost rest = le_bytes((v / 256) as nat, (n - k - 1) as nat);
        assert(le_bytes(v as nat, (n - k) as nat) == seq![(v % 256) as u8] + rest);
        out.push((v % 256) as u8);
        v = v / 256;
        k = k + 1;
        assert(out@ + rest == start + le_bytes(x as nat, n as nat)) by {
            broadcast use vstd::seq_lib::group_seq_properties;
        }
    }
    assert(le_bytes(v as nat, 0) == Seq::<u8>::empty());
    assert(out@ == out@ + Seq::<u8>::empty());
}

} // verus!
