use vstd::prelude::*;

verus! {

/// The little-endian number held by the `n` bytes of `b` from `off`.
pub open spec fn le_bytes(b: Seq<u8>, off: int, n: nat) -> nat
    decreases n,
{
    if n == 0 {
        0
    } else {
        b[off] as nat + 256 * le_bytes(b, off + 1, (n - 1) as nat)
    }
}

pub open spec fn pow256(n: nat) -> nat
    decreases n,
{
    if n == 0 {
        1
    } else {
        256 * pow256((n - 1) as nat)
    }
}

pub proof fn lemma_le_bytes_bound(b: Seq<u8>, off: int, n: nat)
    ensures
        le_bytes(b, off, n) < pow256(n),
    decreases n,
{
    if n > 0 {
        lemma_le_bytes_bound(b, off + 1, (n - 1) as nat);
        let rest = le_bytes(b, off + 1, (n - 1) as nat);
        let p = pow256((n - 1) as nat);
        assert(256 * rest <= 256 * (p - 1)) by (nonlinear_arith)
            requires
                rest < p,
        ;
    }
}

/// Reads the little-endian number of `n` bytes (at most eight) at `off`.
pub fn read_le(b: &[u8], off: usize, n: usize) -> (r: u64)
    requires
        n <= 8,
        off + n <= b@.len(),
        off + n <= usize::MAX,
    ensures
        r as nat == le_bytes(b@, off as int, n as nat),
{
    proof {
        reveal_with_fuel(pow256, 9);
    }
    let mut v: u64 = 0;
    let mut i: usize = n;
    while i > 0
        invariant
            i <= n <= 8,
            off + n <= b@.len(),
            off + n <= usize::MAX,
            v as nat == le_bytes(b@, off + i, (n - i) as nat),
            v < pow256((n - i) as nat),
            pow256(7) == 0x100000000000000,
        decreases i,
    {
        i = i - 1;
        assert(pow256((n - i - 1) as nat) <= pow256(7)) by {
            let k = (n - i - 1) as nat;
            reveal_with_fuel(pow256, 9);
            assert(k <= 7);
        }
        assert(off + i < b@.len());
        let byte = b[off + i];
        v = byte as u64 + 256 * v;
        proof {
            lemma_le_bytes_bound(b@, off + i, (n - i) as nat);
        }
    }
    v
}

} // verus!
