//! Static partition of the node-id space `[0, n)` into `p` worker chunks.
use vstd::prelude::*;
use vstd::arithmetic::div_mod::lemma_fundamental_div_mod;
use vstd::arithmetic::mul::lemma_mul_inequality;

verus! {

/// A half-open range `[start, end)` of node ids owned by one worker.
#[derive(Clone, Copy, Debug, PartialEq, Eq, Structural)]
pub struct ChunkRange {
    pub start: usize,
    pub end: usize,
}

/// First id of chunk `i` when `n` ids are split among `p` workers.
pub open spec fn chunk_start(n: nat, p: nat, i: nat) -> nat {
    (n / p) * i
}

/// End (exclusive) of chunk `i`; the last chunk absorbs the remainder.
pub open spec fn chunk_end(n: nat, p: nat, i: nat) -> nat {
    if i + 1 == p {
        n
    } else {
        (n / p) * (i + 1)
    }
}

/// Whether id `x` lies in chunk `i`.
pub open spec fn chunk_contains(n: nat, p: nat, i: nat, x: nat) -> bool {
    chunk_start(n, p, i) <= x < chunk_end(n, p, i)
}

/// Whether some chunk of `p` holds id `x`.
pub open spec fn chunk_owner_exists(n: nat, p: nat, x: nat) -> bool {
    exists|i: nat| i < p && #[trigger] chunk_contains(n, p, i, x)
}

proof fn lemma_chunk_bound(n: nat, p: nat, k: nat)
    requires
        0 < p,
        k <= p,
    ensures
        (n / p) * k <= n,
        (n / p) * k <= (n / p) * p,
{
    lemma_fundamental_div_mod(n as int, p as int);
    lemma_mul_inequality(k as int, p as int, (n / p) as int);
    assert((n / p) * k <= (n / p) * p) by (nonlinear_arith)
        requires k <= p;
}

/// The id range owned by chunk `i` of `p`.
pub fn chunk_range(n: usize, p: usize, i: usize) -> (r: ChunkRange)
    requires
        0 < p,
        i < p,
    ensures
        r.start == chunk_start(n as nat, p as nat, i as nat),
        r.end == chunk_end(n as nat, p as nat, i as nat),
        r.start <= r.end <= n,
{
    let size = n / p;
    proof {
        lemma_chunk_bound(n as nat, p as nat, i as nat);
        lemma_chunk_bound(n as nat, p as nat, (i + 1) as nat);
        assert(size * i <= size * (i + 1)) by (nonlinear_arith);
    }
    let start = size * i;
    let end = if i + 1 == p {
        n
    } else {
        size * (i + 1)
    };
    ChunkRange { start, end }
}

/// All `p` chunk ranges, in chunk order.
pub fn chunk_ranges(n: usize, p: usize) -> (r: Vec<ChunkRange>)
    requires
        0 < p,
    ensures
        r@.len() == p,
        forall|i: int|
            0 <= i < p ==> #[trigger] r@[i].start == chunk_start(n as nat, p as nat, i as nat)
                && r@[i].end == chunk_end(n as nat, p as nat, i as nat),
{
    let mut out: Vec<ChunkRange> = Vec::new();
    let mut i: usize = 0;
    while i < p
        invariant
            i <= p,
            0 < p,
            out@.len() == i,
            forall|j: int|
                0 <= j < i ==> #[trigger] out@[j].start == chunk_start(n as nat, p as nat, j as nat)
                    && out@[j].end == chunk_end(n as nat, p as nat, j as nat),
        decreases p - i,
    {
        out.push(chunk_range(n, p, i));
        i = i + 1;
    }
    out
}

/// The chunks partition `[0, n)` exactly once and in id order: the first
/// starts at 0, each ends where the next starts, none is reversed, the last
/// ends at `n` whatever the remainder of `n / p`, and every id lies in exactly
/// one chunk.
pub proof fn lemma_chunks_partition(n: nat, p: nat)
    requires
        0 < p,
    ensures
        chunk_start(n, p, 0) == 0,
        chunk_end(n, p, (p - 1) as nat) == n,
        forall|i: nat| i + 1 < p ==> #[trigger] chunk_end(n, p, i) == chunk_start(n, p, i + 1),
        forall|i: nat| i < p ==> chunk_start(n, p, i) <= #[trigger] chunk_end(n, p, i) <= n,
        forall|x: nat| x < n ==> #[trigger] chunk_owner_exists(n, p, x),
        forall|x: nat, i: nat, j: nat|
            i < p && j < p && #[trigger] chunk_contains(n, p, i, x) && #[trigger] chunk_contains(
                n,
                p,
                j,
                x,
            ) ==> i == j,
{
    assert(chunk_start(n, p, 0) == 0) by (nonlinear_arith);
    assert forall|i: nat| i < p implies chunk_start(n, p, i) <= #[trigger] chunk_end(n, p, i)
        <= n by {
        lemma_chunk_bound(n, p, i);
        lemma_chunk_bound(n, p, i + 1);
        let s = n / p;
        assert(s * i <= s * (i + 1)) by (nonlinear_arith)
            requires s >= 0;
    }
    assert forall|i: nat, j: nat| i < j < p implies chunk_end(n, p, i) <= chunk_start(n, p, j) by {
        lemma_chunk_bound(n, p, j);
        let s = n / p;
        assert(s * (i + 1) <= s * j) by (nonlinear_arith)
            requires i + 1 <= j, s >= 0;
    }
    assert forall|x: nat| x < n implies #[trigger] chunk_owner_exists(n, p, x) by {
        let s = n / p;
        if s == 0 {
            assert(chunk_start(n, p, (p - 1) as nat) == 0) by (nonlinear_arith)
                requires s == 0, chunk_start(n, p, (p - 1) as nat) == s * (p - 1);
            assert(chunk_contains(n, p, (p - 1) as nat, x));
        } else {
            let q = x / s;
            lemma_fundamental_div_mod(x as int, s as int);
            if q + 1 < p {
                assert(chunk_start(n, p, q) <= x < chunk_end(n, p, q)) by (nonlinear_arith)
                    requires
                        x == s * q + x % s,
                        0 <= x % s < s,
                        chunk_start(n, p, q) == s * q,
                        chunk_end(n, p, q) == s * (q + 1),
                ;
                assert(chunk_contains(n, p, q, x));
            } else {
                let l = (p - 1) as nat;
                assert(chunk_start(n, p, l) <= x) by (nonlinear_arith)
                    requires
                        x == s * q + x % s,
                        0 <= x % s,
                        q >= l,
                        chunk_start(n, p, l) == s * l,
                ;
                assert(chunk_contains(n, p, l, x));
            }
        }
    }
}

} // verus!
