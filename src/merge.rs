//! Row re-framing and the merge of per-chunk tables into one destination
//! table through disjoint, pre-planned byte ranges.
use vstd::prelude::*;
use crate::offsets::{offset_spec, plan_offsets, sum_prefix};

verus! {

/// `s` with every CR LF pair turned into a single LF.
pub open spec fn crlf_to_lf(s: Seq<u8>) -> Seq<u8>
    decreases s.len(),
{
    if s.len() == 0 {
        seq![]
    } else if s.len() >= 2 && s[0] == 13 && s[1] == 10 {
        seq![10u8] + crlf_to_lf(s.subrange(2, s.len() as int))
    } else {
        seq![s[0]] + crlf_to_lf(s.subrange(1, s.len() as int))
    }
}

/// Line-oriented re-framing of `s`: each row, with its LF or CR LF
/// terminator removed, followed by exactly one LF; a last row without a
/// terminator gets one.
pub open spec fn reframe_spec(s: Seq<u8>) -> Seq<u8> {
    crlf_to_lf(s) + if s.len() > 0 && s.last() != 10 {
        seq![10u8]
    } else {
        seq![]
    }
}

/// A chunk table whose every row ends in exactly one LF: empty or ending in
/// LF, with no CR anywhere.
pub open spec fn well_framed(s: Seq<u8>) -> bool {
    (s.len() == 0 || s.last() == 10) && forall|i: int| 0 <= i < s.len() ==> s[i] != 13
}

/// Re-frames the rows of a chunk table.
pub fn reframe_rows(content: &Vec<u8>) -> (r: Vec<u8>)
    ensures
        r@ == reframe_spec(content@),
{
    let s = Ghost(content@);
    let n = content.len();
    let mut out: Vec<u8> = Vec::new();
    let mut i: usize = 0;
    assert(s@.subrange(0, n as int) =~= s@);
    while i < n
        invariant
            n == s@.len(),
            s@ == content@,
            i <= n,
            out@ + crlf_to_lf(s@.subrange(i as int, n as int)) == crlf_to_lf(s@),
        decreases n - i,
    {
        let rest = Ghost(s@.subrange(i as int, n as int));
        if i + 1 < n && content[i] == 13 && content[i + 1] == 10 {
            assert(rest@.subrange(2, rest@.len() as int) =~= s@.subrange(i + 2, n as int));
            out.push(10u8);
            i = i + 2;
        } else {
            assert(rest@.subrange(1, rest@.len() as int) =~= s@.subrange(i + 1, n as int));
            out.push(content[i]);
            i = i + 1;
        }
        assert(out@ + crlf_to_lf(s@.subrange(i as int, n as int)) =~= crlf_to_lf(s@));
    }
    assert(s@.subrange(n as int, n as int) =~= Seq::<u8>::empty());
    assert(out@ =~= crlf_to_lf(s@));
    if n > 0 && content[n - 1] != 10 {
        out.push(10u8);
    }
    assert(out@ =~= reframe_spec(content@));
    out
}

/// The re-framed rows of one chunk table, provided they fill exactly the
/// destination range `[start, end)` planned for it; `None` otherwise.
pub fn rows_for_range(content: &Vec<u8>, start: u64, end: u64) -> (r: Option<Vec<u8>>)
    ensures
        r.is_some() <==> start <= end && reframe_spec(content@).len() == end - start,
        r matches Option::Some(v) ==> v@ == reframe_spec(content@),
{
    let rows = reframe_rows(content);
    if start <= end && rows.len() as u64 == end - start {
        Option::Some(rows)
    } else {
        Option::None
    }
}

/// Writes `src` over `dest[start .. start + src.len()]`, leaving the rest.
pub fn write_at(dest: &mut Vec<u8>, start: usize, src: &Vec<u8>)
    requires
        start + src@.len() <= old(dest)@.len(),
    ensures
        final(dest)@ == old(dest)@.subrange(0, start as int) + src@ + old(dest)@.subrange(
            start + src@.len(),
            old(dest)@.len() as int,
        ),
{
    let ghost before = dest@;
    let dlen = dest.len();
    let mut j: usize = 0;
    while j < src.len()
        invariant
            dlen == before.len(),
            start + src@.len() <= before.len(),
            dest@.len() == before.len(),
            j <= src@.len(),
            forall|k: int| 0 <= k < start ==> #[trigger] dest@[k] == before[k],
            forall|k: int| 0 <= k < j ==> #[trigger] dest@[start + k] == src@[k],
            forall|k: int| start + j <= k < before.len() ==> #[trigger] dest@[k] == before[k],
        decreases src@.len() - j,
    {
        dest.set(start + j, src[j]);
        j = j + 1;
    }
    let ghost want = before.subrange(0, start as int) + src@ + before.subrange(
        start + src@.len(),
        before.len() as int,
    );
    assert forall|k: int| 0 <= k < dest@.len() implies dest@[k] == want[k] by {
        if start <= k < start + src@.len() {
            assert(dest@[start + (k - start)] == src@[k - start]);
        }
    }
    assert(dest@ =~= want);
}

/// Byte lengths of the chunk tables.
pub open spec fn chunk_lens(chunks: Seq<Vec<u8>>) -> Seq<u64> {
    Seq::new(chunks.len(), |i: int| chunks[i]@.len() as u64)
}

/// The re-framed rows of the first `k` chunk tables, in chunk order.
pub open spec fn merged_rows(chunks: Seq<Vec<u8>>, k: int) -> Seq<u8>
    decreases k,
{
    if k <= 0 || k > chunks.len() {
        seq![]
    } else {
        merged_rows(chunks, k - 1) + reframe_spec(chunks[k - 1]@)
    }
}

/// The first `k` chunk tables joined as they are.
pub open spec fn joined(chunks: Seq<Vec<u8>>, k: int) -> Seq<u8>
    decreases k,
{
    if k <= 0 || k > chunks.len() {
        seq![]
    } else {
        joined(chunks, k - 1) + chunks[k - 1]@
    }
}

/// Whether re-framing keeps the length of every chunk table, so that each
/// fills exactly the range planned from its size.
pub open spec fn lengths_kept(chunks: Seq<Vec<u8>>) -> bool {
    forall|i: int| 0 <= i < chunks.len() ==> #[trigger] reframe_spec(chunks[i]@).len() == chunks[i]@.len()
}

/// `n` zero bytes.
pub open spec fn zeros(n: nat) -> Seq<u8> {
    Seq::new(n, |i: int| 0u8)
}

/// Merges chunk tables after `header`: plans one range per chunk from its
/// size, pre-sizes the destination, then writes each chunk's re-framed rows
/// into its own range.  `None` when the table would not fit in memory
/// addresses, or when re-framing a chunk changes its length (its rows would
/// spill out of its range).
pub fn merge_table(header: &Vec<u8>, chunks: &Vec<Vec<u8>>) -> (r: Option<Vec<u8>>)
    ensures
        r.is_some() <==> offset_spec(header@.len() as int, chunk_lens(chunks@), chunks@.len() as int)
            <= usize::MAX && lengths_kept(chunks@),
        r matches Option::Some(out) ==> out@ == header@ + merged_rows(chunks@, chunks@.len() as int),
{
    let ghost cs = chunks@;
    let mut lens: Vec<u64> = Vec::new();
    let mut i: usize = 0;
    while i < chunks.len()
        invariant
            cs == chunks@,
            i <= cs.len(),
            lens@.len() == i,
            forall|j: int| 0 <= j < i ==> #[trigger] lens@[j] == cs[j]@.len() as u64,
        decreases cs.len() - i,
    {
        lens.push(chunks[i].len() as u64);
        i = i + 1;
    }
    assert(lens@ =~= chunk_lens(cs));
    let hlen = header.len();
    let offsets = match plan_offsets(hlen as u64, &lens) {
        Option::Some(v) => v,
        Option::None => {
            return Option::None;
        },
    };
    let n = chunks.len();
    let total64 = offsets[n];
    if total64 > usize::MAX as u64 {
        return Option::None;
    }
    let total = total64 as usize;
    proof {
        assert(offsets@[0] == offset_spec(hlen as int, lens@, 0));
        crate::offsets::lemma_offsets_tile(hlen as int, lens@);
        crate::offsets::lemma_sum_prefix_monotone(lens@, 0, n as int);
    }
    let mut dest: Vec<u8> = Vec::new();
    let mut j: usize = 0;
    while j < total
        invariant
            hlen == header@.len(),
            hlen <= total,
            j <= total,
            dest@.len() == j,
            forall|k: int| 0 <= k < j ==> #[trigger] dest@[k] == if k < hlen {
                header@[k]
            } else {
                0u8
            },
        decreases total - j,
    {
        if j < hlen {
            dest.push(header[j]);
        } else {
            dest.push(0u8);
        }
        j = j + 1;
    }
    assert(dest@ =~= header@ + merged_rows(cs, 0) + zeros((total - hlen) as nat));
    let mut i: usize = 0;
    while i < n
        invariant
            cs == chunks@,
            n == cs.len(),
            lens@ == chunk_lens(cs),
            hlen == header@.len(),
            total == offset_spec(hlen as int, lens@, n as int),
            offsets@.len() == n + 1,
            forall|k: int| 0 <= k <= n ==> #[trigger] offsets@[k] == offset_spec(hlen as int, lens@, k),
            forall|k: int| 0 <= k < n ==> #[trigger] offset_spec(hlen as int, lens@, k + 1) - offset_spec(hlen as int, lens@, k) == lens@[k],
            forall|a: int, b: int| 0 <= a < b < n ==> #[trigger] offset_spec(hlen as int, lens@, a + 1) <= #[trigger] offset_spec(hlen as int, lens@, b),
            i <= n,
            forall|k: int| 0 <= k < i ==> #[trigger] reframe_spec(cs[k]@).len() == cs[k]@.len(),
            merged_rows(cs, i as int).len() == sum_prefix(lens@, i as int),
            dest@ == header@ + merged_rows(cs, i as int) + zeros((total - offset_spec(hlen as int, lens@, i as int)) as nat),
        decreases n - i,
    {
        let rows = reframe_rows(&chunks[i]);
        if rows.len() != chunks[i].len() {
            return Option::None;
        }
        let start = offsets[i];
        proof {
            if i + 1 < n {
                assert(offset_spec(hlen as int, lens@, i + 1) <= offset_spec(hlen as int, lens@, n - 1));
            }
            assert(offset_spec(hlen as int, lens@, i + 1) <= total) by {
                if i + 1 < n {
                    assert(offset_spec(hlen as int, lens@, (n - 1) + 1) - offset_spec(hlen as int, lens@, n - 1) == lens@[n - 1]);
                }
            }
        }
        let ghost before = dest@;
        write_at(&mut dest, start as usize, &rows);
        proof {
            let off = offset_spec(hlen as int, lens@, i as int);
            let next = offset_spec(hlen as int, lens@, i + 1);
            assert(next - off == lens@[i as int]);
            assert(before.subrange(0, off) =~= header@ + merged_rows(cs, i as int));
            assert(before.subrange(next, before.len() as int) =~= zeros((total - next) as nat));
            assert(merged_rows(cs, i + 1) == merged_rows(cs, i as int) + reframe_spec(cs[i as int]@));
            assert(dest@ =~= header@ + merged_rows(cs, i + 1) + zeros((total - next) as nat));
        }
        i = i + 1;
    }
    assert(dest@ =~= header@ + merged_rows(cs, n as int));
    Option::Some(dest)
}

proof fn lemma_no_cr_kept(s: Seq<u8>)
    requires
        forall|i: int| 0 <= i < s.len() ==> s[i] != 13,
    ensures
        crlf_to_lf(s) == s,
    decreases s.len(),
{
    if s.len() > 0 {
        let t = s.subrange(1, s.len() as int);
        assert forall|i: int| 0 <= i < t.len() implies t[i] != 13 by {
            assert(t[i] == s[i + 1]);
        }
        lemma_no_cr_kept(t);
        assert(seq![s[0]] + t =~= s);
    }
}

/// Re-framing leaves a well-framed chunk table as it is.
pub proof fn lemma_reframe_well_framed(s: Seq<u8>)
    requires
        well_framed(s),
    ensures
        reframe_spec(s) == s,
{
    lemma_no_cr_kept(s);
    assert(reframe_spec(s) =~= s);
}

/// When every chunk table is well framed, each keeps its length, so the merge
/// succeeds wherever the table fits, and the merged rows after the header
/// are the chunk tables joined in chunk order, byte for byte.
pub proof fn lemma_merge_joins(chunks: Seq<Vec<u8>>)
    requires
        forall|i: int| 0 <= i < chunks.len() ==> well_framed(#[trigger] chunks[i]@),
    ensures
        lengths_kept(chunks),
        merged_rows(chunks, chunks.len() as int) == joined(chunks, chunks.len() as int),
{
    assert forall|i: int| 0 <= i < chunks.len() implies #[trigger] reframe_spec(chunks[i]@).len()
        == chunks[i]@.len() by {
        lemma_reframe_well_framed(chunks[i]@);
    }
    lemma_merge_joins_prefix(chunks, chunks.len() as int);
}

proof fn lemma_merge_joins_prefix(chunks: Seq<Vec<u8>>, k: int)
    requires
        0 <= k <= chunks.len(),
        forall|i: int| 0 <= i < chunks.len() ==> well_framed(#[trigger] chunks[i]@),
    ensures
        merged_rows(chunks, k) == joined(chunks, k),
    decreases k,
{
    if k > 0 {
        lemma_merge_joins_prefix(chunks, k - 1);
        lemma_reframe_well_framed(chunks[k - 1]@);
    }
}

} // verus!
