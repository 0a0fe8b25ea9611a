//! Prefix-sum planning of disjoint destination byte ranges.
use vstd::prelude::*;

verus! {

/// Sum of the first `k` lengths.
pub open spec fn sum_prefix(lens: Seq<u64>, k: int) -> int
    decreases k,
{
    if k <= 0 || k > lens.len() {
        0
    } else {
        sum_prefix(lens, k - 1) + lens[k - 1]
    }
}

/// Start of the destination range of chunk `i`; `offset_spec(header, lens, n)`
/// is the final table length.
pub open spec fn offset_spec(header: int, lens: Seq<u64>, i: int) -> int {
    header + sum_prefix(lens, i)
}

/// Partial sums of lengths never decrease.
pub proof fn lemma_sum_prefix_monotone(lens: Seq<u64>, i: int, j: int)
    requires
        0 <= i <= j <= lens.len(),
    ensures
        sum_prefix(lens, i) <= sum_prefix(lens, j),
    decreases j - i,
{
    if i < j {
        lemma_sum_prefix_monotone(lens, i, j - 1);
    }
}

/// The offset table for a destination whose header is `header_len` bytes
/// long, followed by chunks of `lens` bytes: entry `i` is where chunk `i`
/// starts and the last entry is the table's final length.  `None` when that
/// length does not fit in a `u64`.
pub fn plan_offsets(header_len: u64, lens: &Vec<u64>) -> (r: Option<Vec<u64>>)
    ensures
        r.is_none() <==> offset_spec(header_len as int, lens@, lens@.len() as int) > u64::MAX,
        r matches Option::Some(v) ==> v@.len() == lens@.len() + 1 && forall|i: int|
            0 <= i <= lens@.len() ==> #[trigger] v@[i] == offset_spec(header_len as int, lens@, i),
{
    let mut out: Vec<u64> = Vec::new();
    out.push(header_len);
    let mut acc: u64 = header_len;
    let mut i: usize = 0;
    while i < lens.len()
        invariant
            i <= lens@.len(),
            out@.len() == i + 1,
            acc == offset_spec(header_len as int, lens@, i as int),
            forall|j: int| 0 <= j <= i ==> #[trigger] out@[j] == offset_spec(header_len as int, lens@, j),
        decreases lens@.len() - i,
    {
        match acc.checked_add(lens[i]) {
            Option::Some(next) => {
                acc = next;
                out.push(next);
                i = i + 1;
            },
            Option::None => {
                proof {
                    lemma_sum_prefix_monotone(lens@, i + 1, lens@.len() as int);
                }
                return Option::None;
            },
        }
    }
    Option::Some(out)
}

/// Whether some range of the table holds byte position `pos`.
pub open spec fn range_owner_exists(header: int, lens: Seq<u64>, pos: int) -> bool {
    exists|i: int|
        0 <= i < lens.len() && offset_spec(header, lens, i) <= pos < #[trigger] offset_spec(
            header,
            lens,
            i + 1,
        )
}

proof fn lemma_ranges_cover(header: int, lens: Seq<u64>, k: int, pos: int)
    requires
        0 <= k <= lens.len(),
        header <= pos < offset_spec(header, lens, k),
    ensures
        exists|i: int|
            0 <= i < k && offset_spec(header, lens, i) <= pos < #[trigger] offset_spec(
                header,
                lens,
                i + 1,
            ),
    decreases k,
{
    if pos < offset_spec(header, lens, k - 1) {
        lemma_ranges_cover(header, lens, k - 1, pos);
    } else {
        assert(offset_spec(header, lens, k - 1) <= pos < offset_spec(header, lens, (k - 1) + 1));
    }
}

/// The offset table tiles the destination: it starts at the header length,
/// ends at the header length plus the sum of all chunk lengths, range `i` is
/// exactly `lens[i]` bytes long, no two ranges overlap, and every byte after
/// the header lies in one of them.
pub proof fn lemma_offsets_tile(header: int, lens: Seq<u64>)
    requires
        0 <= header,
    ensures
        offset_spec(header, lens, 0) == header,
        offset_spec(header, lens, lens.len() as int) == header + sum_prefix(lens, lens.len() as int),
        forall|i: int|
            0 <= i < lens.len() ==> #[trigger] offset_spec(header, lens, i + 1) - offset_spec(
                header,
                lens,
                i,
            ) == lens[i],
        forall|i: int, j: int|
            0 <= i < j < lens.len() ==> #[trigger] offset_spec(header, lens, i + 1)
                <= #[trigger] offset_spec(header, lens, j),
        forall|pos: int|
            header <= pos < offset_spec(header, lens, lens.len() as int) ==> #[trigger] range_owner_exists(
                header,
                lens,
                pos,
            ),
{
    assert forall|i: int, j: int| 0 <= i < j < lens.len() implies #[trigger] offset_spec(
        header,
        lens,
        i + 1,
    ) <= #[trigger] offset_spec(header, lens, j) by {
        lemma_sum_prefix_monotone(lens, i + 1, j);
    }
    assert forall|pos: int| header <= pos < offset_spec(header, lens, lens.len() as int) implies #[trigger] range_owner_exists(
        header,
        lens,
        pos,
    ) by {
        lemma_ranges_cover(header, lens, lens.len() as int, pos);
    }
}

} // verus!
