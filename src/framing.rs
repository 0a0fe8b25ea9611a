//! Every generated row ends in one LF and holds no CR, so chunk tables built
//! from them merge byte for byte.
use vstd::prelude::*;
use crate::generate::edge_rows_spec;
use crate::merge::well_framed;
use crate::rows::{
    decimal, edge_row_spec, node_row_spec, percent_byte, percent_encoded, property_suffix,
    stats_row_spec,
};

verus! {

/// No byte of `s` is a CR.
pub open spec fn cr_free(s: Seq<u8>) -> bool {
    forall|i: int| 0 <= i < s.len() ==> s[i] != 13
}

proof fn lemma_cr_free_concat(a: Seq<u8>, b: Seq<u8>)
    requires
        cr_free(a),
        cr_free(b),
    ensures
        cr_free(a + b),
{
    assert forall|i: int| 0 <= i < (a + b).len() implies (a + b)[i] != 13 by {
        if i >= a.len() {
            assert((a + b)[i] == b[i - a.len()]);
        }
    }
}

proof fn lemma_decimal_cr_free(n: nat)
    ensures
        cr_free(decimal(n)),
    decreases n,
{
    if n >= 10 {
        lemma_decimal_cr_free(n / 10);
        lemma_cr_free_concat(decimal(n / 10), seq![(n % 10 + 48) as u8]);
        assert(decimal(n) == decimal(n / 10) + seq![(n % 10 + 48) as u8]);
    }
}

proof fn lemma_percent_cr_free(s: Seq<u8>)
    ensures
        cr_free(percent_encoded(s)),
    decreases s.len(),
{
    if s.len() > 0 {
        lemma_percent_cr_free(s.drop_last());
        let b = s.last();
        assert(cr_free(percent_byte(b))) by {
            assert((b / 16) < 16 && (b % 16) < 16);
        }
        lemma_cr_free_concat(percent_encoded(s.drop_last()), percent_byte(b));
    }
}

proof fn lemma_suffix_cr_free(prop: Option<Seq<u8>>)
    ensures
        cr_free(property_suffix(prop)),
{
    if let Option::Some(b) = prop {
        lemma_percent_cr_free(b);
        lemma_cr_free_concat(seq![124u8], percent_encoded(b));
    }
}

proof fn lemma_terminated(body: Seq<u8>)
    requires
        cr_free(body),
    ensures
        well_framed(body + seq![10u8]),
{
    lemma_cr_free_concat(body, seq![10u8]);
}

/// Joining well-framed tables gives a well-framed table.
pub proof fn lemma_well_framed_concat(a: Seq<u8>, b: Seq<u8>)
    requires
        well_framed(a),
        well_framed(b),
    ensures
        well_framed(a + b),
{
    lemma_cr_free_concat(a, b);
    if b.len() == 0 {
        assert(a + b =~= a);
    } else {
        assert((a + b).last() == b.last());
    }
}

/// Node, edge and stats rows each end in exactly one LF and hold no CR, and
/// so does any run of edge rows; a table made of such rows is well framed.
pub proof fn lemma_rows_well_framed(
    id: nat,
    dst: nat,
    degree: nat,
    prop: Option<Seq<u8>>,
    dsts: Seq<usize>,
    props: Seq<Seq<u8>>,
    with_props: bool,
)
    ensures
        well_framed(node_row_spec(id, prop)),
        well_framed(edge_row_spec(id, dst, prop)),
        well_framed(stats_row_spec(id, degree)),
        well_framed(edge_rows_spec(id, dsts, props, with_props)),
    decreases dsts.len(),
{
    lemma_decimal_cr_free(id);
    lemma_decimal_cr_free(dst);
    lemma_decimal_cr_free(degree);
    lemma_suffix_cr_free(prop);
    lemma_cr_free_concat(decimal(id), property_suffix(prop));
    lemma_terminated(decimal(id) + property_suffix(prop));
    lemma_cr_free_concat(decimal(id), seq![124u8]);
    lemma_cr_free_concat(decimal(id) + seq![124u8], decimal(dst));
    lemma_cr_free_concat(decimal(id) + seq![124u8] + decimal(dst), property_suffix(prop));
    lemma_terminated(decimal(id) + seq![124u8] + decimal(dst) + property_suffix(prop));
    lemma_cr_free_concat(decimal(id), seq![32u8]);
    lemma_cr_free_concat(decimal(id) + seq![32u8], decimal(degree));
    lemma_terminated(decimal(id) + seq![32u8] + decimal(degree));
    if dsts.len() > 0 {
        let k = dsts.len() - 1;
        let p = if with_props {
            Option::Some(props[k])
        } else {
            Option::None
        };
        lemma_rows_well_framed(id, dsts[k] as nat, degree, p, dsts.drop_last(), props.take(k), with_props);
        lemma_well_framed_concat(
            edge_rows_spec(id, dsts.drop_last(), props.take(k), with_props),
            edge_row_spec(id, dsts[k] as nat, p),
        );
    }
}

} // verus!
