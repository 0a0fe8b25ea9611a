//! Text rows of the node, edge and stats tables, as bytes.
use vstd::prelude::*;

verus! {

/// Decimal digits of `n`, most significant first, without leading zeros.
pub open spec fn decimal(n: nat) -> Seq<u8>
    decreases n,
{
    if n < 10 {
        seq![(n + 48) as u8]
    } else {
        decimal(n / 10).push((n % 10 + 48) as u8)
    }
}

/// Appends the decimal digits of `n`.
pub fn push_decimal(out: &mut Vec<u8>, n: usize)
    ensures
        final(out)@ == old(out)@ + decimal(n as nat),
    decreases n,
{
    if n >= 10 {
        push_decimal(out, n / 10);
    }
    out.push((n % 10) as u8 + 48);
    assert(decimal(n as nat) == if n < 10 {
        seq![(n + 48) as u8]
    } else {
        decimal((n / 10) as nat).push((n % 10 + 48) as u8)
    });
}

/// Bytes that percent-encoding keeps: ASCII letters and digits, `-`, `.`,
/// `_` and `~`.
pub open spec fn is_unreserved(b: u8) -> bool {
    (48 <= b <= 57) || (65 <= b <= 90) || (97 <= b <= 122) || b == 45 || b == 46 || b == 95
        || b == 126
}

/// Upper-case hexadecimal digit for `d < 16`.
pub open spec fn hex_digit(d: u8) -> u8 {
    if d < 10 {
        (d + 48) as u8
    } else {
        (d + 55) as u8
    }
}

/// Percent-encoding of one byte.
pub open spec fn percent_byte(b: u8) -> Seq<u8> {
    if is_unreserved(b) {
        seq![b]
    } else {
        seq![37u8, hex_digit(b / 16), hex_digit(b % 16)]
    }
}

/// Percent-encoding of a byte string, byte by byte.
pub open spec fn percent_encoded(s: Seq<u8>) -> Seq<u8>
    decreases s.len(),
{
    if s.len() == 0 {
        seq![]
    } else {
        percent_encoded(s.drop_last()) + percent_byte(s.last())
    }
}

/// Relies on `urlencoding::encode_binary`: each byte outside ASCII
/// alphanumerics and `-`, `.`, `_`, `~` becomes `%` followed by two
/// upper-case hex digits; the others are kept as they are.
#[verifier::external_body]
fn url_encode(b: &[u8]) -> (r: Vec<u8>)
    ensures
        r@ == percent_encoded(b@),
{
    urlencoding::encode_binary(b).as_bytes().to_vec()
}

/// Header line of the merged node table: `NodeID|data`.
pub open spec fn node_header_spec() -> Seq<u8> {
    seq![78u8, 111, 100, 101, 73, 68, 124, 100, 97, 116, 97, 10]
}

/// Header line of the merged edge table: `SrcID|DstID`.
pub open spec fn edge_header_spec() -> Seq<u8> {
    seq![83u8, 114, 99, 73, 68, 124, 68, 115, 116, 73, 68, 10]
}

/// The node table's header line.
pub fn node_header() -> (r: Vec<u8>)
    ensures
        r@ == node_header_spec(),
{
    let r = vec![78u8, 111, 100, 101, 73, 68, 124, 100, 97, 116, 97, 10];
    assert(r@ =~= node_header_spec());
    r
}

/// The edge table's header line.
pub fn edge_header() -> (r: Vec<u8>)
    ensures
        r@ == edge_header_spec(),
{
    let r = vec![83u8, 114, 99, 73, 68, 124, 68, 115, 116, 73, 68, 10];
    assert(r@ =~= edge_header_spec());
    r
}

/// `|` followed by the encoded property, or nothing.
pub open spec fn property_suffix(prop: Option<Seq<u8>>) -> Seq<u8> {
    match prop {
        Option::Some(b) => seq![124u8] + percent_encoded(b),
        Option::None => seq![],
    }
}

/// Node row `<id>` or `<id>|<encoded property>`, newline-terminated; `prop`
/// holds the raw property bytes.
pub open spec fn node_row_spec(id: nat, prop: Option<Seq<u8>>) -> Seq<u8> {
    decimal(id) + property_suffix(prop) + seq![10u8]
}

/// Edge row `<src>|<dst>` or `<src>|<dst>|<encoded property>`,
/// newline-terminated.
pub open spec fn edge_row_spec(src: nat, dst: nat, prop: Option<Seq<u8>>) -> Seq<u8> {
    decimal(src) + seq![124u8] + decimal(dst) + property_suffix(prop) + seq![10u8]
}

/// Stats row `<id> <out_degree>`, newline-terminated.
pub open spec fn stats_row_spec(id: nat, degree: nat) -> Seq<u8> {
    decimal(id) + seq![32u8] + decimal(degree) + seq![10u8]
}

fn push_property(out: &mut Vec<u8>, prop: Option<&Vec<u8>>)
    ensures
        final(out)@ == old(out)@ + property_suffix(
            match prop {
                Option::Some(b) => Option::Some(b@),
                Option::None => Option::None,
            },
        ),
{
    match prop {
        Option::Some(b) => {
            out.push(124u8);
            let mut enc = url_encode(b.as_slice());
            out.append(&mut enc);
        },
        Option::None => {},
    }
}

/// Appends the node row of `id`.
pub fn push_node_row(out: &mut Vec<u8>, id: usize, prop: Option<&Vec<u8>>)
    ensures
        final(out)@ == old(out)@ + node_row_spec(
            id as nat,
            match prop {
                Option::Some(b) => Option::Some(b@),
                Option::None => Option::None,
            },
        ),
{
    push_decimal(out, id);
    push_property(out, prop);
    out.push(10u8);
}

/// Appends the edge row from `src` to `dst`.
pub fn push_edge_row(out: &mut Vec<u8>, src: usize, dst: usize, prop: Option<&Vec<u8>>)
    ensures
        final(out)@ == old(out)@ + edge_row_spec(
            src as nat,
            dst as nat,
            match prop {
                Option::Some(b) => Option::Some(b@),
                Option::None => Option::None,
            },
        ),
{
    push_decimal(out, src);
    out.push(124u8);
    push_decimal(out, dst);
    push_property(out, prop);
    out.push(10u8);
}

/// Appends the stats row of `id` with out-degree `degree`.
pub fn push_stats_row(out: &mut Vec<u8>, id: usize, degree: usize)
    ensures
        final(out)@ == old(out)@ + stats_row_spec(id as nat, degree as nat),
{
    push_decimal(out, id);
    out.push(32u8);
    push_decimal(out, degree);
    out.push(10u8);
}

} // verus!
