//! Per-node generation inside one chunk: the node row, the stats row and the
//! node's outgoing edge rows.
use vstd::prelude::*;
use rand::rngs::StdRng;
use crate::chunk::ChunkRange;
use crate::draw::{draw_below, draw_bytes};
use crate::rows::{edge_row_spec, node_row_spec, push_edge_row, push_node_row, push_stats_row, stats_row_spec};
use crate::sample::{
    edge_count, edge_count_spec, fraction, fraction_spec, has_property, has_property_spec,
    property_byte_count, property_byte_count_spec, Dist,
};

verus! {

/// Settings shared by every generator of a run.
#[derive(Clone, Copy, Debug)]
pub struct GenConfig {
    /// Number of nodes; ids are `[0, n_nodes)`.
    pub n_nodes: usize,
    /// Smallest property length, in bytes.
    pub min_prop_size: usize,
    /// Largest property length, in bytes.
    pub max_prop_size: usize,
    /// Distribution of out-degrees.
    pub edge_dist: Dist,
    /// Distribution of node property lengths.
    pub node_prop_dist: Dist,
    /// Distribution of edge property lengths.
    pub edge_prop_dist: Dist,
    /// Keep the per-chunk tables as the output, each edge pointing only at
    /// nodes of its own chunk or of earlier ones.
    pub incremental: bool,
}

impl GenConfig {
    /// Property sizes are ordered.
    pub open spec fn wf(self) -> bool {
        self.min_prop_size <= self.max_prop_size
    }

    /// Out-degree of a node whose raw edge draw is `raw`.
    pub open spec fn degree_spec(self, raw: int) -> nat {
        edge_count_spec(self.edge_dist, fraction_spec(self.edge_dist, raw))
    }

    /// Raw bytes of a property drawn under `d` with raw draw `raw`.
    pub open spec fn prop_bytes_spec(self, d: Dist, raw: int) -> nat {
        property_byte_count_spec(
            d,
            fraction_spec(d, raw),
            self.min_prop_size as nat,
            self.max_prop_size as nat,
        )
    }

    /// Each edge property `props[k]` has the length drawn by `raws[k]`.
    pub open spec fn edge_props_fit(self, props: Seq<Seq<u8>>, raws: Seq<i64>) -> bool {
        forall|k: int|
            0 <= k < props.len() ==> (#[trigger] props[k]).len() == self.prop_bytes_spec(
                self.edge_prop_dist,
                raws[k] as int,
            )
    }

    /// `edges` are the rows from `src` to each of `dsts`, each with a property
    /// of the length its raw draw in `raws` gives.
    pub open spec fn edges_drawn(
        self,
        src: nat,
        dsts: Seq<usize>,
        raws: Seq<i64>,
        edges: Seq<u8>,
    ) -> bool {
        exists|props: Seq<Seq<u8>>|
            props.len() == dsts.len() && self.edge_props_fit(props, raws) && edges
                == #[trigger] edge_rows_spec(src, dsts, props, has_property_spec(self.edge_prop_dist))
    }

    /// Edge destinations of chunk `c` are drawn from `[0, dst_bound_spec(c))`.
    pub open spec fn dst_bound_spec(self, c: ChunkRange) -> nat {
        if self.incremental {
            c.end as nat
        } else {
            self.n_nodes as nat
        }
    }

    /// Out-degree of a node whose raw edge draw is `raw`.
    pub fn degree(&self, raw: i64) -> (r: usize)
        ensures
            r == self.degree_spec(raw as int),
    {
        edge_count(self.edge_dist, fraction(self.edge_dist, raw))
    }

    /// Exclusive upper bound of edge destinations drawn in chunk `c`.
    pub fn dst_bound(&self, c: ChunkRange) -> (r: usize)
        ensures
            r == self.dst_bound_spec(c),
    {
        if self.incremental {
            c.end
        } else {
            self.n_nodes
        }
    }
}

/// The rows produced for one node.
pub struct NodeRows {
    /// The node row.
    pub node: Vec<u8>,
    /// The stats row.
    pub stats: Vec<u8>,
    /// The edge rows, one per destination.
    pub edges: Vec<u8>,
    /// The edge destinations, in row order.
    pub dsts: Vec<usize>,
}

/// The edge rows from `src` to each of `dsts`, the `k`-th carrying
/// property bytes `props[k]` when `with_props` holds.
pub open spec fn edge_rows_spec(
    src: nat,
    dsts: Seq<usize>,
    props: Seq<Seq<u8>>,
    with_props: bool,
) -> Seq<u8>
    decreases dsts.len(),
{
    if dsts.len() == 0 {
        seq![]
    } else {
        let k = dsts.len() - 1;
        edge_rows_spec(src, dsts.drop_last(), props.take(k), with_props) + edge_row_spec(
            src,
            dsts[k] as nat,
            if with_props {
                Option::Some(props[k])
            } else {
                Option::None
            },
        )
    }
}

/// Optional raw property bytes as they stand in a row.
pub open spec fn prop_if(with_props: bool, b: Seq<u8>) -> Option<Seq<u8>> {
    if with_props {
        Option::Some(b)
    } else {
        Option::None
    }
}

/// Generates node `id` of chunk `c`.
///
/// `node_raw`, `edge_raw` and each of `edge_prop_raws` are raw fixed-point
/// draws of the node-property, edge-count and edge-property distributions;
/// there is one edge-property draw per edge.  Property bytes and edge
/// destinations come from `rng`.
pub fn generate_node(
    rng: &mut StdRng,
    cfg: &GenConfig,
    c: ChunkRange,
    id: usize,
    node_raw: i64,
    edge_raw: i64,
    edge_prop_raws: &Vec<i64>,
) -> (r: NodeRows)
    requires
        cfg.wf(),
        c.start <= id < c.end <= cfg.n_nodes,
        edge_prop_raws@.len() == cfg.degree_spec(edge_raw as int),
    ensures
        r.dsts@.len() == cfg.degree_spec(edge_raw as int),
        forall|k: int| 0 <= k < r.dsts@.len() ==> #[trigger] r.dsts@[k] < cfg.dst_bound_spec(c),
        cfg.incremental ==> forall|k: int| 0 <= k < r.dsts@.len() ==> #[trigger] r.dsts@[k] < c.end,
        r.stats@ == stats_row_spec(id as nat, cfg.degree_spec(edge_raw as int)),
        exists|b: Seq<u8>|
            b.len() == cfg.prop_bytes_spec(cfg.node_prop_dist, node_raw as int) && r.node@
                == #[trigger] node_row_spec(
                id as nat,
                prop_if(has_property_spec(cfg.node_prop_dist), b),
            ),
        cfg.edges_drawn(id as nat, r.dsts@, edge_prop_raws@, r.edges@),
{
    let mut node: Vec<u8> = Vec::new();
    let node_props = has_property(cfg.node_prop_dist);
    let node_len = property_byte_count(
        cfg.node_prop_dist,
        fraction(cfg.node_prop_dist, node_raw),
        cfg.min_prop_size,
        cfg.max_prop_size,
    );
    let node_bytes = draw_bytes(rng, node_len);
    if node_props {
        push_node_row(&mut node, id, Option::Some(&node_bytes));
    } else {
        push_node_row(&mut node, id, Option::None);
    }
    assert(node@ == node_row_spec(id as nat, prop_if(node_props, node_bytes@)));

    let n_edges = cfg.degree(edge_raw);
    let mut stats: Vec<u8> = Vec::new();
    push_stats_row(&mut stats, id, n_edges);
    assert(stats@ =~= stats_row_spec(id as nat, n_edges as nat));

    let bound = cfg.dst_bound(c);
    let edge_props = has_property(cfg.edge_prop_dist);
    let mut edges: Vec<u8> = Vec::new();
    let mut dsts: Vec<usize> = Vec::new();
    let ghost mut props: Seq<Seq<u8>> = seq![];
    let mut k: usize = 0;
    while k < n_edges
        invariant
            cfg.wf(),
            n_edges == edge_prop_raws@.len(),
            bound == cfg.dst_bound_spec(c),
            bound > 0,
            edge_props == has_property_spec(cfg.edge_prop_dist),
            k <= n_edges,
            dsts@.len() == k,
            props.len() == k,
            forall|j: int| 0 <= j < k ==> #[trigger] dsts@[j] < bound,
            forall|j: int|
                0 <= j < k ==> (#[trigger] props[j]).len() == cfg.prop_bytes_spec(
                    cfg.edge_prop_dist,
                    edge_prop_raws@[j] as int,
                ),
            edges@ == edge_rows_spec(id as nat, dsts@, props, edge_props),
        decreases n_edges - k,
    {
        let dst = draw_below(rng, bound);
        let raw = edge_prop_raws[k];
        let len = property_byte_count(
            cfg.edge_prop_dist,
            fraction(cfg.edge_prop_dist, raw),
            cfg.min_prop_size,
            cfg.max_prop_size,
        );
        let bytes = draw_bytes(rng, len);
        if edge_props {
            push_edge_row(&mut edges, id, dst, Option::Some(&bytes));
        } else {
            push_edge_row(&mut edges, id, dst, Option::None);
        }
        let ghost old_dsts = dsts@;
        let ghost old_props = props;
        dsts.push(dst);
        proof {
            props = props.push(bytes@);
            assert(dsts@.drop_last() =~= old_dsts);
            assert(props.take(k as int) =~= old_props);
        }
        k = k + 1;
    }
    assert(cfg.edges_drawn(id as nat, dsts@, edge_prop_raws@, edges@));
    NodeRows { node, stats, edges, dsts }
}

} // verus!
