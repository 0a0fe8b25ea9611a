use graphgen::chunk::{chunk_range, chunk_ranges, ChunkRange};
use graphgen::generate::{generate_node, GenConfig};
use graphgen::merge::{merge_table, reframe_rows, rows_for_range, write_at};
use graphgen::offsets::plan_offsets;
use graphgen::rows::{
    edge_header, node_header, push_decimal, push_edge_row, push_node_row, push_stats_row,
};
use graphgen::run::{is_terminal, next_phase, Phase};
use graphgen::sample::{
    edge_count, fraction, has_property, property_byte_count, property_length, Dist, EDGE_SCALE,
    FRACTION_ONE,
};
use rand::rngs::StdRng;
use rand::SeedableRng;

const ONE: i64 = FRACTION_ONE as i64;

fn config(n: usize, edge: Dist, node_prop: Dist, edge_prop: Dist, incremental: bool) -> GenConfig {
    GenConfig {
        n_nodes: n,
        min_prop_size: 0,
        max_prop_size: 0,
        edge_dist: edge,
        node_prop_dist: node_prop,
        edge_prop_dist: edge_prop,
        incremental,
    }
}

/// Generates one chunk with fixed raw draws, returning its node, edge and
/// stats tables and the edge destinations.
fn gen_chunk(
    cfg: &GenConfig,
    c: ChunkRange,
    rng: &mut StdRng,
    node_raw: i64,
    edge_raw: i64,
) -> (Vec<u8>, Vec<u8>, Vec<u8>, Vec<usize>) {
    let mut nodes = Vec::new();
    let mut edges = Vec::new();
    let mut stats = Vec::new();
    let mut dsts = Vec::new();
    for id in c.start..c.end {
        let degree = cfg.degree(edge_raw);
        let props = vec![ONE / 2; degree];
        let rows = generate_node(rng, cfg, c, id, node_raw, edge_raw, &props);
        nodes.extend_from_slice(&rows.node);
        edges.extend_from_slice(&rows.edges);
        stats.extend_from_slice(&rows.stats);
        dsts.extend_from_slice(&rows.dsts);
    }
    (nodes, edges, stats, dsts)
}

#[test]
fn chunks_absorb_remainder() {
    let r = chunk_ranges(10, 3);
    assert_eq!(
        r,
        vec![
            ChunkRange { start: 0, end: 3 },
            ChunkRange { start: 3, end: 6 },
            ChunkRange { start: 6, end: 10 },
        ]
    );
}

#[test]
fn chunks_more_workers_than_nodes() {
    let r = chunk_ranges(2, 4);
    assert_eq!(r.len(), 4);
    for c in &r[..3] {
        assert_eq!(c.start, c.end);
    }
    assert_eq!(r[3], ChunkRange { start: 0, end: 2 });
}

#[test]
fn chunks_partition_many_sizes() {
    for n in 0..40usize {
        for p in 1..9usize {
            let r = chunk_ranges(n, p);
            assert_eq!(r[0].start, 0);
            assert_eq!(r[p - 1].end, n);
            for i in 0..p - 1 {
                assert_eq!(r[i].end, r[i + 1].start);
                assert_eq!(r[i], chunk_range(n, p, i));
            }
        }
    }
}

#[test]
fn disabled_derives_zero() {
    for raw in [-ONE, 0, ONE / 3, ONE, 7 * ONE] {
        let f = fraction(Dist::Disabled, raw);
        assert_eq!(f, 0);
        assert_eq!(edge_count(Dist::Disabled, f), 0);
        assert_eq!(edge_count(Dist::Disabled, FRACTION_ONE), 0);
        assert_eq!(property_byte_count(Dist::Disabled, FRACTION_ONE, 30, 90), 0);
    }
    assert!(!has_property(Dist::Disabled));
    assert!(has_property(Dist::Exp));
}

#[test]
fn uniform_stays_in_bounds() {
    for raw in [-5, 0, 1, ONE / 2, ONE - 1, ONE, 3 * ONE] {
        let f = fraction(Dist::Uniform, raw);
        assert!(f < FRACTION_ONE);
        let e = edge_count(Dist::Uniform, f);
        assert!(e < EDGE_SCALE as usize);
        let l = property_length(f, 10, 20);
        assert!(10 <= l && l < 20);
    }
    assert_eq!(property_length(fraction(Dist::Uniform, ONE), 5, 5), 5);
}

#[test]
fn fractions_clamp() {
    assert_eq!(fraction(Dist::Uniform, ONE * 2), FRACTION_ONE - 1);
    assert_eq!(fraction(Dist::Normal, ONE * 2), FRACTION_ONE);
    assert_eq!(fraction(Dist::Normal, -3), 0);
    assert_eq!(fraction(Dist::Normal, ONE / 4), FRACTION_ONE / 4);
    assert_eq!(fraction(Dist::Exp, -1), 0);
    assert_eq!(fraction(Dist::Exp, ONE * 3), FRACTION_ONE * 3);
}

#[test]
fn edge_count_formulas() {
    assert_eq!(edge_count(Dist::Uniform, FRACTION_ONE / 2), 5000);
    assert_eq!(edge_count(Dist::Normal, FRACTION_ONE), 10000);
    assert_eq!(edge_count(Dist::Normal, FRACTION_ONE / 4), 2500);
    assert_eq!(edge_count(Dist::Exp, FRACTION_ONE / 2), 2500);
    assert_eq!(edge_count(Dist::Exp, 2 * FRACTION_ONE), 40000);
    assert_eq!(edge_count(Dist::Exp, u64::MAX), usize::MAX);
}

#[test]
fn property_length_formula() {
    assert_eq!(property_length(FRACTION_ONE / 2, 10, 20), 15);
    assert_eq!(property_length(0, 10, 20), 10);
    assert_eq!(property_length(FRACTION_ONE * 2, 10, 20), 30);
    assert_eq!(property_byte_count(Dist::Uniform, FRACTION_ONE / 2, 10, 20), 5);
    assert_eq!(property_byte_count(Dist::Normal, 0, 9, 9), 3);
}

#[test]
fn decimal_digits() {
    let mut v = Vec::new();
    push_decimal(&mut v, 0);
    assert_eq!(v, b"0".to_vec());
    let mut v = b"x".to_vec();
    push_decimal(&mut v, 1234567);
    assert_eq!(v, b"x1234567".to_vec());
}

#[test]
fn node_row_encodes_property() {
    let mut v = Vec::new();
    push_node_row(&mut v, 7, Some(&vec![0xFF, b'a', b' ', b'~', b'\r']));
    assert_eq!(v, b"7|%FFa%20~%0D\n".to_vec());
    let mut v = Vec::new();
    push_node_row(&mut v, 42, None);
    assert_eq!(v, b"42\n".to_vec());
}

#[test]
fn edge_and_stats_rows() {
    let mut v = Vec::new();
    push_edge_row(&mut v, 3, 15, None);
    push_edge_row(&mut v, 3, 0, Some(&vec![0x00, b'Z']));
    assert_eq!(v, b"3|15\n3|0|%00Z\n".to_vec());
    let mut s = Vec::new();
    push_stats_row(&mut s, 9, 120);
    assert_eq!(s, b"9 120\n".to_vec());
}

#[test]
fn headers() {
    assert_eq!(node_header(), b"NodeID|data\n".to_vec());
    assert_eq!(edge_header(), b"SrcID|DstID\n".to_vec());
}

#[test]
fn offsets_prefix_sum() {
    assert_eq!(plan_offsets(12, &vec![3, 0, 5]), Some(vec![12, 15, 15, 20]));
    assert_eq!(plan_offsets(12, &vec![]), Some(vec![12]));
    assert_eq!(plan_offsets(u64::MAX - 2, &vec![1, 1]), Some(vec![u64::MAX - 2, u64::MAX - 1, u64::MAX]));
    assert_eq!(plan_offsets(u64::MAX - 2, &vec![1, 1, 1]), None);
}

#[test]
fn offsets_tile_destination() {
    let lens = vec![7u64, 0, 1, 13, 2];
    let off = plan_offsets(5, &lens).unwrap();
    assert_eq!(*off.last().unwrap(), 5 + lens.iter().sum::<u64>());
    for i in 0..lens.len() {
        assert_eq!(off[i + 1] - off[i], lens[i]);
    }
}

#[test]
fn reframe_normalizes_terminators() {
    assert_eq!(reframe_rows(&b"a\r\nb".to_vec()), b"a\nb\n".to_vec());
    assert_eq!(reframe_rows(&b"".to_vec()), b"".to_vec());
    assert_eq!(reframe_rows(&b"x\n\ny\n".to_vec()), b"x\n\ny\n".to_vec());
    assert_eq!(reframe_rows(&b"a\r".to_vec()), b"a\r\n".to_vec());
}

#[test]
fn write_at_replaces_range() {
    let mut d = b"0000000".to_vec();
    write_at(&mut d, 2, &b"abc".to_vec());
    assert_eq!(d, b"00abc00".to_vec());
}

#[test]
fn merge_joins_chunks() {
    let chunks = vec![b"0\n1\n".to_vec(), b"".to_vec(), b"2|x\n".to_vec()];
    assert_eq!(merge_table(&node_header(), &chunks), Some(b"NodeID|data\n0\n1\n2|x\n".to_vec()));
}

#[test]
fn merge_refuses_spilling_chunk() {
    let chunks = vec![b"0\n1".to_vec(), b"2\n".to_vec()];
    assert_eq!(merge_table(&node_header(), &chunks), None);
    let crlf = vec![b"0\r\n".to_vec()];
    assert_eq!(merge_table(&node_header(), &crlf), None);
}

#[test]
fn generated_node_rows() {
    let mut cfg = config(100, Dist::Uniform, Dist::Uniform, Dist::Disabled, false);
    cfg.min_prop_size = 30;
    cfg.max_prop_size = 30;
    let mut rng = StdRng::seed_from_u64(7);
    let c = chunk_range(100, 4, 1);
    let degree = cfg.degree(ONE / 1000 + 1);
    assert_eq!(degree, 10);
    let rows = generate_node(&mut rng, &cfg, c, 30, ONE / 2, ONE / 1000 + 1, &vec![0; degree]);
    assert_eq!(rows.stats, b"30 10\n".to_vec());
    assert_eq!(rows.dsts.len(), 10);
    assert!(rows.dsts.iter().all(|&d| d < 100));
    assert!(rows.node.starts_with(b"30|"));
    assert!(rows.node.ends_with(b"\n"));
    let encoded = &rows.node[3..rows.node.len() - 1];
    assert!(encoded.len() >= 10 && encoded.len() <= 30);
    let edges = String::from_utf8(rows.edges).unwrap();
    let lines: Vec<&str> = edges.lines().collect();
    assert_eq!(lines.len(), 10);
    for (line, d) in lines.iter().zip(rows.dsts.iter()) {
        assert_eq!(*line, format!("30|{}", d));
    }
}

#[test]
fn generated_edge_properties() {
    let mut cfg = config(50, Dist::Normal, Dist::Disabled, Dist::Uniform, false);
    cfg.min_prop_size = 6;
    cfg.max_prop_size = 6;
    let mut rng = StdRng::seed_from_u64(11);
    let c = chunk_range(50, 1, 0);
    let degree = cfg.degree(ONE / 2000 + 1);
    assert_eq!(degree, 5);
    let rows = generate_node(&mut rng, &cfg, c, 4, 0, ONE / 2000 + 1, &vec![ONE / 2; degree]);
    assert_eq!(rows.node, b"4\n".to_vec());
    let edges = String::from_utf8(rows.edges).unwrap();
    for line in edges.lines() {
        let parts: Vec<&str> = line.split('|').collect();
        assert_eq!(parts.len(), 3);
        assert_eq!(parts[0], "4");
        assert!(parts[2].len() >= 2 && parts[2].len() <= 6);
    }
}

#[test]
fn scenario_plain_ids_merge() {
    let cfg = config(10, Dist::Disabled, Dist::Disabled, Dist::Disabled, false);
    let mut rng = StdRng::seed_from_u64(1);
    let mut node_chunks = Vec::new();
    let mut edge_chunks = Vec::new();
    for c in chunk_ranges(10, 2) {
        let (nodes, edges, stats, _) = gen_chunk(&cfg, c, &mut rng, ONE / 2, ONE / 2);
        assert_eq!(stats.iter().filter(|&&b| b == b'\n').count(), c.end - c.start);
        node_chunks.push(nodes);
        edge_chunks.push(edges);
    }
    let nodes = merge_table(&node_header(), &node_chunks).unwrap();
    let edges = merge_table(&edge_header(), &edge_chunks).unwrap();
    let text = String::from_utf8(nodes).unwrap();
    let lines: Vec<&str> = text.lines().collect();
    assert_eq!(lines.len(), 11);
    assert_eq!(lines[0], "NodeID|data");
    for i in 0..10 {
        assert_eq!(lines[i + 1], i.to_string());
    }
    assert_eq!(edges, b"SrcID|DstID\n".to_vec());
}

#[test]
fn scenario_incremental_chunks_kept() {
    let cfg = config(9, Dist::Uniform, Dist::Disabled, Dist::Disabled, true);
    let mut rng = StdRng::seed_from_u64(2);
    let chunks = chunk_ranges(9, 3);
    assert_eq!(chunks.len(), 3);
    let expected = [b"0\n1\n2\n".to_vec(), b"3\n4\n5\n".to_vec(), b"6\n7\n8\n".to_vec()];
    for (i, c) in chunks.iter().enumerate() {
        assert_eq!(*c, ChunkRange { start: 3 * i, end: 3 * i + 3 });
        let (nodes, _, _, _) = gen_chunk(&cfg, *c, &mut rng, 0, ONE / 1000);
        assert_eq!(nodes, expected[i]);
    }
    assert_eq!(next_phase(Phase::Generating, true), Phase::DoneEarly);
    assert!(is_terminal(Phase::DoneEarly));
}

#[test]
fn scenario_incremental_edges_stay_behind_chunk_end() {
    let cfg = config(90, Dist::Uniform, Dist::Disabled, Dist::Disabled, true);
    let mut rng = StdRng::seed_from_u64(3);
    for c in chunk_ranges(90, 3) {
        let (_, edges, _, dsts) = gen_chunk(&cfg, c, &mut rng, 0, ONE / 100 + 1);
        assert_eq!(dsts.len(), 100 * (c.end - c.start));
        assert!(dsts.iter().all(|&d| d < c.end));
        let text = String::from_utf8(edges).unwrap();
        for line in text.lines() {
            let dst: usize = line.split('|').nth(1).unwrap().parse().unwrap();
            assert!(dst < c.end);
        }
    }
}

#[test]
fn phases_in_order() {
    let mut p = Phase::Init;
    let mut seen = vec![p];
    while !is_terminal(p) {
        p = next_phase(p, false);
        seen.push(p);
    }
    assert_eq!(
        seen,
        vec![Phase::Init, Phase::Generating, Phase::Planning, Phase::Merging, Phase::Done]
    );
    assert_eq!(next_phase(Phase::Done, false), Phase::Done);
}

#[test]
fn rows_fit_planned_range() {
    assert_eq!(rows_for_range(&b"1\n2\n".to_vec(), 12, 16), Some(b"1\n2\n".to_vec()));
    assert_eq!(rows_for_range(&b"1\n2".to_vec(), 12, 15), None);
    assert_eq!(rows_for_range(&b"1\n2".to_vec(), 12, 16), Some(b"1\n2\n".to_vec()));
    assert_eq!(rows_for_range(&b"".to_vec(), 5, 4), None);
}
