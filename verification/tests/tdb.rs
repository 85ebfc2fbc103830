use railweave::msts::TdbPin;
use railweave::tdb::{chain_edges, pin_directions_ignored, ChainPoint};

fn point(id: u64, section: Option<usize>) -> ChainPoint {
    ChainPoint { id, section }
}

#[test]
fn chain_edges_join_consecutive_points_with_fresh_ids() {
    let chain = vec![point(1, None), point(10, Some(0)), point(11, Some(1)), point(2, None)];
    let mut seen = Vec::new();
    let edges = chain_edges(&chain, &mut seen, 20);
    let got: Vec<(u64, u64, u64, usize)> = edges.iter().map(|e| (e.id, e.from, e.to, e.section_hint)).collect();
    assert_eq!(got, vec![(20, 1, 10, 0), (21, 10, 11, 0), (22, 11, 2, 1)]);
    assert_eq!(seen, vec![(1, 10), (10, 11), (11, 2)]);
}

#[test]
fn chain_edges_skip_repeated_and_self_pairs() {
    let mut seen = vec![(1, 10)];
    let chain = vec![point(1, None), point(10, Some(3)), point(10, Some(4)), point(7, None)];
    let edges = chain_edges(&chain, &mut seen, 5);
    let got: Vec<(u64, u64, u64, usize)> = edges.iter().map(|e| (e.id, e.from, e.to, e.section_hint)).collect();
    assert_eq!(got, vec![(5, 10, 7, 4)]);
    assert_eq!(seen, vec![(1, 10), (10, 7)]);
}

#[test]
fn chain_edges_of_a_single_point_are_empty() {
    let mut seen = Vec::new();
    assert!(chain_edges(&[point(3, Some(0))], &mut seen, 1).is_empty());
    assert!(chain_edges(&[], &mut seen, 1).is_empty());
    assert!(seen.is_empty());
}

#[test]
fn pin_directions_outside_zero_and_one_are_noticed() {
    let usual = [TdbPin { link: 1, direction: 0 }, TdbPin { link: 2, direction: 1 }];
    assert!(!pin_directions_ignored(&usual));
    let odd = [TdbPin { link: 1, direction: 1 }, TdbPin { link: 2, direction: 2 }];
    assert!(pin_directions_ignored(&odd));
    assert!(!pin_directions_ignored(&[]));
}
