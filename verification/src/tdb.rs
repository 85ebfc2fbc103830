//! MSTS track databases: joining the points of a vector node into edges.
use vstd::prelude::*;

use crate::msts::TdbPin;

verus! {

/// A point of a vector node's chain: the track node placed there, and the
/// vector section it was read from (none for a pin's end node).
#[derive(Clone, Copy, Debug)]
pub struct ChainPoint {
    pub id: u64,
    pub section: Option<usize>,
}

/// An edge between two consecutive chain points.
#[derive(Clone, Copy, Debug)]
pub struct ChainEdge {
    pub id: u64,
    pub from: u64,
    pub to: u64,
    /// The vector section the edge is attributed to.
    pub section_hint: usize,
}

/// The section an edge from `a` to `b` is attributed to: `a`'s, else `b`'s, else 0.
pub open spec fn section_hint(a: ChainPoint, b: ChainPoint) -> usize {
    match a.section {
        Some(s) => s,
        None => match b.section {
            Some(s) => s,
            None => 0,
        },
    }
}

/// The edges joining the first `k` consecutive pairs of a chain, numbered from
/// `next` on, and the joined pairs: `seen` followed by the new ones. A pair
/// that joins a node to itself or was joined before is skipped.
pub open spec fn chain_upto(chain: Seq<ChainPoint>, seen: Seq<(u64, u64)>, next: u64, k: int) -> (Seq<ChainEdge>, Seq<(u64, u64)>)
    decreases k,
{
    if k <= 0 {
        (Seq::empty(), seen)
    } else {
        let (edges, pairs) = chain_upto(chain, seen, next, k - 1);
        let a = chain[k - 1];
        let b = chain[k];
        if a.id == b.id || pairs.contains((a.id, b.id)) {
            (edges, pairs)
        } else {
            (
                edges.push(ChainEdge { id: (next + edges.len()) as u64, from: a.id, to: b.id, section_hint: section_hint(a, b) }),
                pairs.push((a.id, b.id)),
            )
        }
    }
}

/// The number of consecutive pairs in a chain.
pub open spec fn pair_count(chain: Seq<ChainPoint>) -> int {
    if chain.len() == 0 {
        0
    } else {
        chain.len() - 1
    }
}

/// The edges joining a whole chain, and the pairs joined afterwards.
pub open spec fn chain_edges_of(chain: Seq<ChainPoint>, seen: Seq<(u64, u64)>, next: u64) -> (Seq<ChainEdge>, Seq<(u64, u64)>) {
    chain_upto(chain, seen, next, pair_count(chain))
}

pub open spec fn edge_pair(e: ChainEdge) -> (u64, u64) {
    (e.from, e.to)
}

fn contains_pair(pairs: &Vec<(u64, u64)>, p: (u64, u64)) -> (r: bool)
    ensures
        r == pairs@.contains(p),
{
    let mut i: usize = 0;
    while i < pairs.len()
        invariant
            i <= pairs@.len(),
            forall|j: int| 0 <= j < i ==> pairs@[j] != p,
        decreases pairs.len() - i,
    {
        let q = pairs[i];
        if q.0 == p.0 && q.1 == p.1 {
            assert(pairs@[i as int] == p);
            return true;
        }
        i += 1;
    }
    false
}

/// Joins consecutive points of a chain into edges numbered from `next_id` on,
/// skipping a pair that joins a node to itself or that `seen` already holds;
/// each new pair is added to `seen`.
pub fn chain_edges(chain: &[ChainPoint], seen: &mut Vec<(u64, u64)>, next_id: u64) -> (r: Vec<ChainEdge>)
    requires
        next_id + chain.len() <= u64::MAX,
    ensures
        (r@, final(seen)@) == chain_edges_of(chain@, old(seen)@, next_id),
{
    let mut edges: Vec<ChainEdge> = Vec::new();
    if chain.len() == 0 {
        return edges;
    }
    let mut k: usize = 0;
    while k + 1 < chain.len()
        invariant
            k + 1 <= chain@.len(),
            next_id + chain@.len() <= u64::MAX,
            edges@.len() <= k,
            (edges@, seen@) == chain_upto(chain@, old(seen)@, next_id, k as int),
        decreases chain.len() - k,
    {
        let a = chain[k];
        let b = chain[k + 1];
        if a.id != b.id && !contains_pair(seen, (a.id, b.id)) {
            let hint: usize = match a.section {
                Some(s) => s,
                None => match b.section {
                    Some(s) => s,
                    None => 0,
                },
            };
            let id: u64 = next_id + edges.len() as u64;
            edges.push(ChainEdge { id, from: a.id, to: b.id, section_hint: hint });
            seen.push((a.id, b.id));
        }
        k += 1;
    }
    edges
}

proof fn lemma_chain_upto(chain: Seq<ChainPoint>, seen: Seq<(u64, u64)>, next: u64, k: int)
    requires
        0 <= k <= pair_count(chain),
        next + chain.len() <= u64::MAX,
    ensures
        ({
            let (edges, pairs) = chain_upto(chain, seen, next, k);
            &&& edges.len() <= k
            &&& pairs == seen + edges.map_values(|e: ChainEdge| edge_pair(e))
            &&& forall|i: int| 0 <= i < edges.len() ==> #[trigger] edges[i].id == next + i && edges[i].from != edges[i].to
            &&& forall|i: int| 0 <= i < edges.len() ==> !seen.contains(edge_pair(#[trigger] edges[i]))
            &&& forall|i: int, j: int| 0 <= i < j < edges.len() ==> edge_pair(#[trigger] edges[i]) != edge_pair(#[trigger] edges[j])
        }),
    decreases k,
{
    if k > 0 {
        lemma_chain_upto(chain, seen, next, k - 1);
        let (edges, pairs) = chain_upto(chain, seen, next, k - 1);
        let a = chain[k - 1];
        let b = chain[k];
        if !(a.id == b.id || pairs.contains((a.id, b.id))) {
            let e = ChainEdge { id: (next + edges.len()) as u64, from: a.id, to: b.id, section_hint: section_hint(a, b) };
            let ne = edges.push(e);
            assert(ne.map_values(|x: ChainEdge| edge_pair(x)) =~= edges.map_values(|x: ChainEdge| edge_pair(x)).push((a.id, b.id)));
            assert(pairs.push((a.id, b.id)) =~= seen + ne.map_values(|x: ChainEdge| edge_pair(x)));
            assert forall|i: int| 0 <= i < ne.len() implies !seen.contains(edge_pair(#[trigger] ne[i])) by {
                if i == edges.len() {
                    if seen.contains((a.id, b.id)) {
                        let w = choose|w: int| 0 <= w < seen.len() && seen[w] == (a.id, b.id);
                        assert(pairs[w] == (a.id, b.id));
                    }
                }
            }
            assert forall|i: int, j: int| 0 <= i < j < ne.len() implies edge_pair(#[trigger] ne[i]) != edge_pair(#[trigger] ne[j]) by {
                if j == edges.len() {
                    assert(pairs[seen.len() + i] == edge_pair(edges[i]));
                }
            }
        }
    }
}

/// The edges joining a chain never join a node to itself and never repeat a
/// pair, neither among themselves nor with a pair joined before; they are
/// numbered from `next` on without gaps, and the joined pairs afterwards are
/// those before followed by the new edges' pairs.
pub proof fn law_chain_edges_are_distinct(chain: Seq<ChainPoint>, seen: Seq<(u64, u64)>, next: u64)
    requires
        next + chain.len() <= u64::MAX,
    ensures
        ({
            let (edges, pairs) = chain_edges_of(chain, seen, next);
            &&& pairs == seen + edges.map_values(|e: ChainEdge| edge_pair(e))
            &&& forall|i: int| 0 <= i < edges.len() ==> #[trigger] edges[i].id == next + i && edges[i].from != edges[i].to
            &&& forall|i: int| 0 <= i < edges.len() ==> !seen.contains(edge_pair(#[trigger] edges[i]))
            &&& forall|i: int, j: int| 0 <= i < j < edges.len() ==> edge_pair(#[trigger] edges[i]) != edge_pair(#[trigger] edges[j])
        }),
{
    lemma_chain_upto(chain, seen, next, pair_count(chain));
}

/// Whether any pin has a direction other than 0 or 1.
pub fn pin_directions_ignored(pins: &[TdbPin]) -> (r: bool)
    ensures
        r == exists|i: int| 0 <= i < pins@.len() && pins@[i].direction != 0 && pins@[i].direction != 1,
{
    let mut i: usize = 0;
    while i < pins.len()
        invariant
            i <= pins@.len(),
            forall|j: int| 0 <= j < i ==> pins@[j].direction == 0 || pins@[j].direction == 1,
        decreases pins.len() - i,
    {
        if pins[i].direction != 0 && pins[i].direction != 1 {
            return true;
        }
        i += 1;
    }
    false
}

} // verus!
