//! Choosing the driveable player path that an OpenBVE route follows.
use vstd::prelude::*;

use crate::model::{Diagnostic, DiagnosticView, Provenance, Severity, SourceFormat, diagnostic_views, opt_provenance};
use crate::text::{append, chars_of, contains, decimal, ends_with, has_substring, has_suffix, push_number, push_str, string_of};

verus! {

/// The graph facts of one track edge that path selection reads.
#[derive(Debug)]
pub struct EdgeLink {
    pub id: u64,
    pub from: u64,
    pub to: u64,
    pub provenance: Option<Provenance>,
}

/// Why an export could not be written.
#[derive(Debug)]
pub struct ExportError {
    pub code: String,
    pub message: String,
}

pub struct ErrorView {
    pub code: Seq<char>,
    pub message: Seq<char>,
}

impl ExportError {
    pub open spec fn view(&self) -> ErrorView {
        ErrorView { code: self.code@, message: self.message@ }
    }

    pub fn new(code: &str, message: String) -> (e: ExportError)
        ensures
            e.view() == (ErrorView { code: code@, message: message@ }),
    {
        ExportError { code: code.to_owned(), message }
    }

    /// `code: message`, as the error is displayed.
    pub fn to_message(&self) -> (s: String)
        ensures
            s@ == self.code@ + ": "@ + self.message@,
    {
        let mut v = chars_of(self.code.as_str());
        append(&mut v, &chars_of(": "));
        append(&mut v, &chars_of(self.message.as_str()));
        string_of(&v)
    }
}

/// An edge whose source id marks it as the main path (`...:main`).
pub open spec fn is_main(e: EdgeLink) -> bool {
    match e.provenance {
        Some(p) => match p.source_id {
            Some(s) => ends_with(s@, ":main"@),
            None => false,
        },
        None => false,
    }
}

pub fn is_main_edge(e: &EdgeLink) -> (r: bool)
    ensures
        r == is_main(*e),
{
    match &e.provenance {
        Some(p) => match &p.source_id {
            Some(s) => has_suffix(&chars_of(s.as_str()), &chars_of(":main")),
            None => false,
        },
        None => false,
    }
}

/// An MSTS/OpenRails edge whose section geometry is known to be straight.
pub open spec fn is_known_straight(p: Option<Provenance>) -> bool {
    match p {
        Some(p) => p.source_format == SourceFormat::MstsOpenRails && match p.source_id {
            Some(s) => contains(s@, ":geometry=straight"@),
            None => false,
        },
        None => false,
    }
}

pub fn is_known_msts_straight(p: &Option<Provenance>) -> (r: bool)
    ensures
        r == is_known_straight(*p),
{
    match p {
        Some(p) => p.source_format == SourceFormat::MstsOpenRails && match &p.source_id {
            Some(s) => has_substring(&chars_of(s.as_str()), &chars_of(":geometry=straight")),
            None => false,
        },
        None => false,
    }
}

pub open spec fn dangling(nodes: Seq<u64>, e: EdgeLink) -> bool {
    !nodes.contains(e.from) || !nodes.contains(e.to)
}

/// The first edge at or after `k` that names a node the network lacks.
pub open spec fn first_dangling(nodes: Seq<u64>, edges: Seq<EdgeLink>, k: int) -> Option<int>
    decreases edges.len() - k,
{
    if k < 0 || k >= edges.len() {
        None
    } else if dangling(nodes, edges[k]) {
        Some(k)
    } else {
        first_dangling(nodes, edges, k + 1)
    }
}

/// Indices below `k` of the edges leaving `n`, in edge order.
pub open spec fn out_upto(edges: Seq<EdgeLink>, n: u64, k: int) -> Seq<int>
    decreases k,
{
    if k <= 0 {
        Seq::empty()
    } else if edges[k - 1].from == n {
        out_upto(edges, n, k - 1).push(k - 1)
    } else {
        out_upto(edges, n, k - 1)
    }
}

pub open spec fn out_edges(edges: Seq<EdgeLink>, n: u64) -> Seq<int> {
    out_upto(edges, n, edges.len() as int)
}

/// Indices below `k` of the main-path edges leaving `n`.
pub open spec fn main_upto(edges: Seq<EdgeLink>, n: u64, k: int) -> Seq<int>
    decreases k,
{
    if k <= 0 {
        Seq::empty()
    } else if edges[k - 1].from == n && is_main(edges[k - 1]) {
        main_upto(edges, n, k - 1).push(k - 1)
    } else {
        main_upto(edges, n, k - 1)
    }
}

pub open spec fn main_out(edges: Seq<EdgeLink>, n: u64) -> Seq<int> {
    main_upto(edges, n, edges.len() as int)
}

/// Among `idx`, the edge with the smallest id; among equal ids, the earliest.
pub open spec fn first_by_id(edges: Seq<EdgeLink>, idx: Seq<int>) -> int
    decreases idx.len(),
{
    if idx.len() <= 1 {
        idx[0]
    } else {
        let b = first_by_id(edges, idx.drop_last());
        if edges[idx.last()].id < edges[b].id {
            idx.last()
        } else {
            b
        }
    }
}

/// The edge the path takes from `n`: the only one, else the only main-path one,
/// else the one with the smallest id.
pub open spec fn choose_edge(edges: Seq<EdgeLink>, n: u64) -> Option<int> {
    let o = out_edges(edges, n);
    if o.len() == 0 {
        None
    } else if o.len() == 1 {
        Some(o[0])
    } else if main_out(edges, n).len() == 1 {
        Some(main_out(edges, n)[0])
    } else {
        Some(first_by_id(edges, o))
    }
}

pub open spec fn has_incoming(edges: Seq<EdgeLink>, n: u64) -> bool {
    exists|i: int| 0 <= i < edges.len() && edges[i].to == n
}

/// Nodes that edges below `k` leave and that no edge enters, in order of first use.
pub open spec fn starts_upto(edges: Seq<EdgeLink>, k: int) -> Seq<u64>
    decreases k,
{
    if k <= 0 {
        Seq::empty()
    } else {
        let r = starts_upto(edges, k - 1);
        let f = edges[k - 1].from;
        if !has_incoming(edges, f) && !r.contains(f) {
            r.push(f)
        } else {
            r
        }
    }
}

pub open spec fn path_starts(edges: Seq<EdgeLink>) -> Seq<u64> {
    starts_upto(edges, edges.len() as int)
}

pub open spec fn seq_min(s: Seq<u64>) -> u64
    decreases s.len(),
{
    if s.len() <= 1 {
        s[0]
    } else {
        let m = seq_min(s.drop_last());
        if s.last() < m {
            s.last()
        } else {
            m
        }
    }
}

pub open spec fn warning(code: Seq<char>, message: Seq<char>) -> DiagnosticView {
    DiagnosticView { severity: Severity::Warning, code, message, provenance: None }
}

pub open spec fn msg_branch(node: u64, count: nat, id: u64, main: bool) -> Seq<char> {
    "node "@ + decimal(node as nat) + " has "@ + decimal(count) + " outgoing edges; selected edge "@
        + decimal(id as nat) + if main {
        " because it is marked as the main path"@
    } else {
        " by stable edge-id order"@
    }
}

pub open spec fn err(code: Seq<char>, message: Seq<char>) -> ErrorView {
    ErrorView { code, message }
}

pub open spec fn loop_at_node(node: u64) -> ErrorView {
    err("RW404_OPENBVE_PATH_LOOP"@, "selected driveable path loops at node "@ + decimal(node as nat))
}

pub open spec fn repeated_edge(id: u64) -> ErrorView {
    err("RW404_OPENBVE_PATH_LOOP"@, "selected driveable path repeats edge "@ + decimal(id as nat))
}

/// The walk from `current` on: the edges taken so far, the diagnostics written,
/// the nodes left and the edge ids used; at most `fuel` more edges.
pub open spec fn walk(
    edges: Seq<EdgeLink>,
    current: u64,
    visited: Set<u64>,
    ids: Set<u64>,
    acc: Seq<int>,
    diags: Seq<DiagnosticView>,
    fuel: nat,
) -> Result<(Seq<int>, Seq<DiagnosticView>), ErrorView>
    decreases fuel,
{
    if visited.contains(current) {
        Err(loop_at_node(current))
    } else {
        match choose_edge(edges, current) {
            None => Ok((acc, diags)),
            Some(e) => {
                let cands = out_edges(edges, current);
                let id = edges[e].id;
                let diags2 = if cands.len() > 1 {
                    diags.push(
                        warning(
                            "RW405_OPENBVE_BRANCH_SELECTED"@,
                            msg_branch(current, cands.len(), id, main_out(edges, current).len() == 1),
                        ),
                    )
                } else {
                    diags
                };
                if ids.contains(id) {
                    Err(repeated_edge(id))
                } else if fuel == 0 {
                    Err(loop_at_node(current))
                } else {
                    walk(
                        edges,
                        edges[e].to,
                        visited.insert(current),
                        ids.insert(id),
                        acc.push(e),
                        diags2,
                        (fuel - 1) as nat,
                    )
                }
            },
        }
    }
}

pub open spec fn msg_dangling(e: EdgeLink) -> Seq<char> {
    "edge "@ + decimal(e.id as nat) + " references missing node "@ + decimal(e.from as nat) + " -> "@
        + decimal(e.to as nat)
}

pub open spec fn msg_starts(count: nat, start: u64) -> Seq<char> {
    decimal(count) + " possible path starts found; selected node "@ + decimal(start as nat)
        + " deterministically"@
}

pub open spec fn msg_dropped(selected: nat, total: nat) -> Seq<char> {
    "selected "@ + decimal(selected) + " of "@ + decimal(total)
        + " track edges for player rail 0; remaining branches are not exported yet"@
}

/// The driveable path through a network: the indices of the chosen edges in
/// travel order, and the diagnostics about what was left out.
pub open spec fn driveable_path(nodes: Seq<u64>, edges: Seq<EdgeLink>) -> Result<
    (Seq<int>, Seq<DiagnosticView>),
    ErrorView,
> {
    if edges.len() == 0 {
        Err(err("RW400_OPENBVE_EMPTY_NETWORK"@, "the project has no track edges to export"@))
    } else {
        match first_dangling(nodes, edges, 0) {
            Some(k) => Err(err("RW401_OPENBVE_DANGLING_EDGE"@, msg_dangling(edges[k]))),
            None => {
                let starts = path_starts(edges);
                if starts.len() == 0 {
                    Err(
                        err(
                            "RW402_OPENBVE_NO_PATH_START"@,
                            "the track graph has no unambiguous entry node; cyclic networks need an explicit service/path selector"@,
                        ),
                    )
                } else {
                    let start = seq_min(starts);
                    let d0 = if starts.len() > 1 {
                        seq![
                            warning(
                                "RW403_OPENBVE_MULTIPLE_STARTS"@,
                                msg_starts(starts.len(), start),
                            ),
                        ]
                    } else {
                        Seq::empty()
                    };
                    finish(walk(edges, start, Set::empty(), Set::empty(), Seq::empty(), d0, edges.len()), edges.len())
                }
            },
        }
    }
}

/// A finished walk, with the note on the edges it leaves out.
pub open spec fn finish(w: Result<(Seq<int>, Seq<DiagnosticView>), ErrorView>, total: nat) -> Result<
    (Seq<int>, Seq<DiagnosticView>),
    ErrorView,
> {
    match w {
        Err(e) => Err(e),
        Ok(r) => Ok(
            (
                r.0,
                if r.0.len() < total {
                    r.1.push(warning("RW406_OPENBVE_BRANCHES_DROPPED"@, msg_dropped(r.0.len(), total)))
                } else {
                    r.1
                },
            ),
        ),
    }
}

proof fn lemma_out_upto(edges: Seq<EdgeLink>, n: u64, k: int)
    requires
        k <= edges.len(),
    ensures
        forall|j: int| 0 <= j < out_upto(edges, n, k).len() ==> 0 <= #[trigger] out_upto(edges, n, k)[j] < k
            && edges[out_upto(edges, n, k)[j]].from == n,
        forall|j: int| 0 <= j < main_upto(edges, n, k).len() ==> 0 <= #[trigger] main_upto(edges, n, k)[j] < k
            && edges[main_upto(edges, n, k)[j]].from == n,
    decreases k,
{
    if k > 0 {
        lemma_out_upto(edges, n, k - 1);
    }
}

proof fn lemma_first_by_id_member(edges: Seq<EdgeLink>, idx: Seq<int>)
    requires
        idx.len() > 0,
    ensures
        idx.contains(first_by_id(edges, idx)),
    decreases idx.len(),
{
    if idx.len() > 1 {
        lemma_first_by_id_member(edges, idx.drop_last());
        let b = first_by_id(edges, idx.drop_last());
        let j = choose|j: int| 0 <= j < idx.drop_last().len() && idx.drop_last()[j] == b;
        assert(idx[j] == b);
        assert(idx[idx.len() - 1] == idx.last());
    } else {
        assert(idx[0] == first_by_id(edges, idx));
    }
}

/// The edge chosen at `n` leaves `n`.
pub proof fn lemma_choice_leaves(edges: Seq<EdgeLink>, n: u64)
    ensures
        choose_edge(edges, n) matches Some(e) ==> 0 <= e < edges.len() && edges[e].from == n,
{
    lemma_out_upto(edges, n, edges.len() as int);
    let o = out_edges(edges, n);
    if o.len() > 1 && main_out(edges, n).len() != 1 {
        lemma_first_by_id_member(edges, o);
    }
}

/// The selected edges form a path: each is the choice at the node it leaves,
/// each starts where the previous ended, no node is left twice, and no edge id
/// repeats.
pub open spec fn chain_ok(edges: Seq<EdgeLink>, sel: Seq<int>) -> bool {
    &&& forall|k: int|
        0 <= k < sel.len() ==> 0 <= #[trigger] sel[k] < edges.len() && choose_edge(edges, edges[sel[k]].from) == Some(sel[k])
    &&& forall|k: int| 0 <= k < sel.len() - 1 ==> edges[#[trigger] sel[k]].to == edges[sel[k + 1]].from
    &&& forall|j: int, k: int| 0 <= j < k < sel.len() ==> edges[#[trigger] sel[j]].from != edges[#[trigger] sel[k]].from
    &&& forall|j: int, k: int| 0 <= j < k < sel.len() ==> edges[#[trigger] sel[j]].id != edges[#[trigger] sel[k]].id
}

/// Where a path that starts at `start` ends.
pub open spec fn end_node(edges: Seq<EdgeLink>, sel: Seq<int>, start: u64) -> u64 {
    if sel.len() == 0 {
        start
    } else {
        edges[sel.last()].to
    }
}

proof fn lemma_walk_chain(
    edges: Seq<EdgeLink>,
    start: u64,
    current: u64,
    visited: Set<u64>,
    ids: Set<u64>,
    acc: Seq<int>,
    diags: Seq<DiagnosticView>,
    fuel: nat,
)
    requires
        chain_ok(edges, acc),
        current == end_node(edges, acc, start),
        forall|x: u64| visited.contains(x) <==> exists|k: int| 0 <= k < acc.len() && #[trigger] edges[acc[k]].from == x,
        forall|x: u64| ids.contains(x) <==> exists|k: int| 0 <= k < acc.len() && #[trigger] edges[acc[k]].id == x,
    ensures
        walk(edges, current, visited, ids, acc, diags, fuel) matches Ok(r) ==> {
            &&& chain_ok(edges, r.0)
            &&& acc.len() <= r.0.len()
            &&& r.0.take(acc.len() as int) == acc
            &&& choose_edge(edges, end_node(edges, r.0, start)) is None
            &&& forall|k: int| 0 <= k < r.0.len() ==> edges[#[trigger] r.0[k]].from != end_node(edges, r.0, start)
            &&& r.0.len() > acc.len() ==> edges[r.0[acc.len() as int]].from == current
        },
    decreases fuel,
{
    if !visited.contains(current) {
        lemma_choice_leaves(edges, current);
        match choose_edge(edges, current) {
            None => {
                assert(acc.take(acc.len() as int) =~= acc);
                assert forall|k: int| 0 <= k < acc.len() implies edges[#[trigger] acc[k]].from != end_node(edges, acc, start) by {
                    if edges[acc[k]].from == current {
                        assert(visited.contains(current));
                    }
                }
            },
            Some(e) => {
                let id = edges[e].id;
                if !ids.contains(id) && fuel > 0 {
                    let acc2 = acc.push(e);
                    assert(chain_ok(edges, acc2)) by {
                        assert forall|k: int| 0 <= k < acc2.len() - 1 implies edges[#[trigger] acc2[k]].to == edges[acc2[k + 1]].from by {
                            if k < acc.len() - 1 {
                                assert(acc2[k] == acc[k] && acc2[k + 1] == acc[k + 1]);
                            } else {
                                assert(acc2[k] == acc.last());
                            }
                        }
                        assert forall|j: int, k: int| 0 <= j < k < acc2.len() implies edges[#[trigger] acc2[j]].from != edges[#[trigger] acc2[k]].from by {
                            if k == acc.len() {
                                assert(acc2[j] == acc[j]);
                                if edges[acc[j]].from == current {
                                    assert(visited.contains(current));
                                }
                            } else {
                                assert(acc2[j] == acc[j] && acc2[k] == acc[k]);
                            }
                        }
                        assert forall|j: int, k: int| 0 <= j < k < acc2.len() implies edges[#[trigger] acc2[j]].id != edges[#[trigger] acc2[k]].id by {
                            if k == acc.len() {
                                assert(acc2[j] == acc[j]);
                                if edges[acc[j]].id == id {
                                    assert(ids.contains(id));
                                }
                            } else {
                                assert(acc2[j] == acc[j] && acc2[k] == acc[k]);
                            }
                        }
                        assert forall|k: int| 0 <= k < acc2.len() implies 0 <= #[trigger] acc2[k] < edges.len() && choose_edge(edges, edges[acc2[k]].from) == Some(acc2[k]) by {
                            if k < acc.len() {
                                assert(acc2[k] == acc[k]);
                            }
                        }
                    }
                    let v2 = visited.insert(current);
                    let i2 = ids.insert(id);
                    assert forall|x: u64| v2.contains(x) <==> exists|k: int| 0 <= k < acc2.len() && #[trigger] edges[acc2[k]].from == x by {
                        if v2.contains(x) {
                            if x == current {
                                assert(edges[acc2[acc.len() as int]].from == x);
                            } else {
                                let k = choose|k: int| 0 <= k < acc.len() && #[trigger] edges[acc[k]].from == x;
                                assert(acc2[k] == acc[k]);
                            }
                        }
                        if exists|k: int| 0 <= k < acc2.len() && #[trigger] edges[acc2[k]].from == x {
                            let k = choose|k: int| 0 <= k < acc2.len() && #[trigger] edges[acc2[k]].from == x;
                            if k < acc.len() {
                                assert(acc2[k] == acc[k]);
                            }
                        }
                    }
                    assert forall|x: u64| i2.contains(x) <==> exists|k: int| 0 <= k < acc2.len() && #[trigger] edges[acc2[k]].id == x by {
                        if i2.contains(x) {
                            if x == id {
                                assert(edges[acc2[acc.len() as int]].id == x);
                            } else {
                                let k = choose|k: int| 0 <= k < acc.len() && #[trigger] edges[acc[k]].id == x;
                                assert(acc2[k] == acc[k]);
                            }
                        }
                        if exists|k: int| 0 <= k < acc2.len() && #[trigger] edges[acc2[k]].id == x {
                            let k = choose|k: int| 0 <= k < acc2.len() && #[trigger] edges[acc2[k]].id == x;
                            if k < acc.len() {
                                assert(acc2[k] == acc[k]);
                            }
                        }
                    }
                    let cands = out_edges(edges, current);
                    let diags2 = if cands.len() > 1 {
                        diags.push(warning("RW405_OPENBVE_BRANCH_SELECTED"@, msg_branch(current, cands.len(), id, main_out(edges, current).len() == 1)))
                    } else {
                        diags
                    };
                    lemma_walk_chain(edges, start, edges[e].to, v2, i2, acc2, diags2, (fuel - 1) as nat);
                    let w = walk(edges, edges[e].to, v2, i2, acc2, diags2, (fuel - 1) as nat);
                    if let Ok(r) = w {
                        assert(r.0.take(acc.len() as int) =~= r.0.take(acc2.len() as int).take(acc.len() as int));
                        assert(acc2.take(acc.len() as int) =~= acc);
                        assert(r.0[acc.len() as int] == r.0.take(acc2.len() as int)[acc.len() as int]);
                    }
                }
            },
        }
    }
}

/// Law: a selected driveable path joins only known nodes; it leaves the
/// smallest entry node (one that edges leave and none enters); each edge is
/// the choice at its node and begins where the previous one ended; no node is
/// left twice and no edge id repeats; and the path ends at a node that no edge
/// leaves and that the path has not left before.
/// What a finished path satisfies (see `law_driveable_path_is_chain`).
pub open spec fn path_ok(edges: Seq<EdgeLink>, start: u64, sel: Seq<int>) -> bool {
    &&& chain_ok(edges, sel)
    &&& sel.len() > 0
    &&& edges[sel[0]].from == start
    &&& choose_edge(edges, end_node(edges, sel, start)) is None
    &&& forall|k: int| 0 <= k < sel.len() ==> edges[#[trigger] sel[k]].from != end_node(edges, sel, start)
}

#[verifier::rlimit(40)]
proof fn lemma_walk_from_start(edges: Seq<EdgeLink>, start: u64, d0: Seq<DiagnosticView>)
    requires
        exists|i: int| 0 <= i < edges.len() && edges[i].from == start,
    ensures
        walk(edges, start, Set::empty(), Set::empty(), Seq::empty(), d0, edges.len()) matches Ok(r) ==> path_ok(edges, start, r.0),
{
    assert(chain_ok(edges, Seq::<int>::empty()));
    lemma_walk_chain(edges, start, start, Set::empty(), Set::empty(), Seq::empty(), d0, edges.len());
    let w = walk(edges, start, Set::empty(), Set::empty(), Seq::empty(), d0, edges.len());
    if let Ok(r) = w {
        lemma_nonempty_path(edges, start, r.0);
    }
}

proof fn lemma_nonempty_path(edges: Seq<EdgeLink>, start: u64, sel: Seq<int>)
    requires
        choose_edge(edges, end_node(edges, sel, start)) is None,
        exists|i: int| 0 <= i < edges.len() && edges[i].from == start,
    ensures
        sel.len() > 0,
{
    let k = choose|k: int| 0 <= k < edges.len() && edges[k].from == start;
    lemma_out_nonempty(edges, start, k);
}

proof fn lemma_finish_keeps(w: Result<(Seq<int>, Seq<DiagnosticView>), ErrorView>, n: nat, edges: Seq<EdgeLink>, start: u64)
    requires
        w matches Ok(r) ==> path_ok(edges, start, r.0),
    ensures
        finish(w, n) matches Ok(r) ==> path_ok(edges, start, r.0),
{
}

/// Law: a selected driveable path joins only known nodes; it leaves the
/// smallest entry node (one that edges leave and none enters); each edge is
/// the choice at its node and begins where the previous one ended; no node is
/// left twice and no edge id repeats; and the path ends at a node that no edge
/// leaves and that the path has not left before.
pub proof fn law_driveable_path_is_chain(nodes: Seq<u64>, edges: Seq<EdgeLink>)
    ensures
        driveable_path(nodes, edges) matches Ok(r) ==> {
            &&& forall|i: int| 0 <= i < edges.len() ==> !dangling(nodes, #[trigger] edges[i])
            &&& path_starts(edges).len() > 0
            &&& !has_incoming(edges, seq_min(path_starts(edges)))
            &&& path_ok(edges, seq_min(path_starts(edges)), r.0)
        },
{
    if edges.len() > 0 && first_dangling(nodes, edges, 0) is None && path_starts(edges).len() > 0 {
        lemma_no_dangling(nodes, edges, 0);
        let starts = path_starts(edges);
        let start = seq_min(starts);
        lemma_starts(edges, edges.len() as int);
        lemma_seq_min_member(starts);
        let j = choose|j: int| 0 <= j < starts.len() && starts[j] == start;
        assert(!has_incoming(edges, starts[j]));
        let d0 = if starts.len() > 1 {
            seq![warning("RW403_OPENBVE_MULTIPLE_STARTS"@, msg_starts(starts.len(), start))]
        } else {
            Seq::empty()
        };
        lemma_walk_from_start(edges, start, d0);
        let w = walk(edges, start, Set::empty(), Set::empty(), Seq::empty(), d0, edges.len());
        lemma_finish_keeps(w, edges.len(), edges, start);
        assert(driveable_path(nodes, edges) == finish(w, edges.len()));
    }
}

proof fn lemma_no_dangling(nodes: Seq<u64>, edges: Seq<EdgeLink>, k: int)
    requires
        0 <= k,
        first_dangling(nodes, edges, k) is None,
    ensures
        forall|i: int| k <= i < edges.len() ==> !dangling(nodes, #[trigger] edges[i]),
    decreases edges.len() - k,
{
    if k < edges.len() {
        lemma_no_dangling(nodes, edges, k + 1);
    }
}

proof fn lemma_starts(edges: Seq<EdgeLink>, k: int)
    requires
        0 <= k <= edges.len(),
    ensures
        forall|j: int| 0 <= j < starts_upto(edges, k).len() ==> !has_incoming(edges, #[trigger] starts_upto(edges, k)[j])
            && exists|i: int| 0 <= i < edges.len() && edges[i].from == starts_upto(edges, k)[j],
    decreases k,
{
    if k > 0 {
        lemma_starts(edges, k - 1);
        let r = starts_upto(edges, k - 1);
        let f = edges[k - 1].from;
        if !has_incoming(edges, f) && !r.contains(f) {
            let r2 = r.push(f);
            assert forall|j: int| 0 <= j < r2.len() implies !has_incoming(edges, #[trigger] r2[j])
                && exists|i: int| 0 <= i < edges.len() && edges[i].from == r2[j] by {
                if j < r.len() {
                    assert(r2[j] == r[j]);
                } else {
                    assert(edges[k - 1].from == r2[j]);
                }
            }
        }
    }
}

proof fn lemma_seq_min_member(s: Seq<u64>)
    requires
        s.len() > 0,
    ensures
        s.contains(seq_min(s)),
        forall|j: int| 0 <= j < s.len() ==> seq_min(s) <= #[trigger] s[j],
    decreases s.len(),
{
    if s.len() > 1 {
        lemma_seq_min_member(s.drop_last());
        let m = seq_min(s.drop_last());
        let j = choose|j: int| 0 <= j < s.drop_last().len() && s.drop_last()[j] == m;
        assert(s[j] == m);
        assert(s[s.len() - 1] == s.last());
        assert forall|q: int| 0 <= q < s.len() implies seq_min(s) <= #[trigger] s[q] by {
            if q < s.len() - 1 {
                assert(s[q] == s.drop_last()[q]);
            }
        }
    } else {
        assert(s[0] == seq_min(s));
    }
}

proof fn lemma_out_nonempty(edges: Seq<EdgeLink>, n: u64, k: int)
    requires
        0 <= k < edges.len(),
        edges[k].from == n,
    ensures
        out_edges(edges, n).len() > 0,
{
    lemma_out_upto_contains(edges, n, edges.len() as int, k);
}

proof fn lemma_out_upto_contains(edges: Seq<EdgeLink>, n: u64, m: int, k: int)
    requires
        0 <= k < m <= edges.len(),
        edges[k].from == n,
    ensures
        out_upto(edges, n, m).len() > 0,
    decreases m,
{
    if m - 1 > k {
        lemma_out_upto_contains(edges, n, m - 1, k);
    }
}

pub open spec fn idx_view(v: Seq<usize>) -> Seq<int> {
    v.map_values(|i: usize| i as int)
}

fn has_node(nodes: &[u64], x: u64) -> (r: bool)
    ensures
        r == nodes@.contains(x),
{
    let mut i: usize = 0;
    while i < nodes.len()
        invariant
            i <= nodes.len(),
            forall|j: int| 0 <= j < i ==> nodes@[j] != x,
        decreases nodes.len() - i,
    {
        if nodes[i] == x {
            assert(nodes@[i as int] == x);
            return true;
        }
        i += 1;
    }
    false
}

fn find_dangling(nodes: &[u64], edges: &[EdgeLink]) -> (r: Option<usize>)
    ensures
        match r {
            Some(k) => first_dangling(nodes@, edges@, 0) == Some(k as int) && k < edges@.len(),
            None => first_dangling(nodes@, edges@, 0) is None,
        },
{
    let mut k: usize = 0;
    while k < edges.len()
        invariant
            k <= edges.len(),
            first_dangling(nodes@, edges@, 0) == first_dangling(nodes@, edges@, k as int),
        decreases edges.len() - k,
    {
        if !has_node(nodes, edges[k].from) || !has_node(nodes, edges[k].to) {
            return Some(k);
        }
        k += 1;
    }
    None
}

fn outgoing(edges: &[EdgeLink], n: u64, main_only: bool) -> (r: Vec<usize>)
    ensures
        !main_only ==> idx_view(r@) == out_edges(edges@, n),
        main_only ==> idx_view(r@) == main_out(edges@, n),
        forall|j: int| 0 <= j < r@.len() ==> #[trigger] r@[j] < edges@.len(),
{
    let mut r: Vec<usize> = Vec::new();
    let mut k: usize = 0;
    while k < edges.len()
        invariant
            k <= edges.len(),
            !main_only ==> idx_view(r@) == out_upto(edges@, n, k as int),
            main_only ==> idx_view(r@) == main_upto(edges@, n, k as int),
            forall|j: int| 0 <= j < r@.len() ==> #[trigger] r@[j] < edges@.len(),
        decreases edges.len() - k,
    {
        let ghost before = r@;
        if edges[k].from == n && (!main_only || is_main_edge(&edges[k])) {
            r.push(k);
            assert(idx_view(r@) == idx_view(before).push(k as int));
        }
        k += 1;
    }
    r
}

fn smallest_id(edges: &[EdgeLink], idx: &Vec<usize>) -> (r: usize)
    requires
        idx@.len() > 0,
        forall|j: int| 0 <= j < idx@.len() ==> #[trigger] idx@[j] < edges@.len(),
    ensures
        r as int == first_by_id(edges@, idx_view(idx@)),
        r < edges@.len(),
{
    let mut best = idx[0];
    let mut j: usize = 1;
    assert(idx_view(idx@.take(1)) =~= seq![idx@[0] as int]);
    while j < idx.len()
        invariant
            1 <= j <= idx@.len(),
            forall|q: int| 0 <= q < idx@.len() ==> #[trigger] idx@[q] < edges@.len(),
            best as int == first_by_id(edges@, idx_view(idx@.take(j as int))),
            best < edges@.len(),
        decreases idx@.len() - j,
    {
        assert(idx_view(idx@.take(j + 1)).drop_last() =~= idx_view(idx@.take(j as int)));
        assert(idx_view(idx@.take(j + 1)).last() == idx@[j as int] as int);
        if edges[idx[j]].id < edges[best].id {
            best = idx[j];
        }
        j += 1;
    }
    assert(idx@.take(idx@.len() as int) =~= idx@);
    best
}

/// The edge taken from `n`, with the number of candidates and whether exactly
/// one of them is marked as the main path.
fn choose_from(edges: &[EdgeLink], n: u64) -> (r: (Option<usize>, usize, bool))
    ensures
        match r.0 {
            Some(e) => choose_edge(edges@, n) == Some(e as int) && e < edges@.len(),
            None => choose_edge(edges@, n) is None,
        },
        r.1 == out_edges(edges@, n).len(),
        r.2 == (main_out(edges@, n).len() == 1),
{
    let cands = outgoing(edges, n, false);
    let mains = outgoing(edges, n, true);
    let unique_main = mains.len() == 1;
    if cands.len() == 0 {
        (None, 0, unique_main)
    } else if cands.len() == 1 {
        (Some(cands[0]), 1, unique_main)
    } else if unique_main {
        (Some(mains[0]), cands.len(), unique_main)
    } else {
        (Some(smallest_id(edges, &cands)), cands.len(), unique_main)
    }
}

fn entered(edges: &[EdgeLink], n: u64) -> (r: bool)
    ensures
        r == has_incoming(edges@, n),
{
    let mut i: usize = 0;
    while i < edges.len()
        invariant
            i <= edges.len(),
            forall|j: int| 0 <= j < i ==> edges@[j].to != n,
        decreases edges.len() - i,
    {
        if edges[i].to == n {
            return true;
        }
        i += 1;
    }
    false
}

fn entry_nodes(edges: &[EdgeLink]) -> (r: Vec<u64>)
    ensures
        r@ == path_starts(edges@),
{
    let mut r: Vec<u64> = Vec::new();
    let mut k: usize = 0;
    while k < edges.len()
        invariant
            k <= edges.len(),
            r@ == starts_upto(edges@, k as int),
        decreases edges.len() - k,
    {
        let f = edges[k].from;
        if !entered(edges, f) && !has_node(&r, f) {
            r.push(f);
        }
        k += 1;
    }
    r
}

fn minimum(s: &Vec<u64>) -> (m: u64)
    requires
        s@.len() > 0,
    ensures
        m == seq_min(s@),
{
    let mut m = s[0];
    let mut j: usize = 1;
    assert(s@.take(1) =~= seq![s@[0]]);
    while j < s.len()
        invariant
            1 <= j <= s@.len(),
            m == seq_min(s@.take(j as int)),
        decreases s@.len() - j,
    {
        assert(s@.take(j + 1).drop_last() =~= s@.take(j as int));
        if s[j] < m {
            m = s[j];
        }
        j += 1;
    }
    assert(s@.take(s@.len() as int) =~= s@);
    m
}

fn warn(code: &str, message: Vec<char>) -> (d: Diagnostic)
    ensures
        d.view() == warning(code@, message@),
{
    Diagnostic::new(Severity::Warning, code, string_of(&message))
}

fn fail(code: &str, message: Vec<char>) -> (e: ExportError)
    ensures
        e.view() == err(code@, message@),
{
    ExportError::new(code, string_of(&message))
}

/// Chooses the driveable path through a track graph.
///
/// Every edge must join known nodes. The path starts at the smallest node that
/// edges leave and none enters, follows at each node the single outgoing edge,
/// else the single edge marked as the main path, else the edge with the smallest
/// id, and stops where no edge leaves. A path that returns to a node or reuses an
/// edge id is refused. The result lists edge indices in travel order.
pub fn select_driveable_path(nodes: &[u64], edges: &[EdgeLink]) -> (r: Result<
    (Vec<usize>, Vec<Diagnostic>),
    ExportError,
>)
    ensures
        match r {
            Ok(p) => driveable_path(nodes@, edges@) == Ok::<(Seq<int>, Seq<DiagnosticView>), ErrorView>((idx_view(p.0@), diagnostic_views(p.1@))),
            Err(e) => driveable_path(nodes@, edges@) == Err::<(Seq<int>, Seq<DiagnosticView>), ErrorView>(e.view()),
        },
{
    if edges.len() == 0 {
        return Err(ExportError::new("RW400_OPENBVE_EMPTY_NETWORK", "the project has no track edges to export".to_owned()));
    }
    if let Some(k) = find_dangling(nodes, edges) {
        let mut m: Vec<char> = Vec::new();
        push_str(&mut m, "edge ");
        push_number(&mut m, edges[k].id);
        push_str(&mut m, " references missing node ");
        push_number(&mut m, edges[k].from);
        push_str(&mut m, " -> ");
        push_number(&mut m, edges[k].to);
        assert(m@ =~= msg_dangling(edges@[k as int]));
        return Err(fail("RW401_OPENBVE_DANGLING_EDGE", m));
    }
    let starts = entry_nodes(edges);
    if starts.len() == 0 {
        return Err(ExportError::new(
            "RW402_OPENBVE_NO_PATH_START",
            "the track graph has no unambiguous entry node; cyclic networks need an explicit service/path selector".to_owned(),
        ));
    }
    let start = minimum(&starts);
    let mut diagnostics: Vec<Diagnostic> = Vec::new();
    if starts.len() > 1 {
        let mut m: Vec<char> = Vec::new();
        push_number(&mut m, starts.len() as u64);
        push_str(&mut m, " possible path starts found; selected node ");
        push_number(&mut m, start);
        push_str(&mut m, " deterministically");
        assert(m@ =~= msg_starts(starts@.len(), start));
        diagnostics.push(warn("RW403_OPENBVE_MULTIPLE_STARTS", m));
    }
    let ghost d0 = diagnostic_views(diagnostics@);
    assert(d0 =~= (if starts@.len() > 1 {
        seq![warning("RW403_OPENBVE_MULTIPLE_STARTS"@, msg_starts(starts@.len(), start))]
    } else {
        Seq::<DiagnosticView>::empty()
    }));
    let ghost total = walk(edges@, start, Set::empty(), Set::empty(), Seq::empty(), d0, edges@.len());
    assert(driveable_path(nodes@, edges@) == finish(total, edges@.len()));
    let mut current = start;
    let mut visited: Vec<u64> = Vec::new();
    let mut used: Vec<u64> = Vec::new();
    let mut selected: Vec<usize> = Vec::new();
    let mut fuel: usize = edges.len();
    let ghost mut vis: Set<u64> = Set::empty();
    let ghost mut ids: Set<u64> = Set::empty();
    assert(idx_view(selected@) =~= Seq::<int>::empty());
    loop
        invariant
            forall|x: u64| vis.contains(x) <==> visited@.contains(x),
            forall|x: u64| ids.contains(x) <==> used@.contains(x),
            forall|j: int| 0 <= j < selected@.len() ==> #[trigger] selected@[j] < edges@.len(),
            walk(edges@, current, vis, ids, idx_view(selected@), diagnostic_views(diagnostics@), fuel as nat) == total,
            driveable_path(nodes@, edges@) == finish(total, edges@.len()),
        decreases fuel,
    {
        if has_node(&visited, current) {
            let mut m: Vec<char> = Vec::new();
            push_str(&mut m, "selected driveable path loops at node ");
            push_number(&mut m, current);
            return Err(fail("RW404_OPENBVE_PATH_LOOP", m));
        }
        let (choice, count, unique_main) = choose_from(edges, current);
        match choice {
            None => {
                if selected.len() < edges.len() {
                    let mut m: Vec<char> = Vec::new();
                    push_str(&mut m, "selected ");
                    push_number(&mut m, selected.len() as u64);
                    push_str(&mut m, " of ");
                    push_number(&mut m, edges.len() as u64);
                    push_str(&mut m, " track edges for player rail 0; remaining branches are not exported yet");
                    assert(m@ =~= msg_dropped(selected@.len(), edges@.len()));
                    let ghost before = diagnostic_views(diagnostics@);
                    diagnostics.push(warn("RW406_OPENBVE_BRANCHES_DROPPED", m));
                    assert(diagnostic_views(diagnostics@) =~= before.push(
                        warning("RW406_OPENBVE_BRANCHES_DROPPED"@, msg_dropped(selected@.len(), edges@.len())),
                    ));
                }
                return Ok((selected, diagnostics));
            },
            Some(e) => {
                let id = edges[e].id;
                if count > 1 {
                    let mut m: Vec<char> = Vec::new();
                    push_str(&mut m, "node ");
                    push_number(&mut m, current);
                    push_str(&mut m, " has ");
                    push_number(&mut m, count as u64);
                    push_str(&mut m, " outgoing edges; selected edge ");
                    push_number(&mut m, id);
                    if unique_main {
                        push_str(&mut m, " because it is marked as the main path");
                    } else {
                        push_str(&mut m, " by stable edge-id order");
                    }
                    assert(m@ =~= msg_branch(current, count as nat, id, unique_main));
                    let ghost before = diagnostic_views(diagnostics@);
                    diagnostics.push(warn("RW405_OPENBVE_BRANCH_SELECTED", m));
                    assert(diagnostic_views(diagnostics@) =~= before.push(
                        warning("RW405_OPENBVE_BRANCH_SELECTED"@, msg_branch(current, count as nat, id, unique_main)),
                    ));
                }
                if has_node(&used, id) {
                    let mut m: Vec<char> = Vec::new();
                    push_str(&mut m, "selected driveable path repeats edge ");
                    push_number(&mut m, id);
                    return Err(fail("RW404_OPENBVE_PATH_LOOP", m));
                }
                if fuel == 0 {
                    let mut m: Vec<char> = Vec::new();
                    push_str(&mut m, "selected driveable path loops at node ");
                    push_number(&mut m, current);
                    return Err(fail("RW404_OPENBVE_PATH_LOOP", m));
                }
                let ghost sel_before = idx_view(selected@);
                let ghost old_visited = visited@;
                let ghost old_used = used@;
                visited.push(current);
                used.push(id);
                selected.push(e);
                proof {
                    vis = vis.insert(current);
                    ids = ids.insert(id);
                    assert(idx_view(selected@) =~= sel_before.push(e as int));
                    assert forall|x: u64| vis.contains(x) implies visited@.contains(x) by {
                        if x == current {
                            assert(visited@[visited@.len() - 1] == x);
                        } else {
                            assert(old_visited.contains(x));
                            let j = choose|j: int| 0 <= j < old_visited.len() && old_visited[j] == x;
                            assert(visited@[j] == x);
                        }
                    }
                    assert forall|x: u64| visited@.contains(x) implies vis.contains(x) by {
                        let j = choose|j: int| 0 <= j < visited@.len() && visited@[j] == x;
                        if j < old_visited.len() {
                            assert(old_visited[j] == x);
                        }
                    }
                    assert forall|x: u64| ids.contains(x) implies used@.contains(x) by {
                        if x == id {
                            assert(used@[used@.len() - 1] == x);
                        } else {
                            assert(old_used.contains(x));
                            let j = choose|j: int| 0 <= j < old_used.len() && old_used[j] == x;
                            assert(used@[j] == x);
                        }
                    }
                    assert forall|x: u64| used@.contains(x) implies ids.contains(x) by {
                        let j = choose|j: int| 0 <= j < used@.len() && used@[j] == x;
                        if j < old_used.len() {
                            assert(old_used[j] == x);
                        }
                    }
                }
                current = edges[e].to;
                fuel -= 1;
            },
        }
    }
}

} // verus!
