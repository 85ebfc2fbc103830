//! MSTS path (`.pat`) files: their path nodes and the waypoint topology they form.
use vstd::prelude::*;

use crate::model::{
    diagnostic_views, id_after, Diagnostic, DiagnosticView, Provenance, ProvenanceView, Severity,
    SourceFormat,
};
use crate::msts::{opt_u32, token_at};
use crate::stf::{parse_u32, token_views};
use crate::text::{chars_of, decimal, eq_ignore_ascii_case, eq_ignore_case, push_number, push_str, string_of};

verus! {

/// A `TrPathNode`: the path nodes it continues to and the PDP it stands on.
#[derive(Clone, Copy, PartialEq, Eq, Structural, Debug)]
pub struct PathNode {
    pub next_main: u32,
    pub next_siding: u32,
    pub pdp_index: u32,
}

/// The `TrPathNode ( flags main siding pdp ... )` entries from token `i` on
/// whose three numbers read as integers.
pub open spec fn path_nodes_from(t: Seq<Seq<char>>, i: int) -> Seq<PathNode>
    decreases t.len() - i,
{
    if i < 0 || i >= t.len() {
        Seq::empty()
    } else {
        let rest = path_nodes_from(t, i + 1);
        if eq_ignore_case(t[i], "trpathnode"@) && token_at(t, i + 1) == Some("("@) {
            match (opt_u32(token_at(t, i + 3)), opt_u32(token_at(t, i + 4)), opt_u32(token_at(t, i + 5))) {
                (Some(m), Some(s), Some(p)) => seq![PathNode { next_main: m, next_siding: s, pdp_index: p }] + rest,
                _ => rest,
            }
        } else {
            rest
        }
    }
}

/// The first path name, `Name ( text )`, from token `i` on.
pub open spec fn path_name_from(t: Seq<Seq<char>>, i: int) -> Option<Seq<char>>
    decreases t.len() - i,
{
    if i < 0 || i >= t.len() {
        None
    } else if eq_ignore_case(t[i], "name"@) && token_at(t, i + 1) == Some("("@) && i + 2 < t.len() {
        Some(t[i + 2])
    } else {
        path_name_from(t, i + 1)
    }
}

fn opens_at(tokens: &[Vec<char>], i: usize) -> (r: bool)
    ensures
        r == (token_at(token_views(tokens@), i as int) == Some("("@)),
{
    proof {
        reveal_strlit("(");
    }
    if i >= tokens.len() {
        return false;
    }
    let r = tokens[i].len() == 1 && tokens[i][0] == '(';
    if r {
        assert(tokens@[i as int]@ =~= "("@);
    }
    r
}

fn u32_at(tokens: &[Vec<char>], i: usize) -> (r: Option<u32>)
    ensures
        r == opt_u32(token_at(token_views(tokens@), i as int)),
{
    if i < tokens.len() {
        parse_u32(&tokens[i])
    } else {
        None
    }
}

/// The path nodes of a PAT file's tokens, in order.
pub fn pat_nodes(tokens: &[Vec<char>]) -> (r: Vec<PathNode>)
    ensures
        r@ == path_nodes_from(token_views(tokens@), 0),
{
    let ghost t = token_views(tokens@);
    let name = chars_of("trpathnode");
    let mut nodes: Vec<PathNode> = Vec::new();
    let mut i: usize = tokens.len();
    while i > 0
        invariant
            i <= tokens@.len(),
            t == token_views(tokens@),
            name@ == "trpathnode"@,
            nodes@ == path_nodes_from(t, i as int),
        decreases i,
    {
        i -= 1;
        assert(t[i as int] == tokens@[i as int]@);
        if eq_ignore_ascii_case(&tokens[i], &name) && opens_at(tokens, i + 1) {
            let m = if i < usize::MAX - 3 { u32_at(tokens, i + 3) } else { None };
            let s = if i < usize::MAX - 4 { u32_at(tokens, i + 4) } else { None };
            let p = if i < usize::MAX - 5 { u32_at(tokens, i + 5) } else { None };
            proof {
                let n = tokens.len();
                assert(tokens@.len() <= usize::MAX);
            }
            match (m, s, p) {
                (Some(m), Some(s), Some(p)) => {
                    let ghost rest = nodes@;
                    nodes.insert(0, PathNode { next_main: m, next_siding: s, pdp_index: p });
                    assert(nodes@ =~= seq![PathNode { next_main: m, next_siding: s, pdp_index: p }] + rest);
                },
                _ => {},
            }
        }
    }
    nodes
}

/// The path's name, where the file gives one.
pub fn pat_name(tokens: &[Vec<char>]) -> (r: Option<String>)
    ensures
        match r {
            Some(n) => path_name_from(token_views(tokens@), 0) == Some(n@),
            None => path_name_from(token_views(tokens@), 0) is None,
        },
{
    let ghost t = token_views(tokens@);
    let name = chars_of("name");
    let mut i: usize = 0;
    while i < tokens.len()
        invariant
            i <= tokens@.len(),
            t == token_views(tokens@),
            name@ == "name"@,
            path_name_from(t, 0) == path_name_from(t, i as int),
        decreases tokens.len() - i,
    {
        assert(t[i as int] == tokens@[i as int]@);
        if eq_ignore_ascii_case(&tokens[i], &name) && opens_at(tokens, i + 1) && tokens.len() - i > 2 {
            assert(t[i + 2] == tokens@[i + 2]@);
            return Some(string_of(tokens[i + 2].as_slice()));
        }
        i += 1;
    }
    None
}

/// The node ids of the first `n` path nodes: those on an existing PDP get the
/// next id from `start` on; the count of ids handed out comes second.
pub open spec fn pat_ids(nodes: Seq<PathNode>, pdp_count: nat, start: u64, n: int) -> (Seq<Option<u64>>, nat)
    decreases n,
{
    if n <= 0 {
        (Seq::empty(), 0)
    } else {
        let (ids, c) = pat_ids(nodes, pdp_count, start, n - 1);
        if nodes[n - 1].pdp_index < pdp_count {
            (ids.push(Some(id_after(start, c))), c + 1)
        } else {
            (ids.push(None), c)
        }
    }
}

pub open spec fn pat_source(path: Seq<char>, id: Seq<char>) -> ProvenanceView {
    ProvenanceView { source_format: SourceFormat::MstsOpenRails, source_path: path, source_id: Some(id) }
}

/// `TrPathNode:<k>`.
pub open spec fn node_label(k: nat) -> Seq<char> {
    "TrPathNode:"@ + decimal(k)
}

pub open spec fn kind_text(siding: bool) -> Seq<char> {
    if siding {
        "siding"@
    } else {
        "main"@
    }
}

proof fn lemma_pat_ids_len(nodes: Seq<PathNode>, pdp_count: nat, start: u64, n: int)
    requires
        0 <= n,
    ensures
        pat_ids(nodes, pdp_count, start, n).0.len() == n,
        pat_ids(nodes, pdp_count, start, n).1 <= n,
    decreases n,
{
    if n > 0 {
        lemma_pat_ids_len(nodes, pdp_count, start, n - 1);
    }
}

/// The warnings for path nodes on missing PDPs, in node order.
pub open spec fn missing_pdp_notes(nodes: Seq<PathNode>, pdp_count: nat, path: Seq<char>, n: int) -> Seq<DiagnosticView>
    decreases n,
{
    if n <= 0 {
        Seq::empty()
    } else {
        let rest = missing_pdp_notes(nodes, pdp_count, path, n - 1);
        if nodes[n - 1].pdp_index < pdp_count {
            rest
        } else {
            rest.push(
                DiagnosticView {
                    severity: Severity::Warning,
                    code: "RW205_MSTS_BAD_PDP_REFERENCE"@,
                    message: "TrPathNode "@ + decimal((n - 1) as nat) + " references missing TrackPDP "@
                        + decimal(nodes[n - 1].pdp_index as nat),
                    provenance: Some(pat_source(path, node_label((n - 1) as nat))),
                },
            )
        }
    }
}

/// A path link: its ends, and the path node and kind it came from.
pub struct LinkView {
    pub from: u64,
    pub to: u64,
    pub node: nat,
    pub siding: bool,
}

pub open spec fn links_contain(es: Seq<LinkView>, from: u64, to: u64) -> bool {
    exists|j: int| 0 <= j < es.len() && (#[trigger] es[j]).from == from && es[j].to == to
}

/// The links and warnings after the first `s` link attempts (main, then siding,
/// of each node in order): a target of `u32::MAX` means none; a target that
/// is no placed path node is reported; a link between two nodes already
/// linked is not repeated.
pub open spec fn pat_links(nodes: Seq<PathNode>, ids: Seq<Option<u64>>, path: Seq<char>, s: int) -> (Seq<LinkView>, Seq<DiagnosticView>)
    decreases s,
{
    if s <= 0 {
        (Seq::empty(), Seq::empty())
    } else {
        let (es, ds) = pat_links(nodes, ids, path, s - 1);
        let k = (s - 1) / 2;
        let siding = (s - 1) % 2 == 1;
        match ids[k] {
            None => (es, ds),
            Some(from) => {
                let target = if siding { nodes[k].next_siding } else { nodes[k].next_main };
                if target == u32::MAX {
                    (es, ds)
                } else if target >= ids.len() || ids[target as int] is None {
                    (
                        es,
                        ds.push(
                            DiagnosticView {
                                severity: Severity::Warning,
                                code: "RW206_MSTS_BAD_PATH_REFERENCE"@,
                                message: "TrPathNode "@ + decimal(k as nat) + " has invalid "@ + kind_text(siding)
                                    + " link to "@ + decimal(target as nat),
                                provenance: Some(pat_source(path, node_label(k as nat))),
                            },
                        ),
                    )
                } else {
                    let to = ids[target as int]->Some_0;
                    if links_contain(es, from, to) {
                        (es, ds)
                    } else {
                        (es.push(LinkView { from, to, node: k as nat, siding }), ds)
                    }
                }
            },
        }
    }
}

/// A track edge of the path topology.
#[derive(Debug)]
pub struct PatEdge {
    pub id: u64,
    pub from: u64,
    pub to: u64,
    /// `TrPathNode:<k>:<main|siding>`.
    pub source_id: String,
}

/// The waypoint topology of a path: an id for each path node on an existing
/// PDP, the edges between them, and what was reported on the way.
#[derive(Debug)]
pub struct PatTopology {
    pub node_ids: Vec<Option<u64>>,
    pub edges: Vec<PatEdge>,
    pub diagnostics: Vec<Diagnostic>,
}

pub open spec fn edge_view(e: PatEdge) -> (u64, u64, u64, Seq<char>) {
    (e.id, e.from, e.to, e.source_id@)
}

/// The edges of the links, numbered after the nodes' ids.
pub open spec fn numbered_edges(links: Seq<LinkView>, start: u64, node_count: nat) -> Seq<(u64, u64, u64, Seq<char>)> {
    Seq::new(
        links.len(),
        |j: int| (id_after(start, node_count + j as nat), links[j].from, links[j].to, node_label(links[j].node) + ":"@ + kind_text(links[j].siding)),
    )
}

pub open spec fn scope_note(path: Seq<char>) -> DiagnosticView {
    DiagnosticView {
        severity: Severity::Info,
        code: "RW207_MSTS_IMPORT_SCOPE"@,
        message: "current MSTS/OpenRails PAT importer converts waypoint topology using 2048 m MSTS tiles; route-wide TDB geometry is preferred when a supported .tdb is available"@,
        provenance: Some(ProvenanceView { source_format: SourceFormat::MstsOpenRails, source_path: path, source_id: None }),
    }
}

fn pat_provenance(path: &str, id: Option<String>) -> (p: Provenance)
    ensures
        p.view() == (ProvenanceView {
            source_format: SourceFormat::MstsOpenRails,
            source_path: path@,
            source_id: match id {
                Some(s) => Some(s@),
                None => None,
            },
        }),
{
    Provenance { source_format: SourceFormat::MstsOpenRails, source_path: path.to_owned(), source_id: id }
}

fn label_of(k: usize) -> (r: Vec<char>)
    ensures
        r@ == node_label(k as nat),
{
    let mut v: Vec<char> = Vec::new();
    push_str(&mut v, "TrPathNode:");
    push_number(&mut v, k as u64);
    v
}

fn has_link(edges: &Vec<PatEdge>, from: u64, to: u64) -> (r: bool)
    ensures
        r == exists|j: int| 0 <= j < edges@.len() && (#[trigger] edges@[j]).from == from && edges@[j].to == to,
{
    let mut j: usize = 0;
    while j < edges.len()
        invariant
            j <= edges@.len(),
            forall|q: int| 0 <= q < j ==> !((#[trigger] edges@[q]).from == from && edges@[q].to == to),
        decreases edges.len() - j,
    {
        if edges[j].from == from && edges[j].to == to {
            return true;
        }
        j += 1;
    }
    false
}

pub open spec fn links_match(edges: Seq<PatEdge>, links: Seq<LinkView>, start: u64, node_count: nat) -> bool {
    edges.map_values(|e: PatEdge| edge_view(e)) == numbered_edges(links, start, node_count)
}

/// Builds the waypoint topology of `nodes` standing on `pdp_count` PDPs, with
/// ids from `start` on; `path` is where the file is, for provenance.
pub fn pat_topology(nodes: &[PathNode], pdp_count: usize, start: u64, path: &str) -> (r: PatTopology)
    requires
        start + 3 * nodes@.len() <= u64::MAX,
    ensures
        ({
            let (ids, count) = pat_ids(nodes@, pdp_count as nat, start, nodes@.len() as int);
            let (links, notes) = pat_links(nodes@, ids, path@, 2 * nodes@.len() as int);
            &&& r.node_ids@ == ids
            &&& links_match(r.edges@, links, start, count)
            &&& diagnostic_views(r.diagnostics@) == missing_pdp_notes(nodes@, pdp_count as nat, path@, nodes@.len() as int)
                + notes + seq![scope_note(path@)]
        }),
{
    let mut ids: Vec<Option<u64>> = Vec::new();
    let mut diagnostics: Vec<Diagnostic> = Vec::new();
    let mut next: u64 = start;
    let mut count: u64 = 0;
    let mut k: usize = 0;
    while k < nodes.len()
        invariant
            k <= nodes@.len(),
            start + 3 * nodes@.len() <= u64::MAX,
            (ids@, count as nat) == pat_ids(nodes@, pdp_count as nat, start, k as int),
            count <= k,
            next == start + count,
            diagnostic_views(diagnostics@) == missing_pdp_notes(nodes@, pdp_count as nat, path@, k as int),
        decreases nodes.len() - k,
    {
        if (nodes[k].pdp_index as usize) < pdp_count {
            ids.push(Some(next));
            next = next + 1;
            count = count + 1;
        } else {
            ids.push(None);
            let mut m: Vec<char> = Vec::new();
            push_str(&mut m, "TrPathNode ");
            push_number(&mut m, k as u64);
            push_str(&mut m, " references missing TrackPDP ");
            push_number(&mut m, nodes[k].pdp_index as u64);
            let d = Diagnostic::new(Severity::Warning, "RW205_MSTS_BAD_PDP_REFERENCE", string_of(&m))
                .with_provenance(pat_provenance(path, Some(string_of(&label_of(k)))));
            let ghost before = diagnostic_views(diagnostics@);
            diagnostics.push(d);
            assert(diagnostic_views(diagnostics@) =~= before.push(d.view()));
        }
        k += 1;
    }
    let ghost all_ids = ids@;
    let ghost node_count = count as nat;
    let mut edges: Vec<PatEdge> = Vec::new();
    let ghost phase1 = diagnostic_views(diagnostics@);
    let mut s: u64 = 0;
    let attempts: u64 = 2 * (nodes.len() as u64);
    proof {
        lemma_pat_ids_len(nodes@, pdp_count as nat, start, nodes@.len() as int);
    }
    assert(edges@.map_values(|e: PatEdge| edge_view(e)) =~= numbered_edges(Seq::empty(), start, node_count));
    let n = nodes.len();
    assert(nodes@.len() == n);
    while s < attempts
        invariant
            attempts == 2 * nodes@.len(),
            nodes@.len() <= usize::MAX,
            s <= 2 * nodes@.len(),
            start + 3 * nodes@.len() <= u64::MAX,
            ids@ == all_ids,
            all_ids.len() == nodes@.len(),
            node_count <= nodes@.len(),
            ({
                let (links, notes) = pat_links(nodes@, all_ids, path@, s as int);
                &&& links_match(edges@, links, start, node_count)
                &&& diagnostic_views(diagnostics@) == phase1 + notes
                &&& links.len() <= s
            }),
            next == start + node_count + edges@.len(),
        decreases attempts - s,
    {
        let k = (s / 2) as usize;
        let siding = s % 2 == 1;
        let ghost prev = pat_links(nodes@, all_ids, path@, s as int);
        assert(k as int == ((s as int + 1) - 1) / 2 && k < nodes@.len());
        assert(siding == (((s as int + 1) - 1) % 2 == 1));
        match ids[k] {
            None => {},
            Some(from) => {
                let target = if siding { nodes[k].next_siding } else { nodes[k].next_main };
                if target == u32::MAX {
                } else if (target as usize) >= ids.len() || ids[target as usize].is_none() {
                    let mut m: Vec<char> = Vec::new();
                    push_str(&mut m, "TrPathNode ");
                    push_number(&mut m, k as u64);
                    push_str(&mut m, " has invalid ");
                    push_str(&mut m, if siding { "siding" } else { "main" });
                    push_str(&mut m, " link to ");
                    push_number(&mut m, target as u64);
                    let d = Diagnostic::new(Severity::Warning, "RW206_MSTS_BAD_PATH_REFERENCE", string_of(&m))
                        .with_provenance(pat_provenance(path, Some(string_of(&label_of(k)))));
                    let ghost before = diagnostic_views(diagnostics@);
                    diagnostics.push(d);
                    assert(diagnostic_views(diagnostics@) =~= before.push(d.view()));
                    assert(phase1 + prev.1.push(d.view()) =~= (phase1 + prev.1).push(d.view()));
                    assert(pat_links(nodes@, all_ids, path@, s as int + 1) == (prev.0, prev.1.push(d.view())));
                } else {
                    let to = match ids[target as usize] {
                        Some(t) => t,
                        None => 0,
                    };
                    proof {
                        let nv = numbered_edges(prev.0, start, node_count);
                        assert(edges@.map_values(|e: PatEdge| edge_view(e)) == nv);
                        assert(edges@.map_values(|e: PatEdge| edge_view(e)).len() == nv.len());
                        assert(edges@.len() == prev.0.len());
                        assert forall|j: int| 0 <= j < edges@.len() implies #[trigger] edge_view(edges@[j]) == nv[j] by {
                            assert(edges@.map_values(|e: PatEdge| edge_view(e))[j] == edge_view(edges@[j]));
                        }
                        assert((exists|j: int| 0 <= j < edges@.len() && (#[trigger] edges@[j]).from == from && edges@[j].to == to)
                            == links_contain(prev.0, from, to)) by {
                            if exists|j: int| 0 <= j < edges@.len() && (#[trigger] edges@[j]).from == from && edges@[j].to == to {
                                let j = choose|j: int| 0 <= j < edges@.len() && (#[trigger] edges@[j]).from == from && edges@[j].to == to;
                                assert(edge_view(edges@[j]) == numbered_edges(prev.0, start, node_count)[j]);
                                assert(prev.0[j].from == from && prev.0[j].to == to);
                            }
                            if links_contain(prev.0, from, to) {
                                let j = choose|j: int| 0 <= j < prev.0.len() && (#[trigger] prev.0[j]).from == from && prev.0[j].to == to;
                                assert(edge_view(edges@[j]) == numbered_edges(prev.0, start, node_count)[j]);
                            }
                        }
                    }
                    if !has_link(&edges, from, to) {
                        let mut label = label_of(k);
                        push_str(&mut label, ":");
                        push_str(&mut label, if siding { "siding" } else { "main" });
                        let e = PatEdge { id: next, from, to, source_id: string_of(&label) };
                        let ghost before = edges@;
                        edges.push(e);
                        next = next + 1;
                        proof {
                            let links = prev.0.push(LinkView { from, to, node: k as nat, siding });
                            assert(edges@.map_values(|e: PatEdge| edge_view(e)) =~= numbered_edges(links, start, node_count)) by {
                                assert forall|j: int| 0 <= j < before.len() implies #[trigger] edge_view(edges@[j]) == numbered_edges(links, start, node_count)[j] by {
                                    assert(before.map_values(|e: PatEdge| edge_view(e))[j] == edge_view(before[j]));
                                }
                            }
                        }
                    }
                }
            },
        }
        s += 1;
    }
    let note = Diagnostic::new(
        Severity::Info,
        "RW207_MSTS_IMPORT_SCOPE",
        "current MSTS/OpenRails PAT importer converts waypoint topology using 2048 m MSTS tiles; route-wide TDB geometry is preferred when a supported .tdb is available".to_owned(),
    ).with_provenance(pat_provenance(path, None));
    let ghost before = diagnostic_views(diagnostics@);
    diagnostics.push(note);
    assert(diagnostic_views(diagnostics@) =~= before.push(note.view()));
    PatTopology { node_ids: ids, edges, diagnostics }
}

/// No two path links join the same pair of nodes in the same direction, and
/// every link joins placed path nodes.
pub proof fn law_pat_links_are_distinct(nodes: Seq<PathNode>, ids: Seq<Option<u64>>, path: Seq<char>, s: int)
    requires
        0 <= s <= 2 * nodes.len(),
        ids.len() == nodes.len(),
    ensures
        ({
            let links = pat_links(nodes, ids, path, s).0;
            &&& forall|i: int, j: int|
                0 <= i < j < links.len() ==> !((#[trigger] links[i]).from == (#[trigger] links[j]).from
                    && links[i].to == links[j].to)
            &&& forall|i: int|
                0 <= i < links.len() ==> ids.contains(Some((#[trigger] links[i]).from)) && ids.contains(
                    Some(links[i].to),
                )
        }),
    decreases s,
{
    if s > 0 {
        law_pat_links_are_distinct(nodes, ids, path, s - 1);
        let prev = pat_links(nodes, ids, path, s - 1).0;
        let links = pat_links(nodes, ids, path, s).0;
        let k = (s - 1) / 2;
        if links.len() > prev.len() {
            assert forall|i: int| 0 <= i < prev.len() implies #[trigger] links[i] == prev[i] by {}
            let last = links[links.len() - 1];
            assert(ids[k] == Some(last.from));
            let target = if (s - 1) % 2 == 1 { nodes[k].next_siding } else { nodes[k].next_main };
            assert(ids[target as int] == Some(last.to));
            assert forall|i: int, j: int|
                0 <= i < j < links.len() implies !((#[trigger] links[i]).from == (#[trigger] links[j]).from
                    && links[i].to == links[j].to) by {
                if j == links.len() - 1 {
                    if links[i].from == links[j].from && links[i].to == links[j].to {
                        assert(links_contain(prev, last.from, last.to)) by {
                            assert(prev[i] == links[i]);
                        }
                    }
                }
            }
        }
    }
}

} // verus!
