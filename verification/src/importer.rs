//! Choosing how a source is imported: by the best detection, and, for
//! simulators without a native importer, through a portable bridge file.
use vstd::prelude::*;

use crate::detect::{
    all_detections, builtin_detection, builtin_order, detect_all, detection_views, detections_of,
    law_detections_are_the_confident_ones, lemma_detection_of_fields, lone_portable, portable_rank, portable_rank_of,
    DetectionView, msts_findings, trainz_findings, bve_findings, railworks_findings, loksim_findings,
    interchange_findings, geojson_findings, track_csv_findings,
};
use crate::model::{
    diagnostic_views, format_label, Diagnostic, DiagnosticView, ImportError, Severity, SourceFormat,
};
use crate::paths::{extension, extension_of, SourceEntry};
use crate::text::{
    append, chars_of, decimal, eq_ignore_ascii_case, eq_ignore_case, lower_seq, lowercase, push_number, push_str,
    string_of,
};
use crate::trainz::{diagnostics_view, DiagnosticModel, TrainzConfigModel, TrainzConfigParse};

verus! {

/// The importer that reads a source.
#[derive(Clone, Copy, PartialEq, Eq, Structural, Debug)]
pub enum Importer {
    /// A RailWeave interchange (IR) file.
    Interchange,
    GeoJson,
    TrackCsv,
    Bve,
    /// MSTS/Open Rails, followed by the consist, vehicle and curve enrichments.
    Msts,
    /// A simulator without a native importer, read through a bundled bridge file.
    GameBridge(SourceFormat),
    /// A source that no detector recognises, read by an external adapter
    /// program found next to it (see `adapter_search`).
    Adapter,
}

pub open spec fn importer_for(f: SourceFormat) -> Importer {
    match f {
        SourceFormat::RailWeave => Importer::Interchange,
        SourceFormat::GeoJson => Importer::GeoJson,
        SourceFormat::TrackCsv => Importer::TrackCsv,
        SourceFormat::BveOpenBve => Importer::Bve,
        SourceFormat::MstsOpenRails => Importer::Msts,
        other => Importer::GameBridge(other),
    }
}

/// An import error as code and message.
pub open spec fn import_err(code: Seq<char>, message: Seq<char>) -> (Seq<char>, Seq<char>) {
    (code, message)
}

pub open spec fn error_view(e: ImportError) -> (Seq<char>, Seq<char>) {
    (e.code@, e.message@)
}

/// How a path is imported: it must exist; the most confident detection's
/// format picks the importer; a source that no detector recognises is read by
/// a discovered adapter program where one was found, and refused otherwise.
pub open spec fn import_plan(es: Seq<SourceEntry>, exists: bool, adapter_found: bool, display: Seq<char>) -> Result<
    Importer,
    (Seq<char>, Seq<char>),
> {
    if !exists {
        Err(import_err("RW001_PATH_NOT_FOUND"@, "path does not exist: "@ + display))
    } else if detections_of(es).len() == 0 && adapter_found {
        Ok(Importer::Adapter)
    } else if detections_of(es).len() == 0 {
        Err(
            import_err(
                "RW002_UNKNOWN_FORMAT"@,
                "no supported simulator format detected at "@ + display,
            ),
        )
    } else {
        Ok(importer_for(detections_of(es)[0].format))
    }
}

/// Picks the importer for the scanned entries of a path (`exists` tells
/// whether the path exists; `adapter_found` whether a program of
/// `adapter_search` exists; `display` is how the path is shown in messages).
pub fn import_path(entries: &[SourceEntry], exists: bool, adapter_found: bool, display: &str) -> (r: Result<
    Importer,
    ImportError,
>)
    ensures
        match r {
            Ok(i) => import_plan(entries@, exists, adapter_found, display@) == Ok::<Importer, (Seq<char>, Seq<char>)>(
                i,
            ),
            Err(e) => import_plan(entries@, exists, adapter_found, display@) == Err::<
                Importer,
                (Seq<char>, Seq<char>),
            >(error_view(e)),
        },
{
    if !exists {
        let mut m: Vec<char> = Vec::new();
        push_str(&mut m, "path does not exist: ");
        push_str(&mut m, display);
        return Err(ImportError::new("RW001_PATH_NOT_FOUND", string_of(&m)));
    }
    let detections = detect_all(entries);
    if detections.len() == 0 && adapter_found {
        return Ok(Importer::Adapter);
    }
    if detections.len() == 0 {
        let mut m: Vec<char> = Vec::new();
        push_str(&mut m, "no supported simulator format detected at ");
        push_str(&mut m, display);
        return Err(ImportError::new("RW002_UNKNOWN_FORMAT", string_of(&m)));
    }
    assert(detection_views(detections@)[0] == detections@[0]@);
    let importer = match detections[0].format {
        SourceFormat::RailWeave => Importer::Interchange,
        SourceFormat::GeoJson => Importer::GeoJson,
        SourceFormat::TrackCsv => Importer::TrackCsv,
        SourceFormat::BveOpenBve => Importer::Bve,
        SourceFormat::MstsOpenRails => Importer::Msts,
        other => Importer::GameBridge(other),
    };
    Ok(importer)
}

/// A portable importer is chosen only for a source that is a single portable
/// file of that kind: the one entry of its listing.
pub proof fn law_portable_importers_read_the_lone_file(es: Seq<SourceEntry>, exists: bool, adapter_found: bool, display: Seq<char>)
    ensures
        import_plan(es, exists, adapter_found, display) == Ok::<Importer, (Seq<char>, Seq<char>)>(Importer::Interchange) ==> lone_portable(es, 0),
        import_plan(es, exists, adapter_found, display) == Ok::<Importer, (Seq<char>, Seq<char>)>(Importer::GeoJson) ==> lone_portable(es, 1),
        import_plan(es, exists, adapter_found, display) == Ok::<Importer, (Seq<char>, Seq<char>)>(Importer::TrackCsv) ==> lone_portable(es, 2),
{
    let ds = detections_of(es);
    if exists && ds.len() > 0 {
        let x = ds[0];
        let all = all_detections(es);
        let f = all.filter(|d: DetectionView| d.confidence > 0);
        law_detections_are_the_confident_ones(es);
        assert(ds.to_multiset() == f.to_multiset());
        ds.to_multiset_ensures();
        f.to_multiset_ensures();
        assert(ds.contains(x));
        assert(f.to_multiset().count(x) > 0);
        assert(f.contains(x));
        all.lemma_filter_contains_rev(|d: DetectionView| d.confidence > 0, x);
        let k = choose|k: int| 0 <= k < all.len() && all[k] == x;
        let w = choose|w: int| 0 <= w < f.len() && f[w] == x;
        all.lemma_filter_pred(|d: DetectionView| d.confidence > 0, w);
        assert(x.confidence > 0);
        lemma_detection_of_fields("msts-openrails"@, SourceFormat::MstsOpenRails, msts_findings(es));
        lemma_detection_of_fields("trainz"@, SourceFormat::Trainz, trainz_findings(es));
        lemma_detection_of_fields("bve-openbve"@, SourceFormat::BveOpenBve, bve_findings(es));
        lemma_detection_of_fields("railworks"@, SourceFormat::RailWorks, railworks_findings(es));
        lemma_detection_of_fields("loksim3d"@, SourceFormat::Loksim3D, loksim_findings(es));
        lemma_detection_of_fields("railweave-json"@, SourceFormat::RailWeave, interchange_findings(es));
        lemma_detection_of_fields("geojson"@, SourceFormat::GeoJson, geojson_findings(es));
        lemma_detection_of_fields("railweave-track-csv"@, SourceFormat::TrackCsv, track_csv_findings(es));
        assert(x.confidence > 0);
        assert(builtin_order().len() == 8);
        assert(all[k] == builtin_detection(builtin_order()[k], es));
    }
}

/// The adapter program for a source named `name`: `railweave-adapter-`
/// followed by the name's ASCII-lowercased extension; none without one.
pub open spec fn adapter_program(name: Seq<char>) -> Option<Seq<char>> {
    match extension_of(name) {
        Some(e) => if e.len() > 0 {
            Some("railweave-adapter-"@ + lower_seq(e))
        } else {
            None
        },
        None => None,
    }
}

/// `n, n - 1, ..., 1`.
pub open spec fn search_depths(n: int) -> Seq<usize> {
    Seq::new(if n > 0 { n as nat } else { 0 }, |i: int| (n - i) as usize)
}

/// Where an adapter for a source is looked for: the program's name, and the
/// directories whose `.railweave/adapters` may hold it, as numbers of leading
/// components of the source's path, nearest first: the source's own directory
/// (the source itself for a directory, its parent for a file), then each
/// ancestor up to the first component.
pub open spec fn adapter_search_of(components: Seq<Seq<char>>, is_dir: bool) -> Option<(Seq<char>, Seq<usize>)> {
    if components.len() == 0 {
        None
    } else {
        match adapter_program(components.last()) {
            Some(p) => Some(
                (p, search_depths(if is_dir { components.len() as int } else { components.len() - 1 })),
            ),
            None => None,
        }
    }
}

/// Where to look for an external adapter program.
#[derive(Debug)]
pub struct AdapterSearch {
    pub program: String,
    /// Numbers of leading path components naming the directories to search, nearest first.
    pub depths: Vec<usize>,
}

/// Where to look for an adapter for a source with path `components`.
pub fn adapter_search(components: &Vec<String>, is_dir: bool) -> (r: Option<AdapterSearch>)
    ensures
        match r {
            Some(a) => adapter_search_of(components@.map_values(|c: String| c@), is_dir) == Some(
                (a.program@, a.depths@),
            ),
            None => adapter_search_of(components@.map_values(|c: String| c@), is_dir) is None,
        },
{
    let ghost cs = components@.map_values(|c: String| c@);
    if components.len() == 0 {
        return None;
    }
    let name = chars_of(components[components.len() - 1].as_str());
    assert(cs.last() == name@);
    let e = match extension(&name) {
        Some(e) => e,
        None => {
            return None;
        },
    };
    if e.len() == 0 {
        return None;
    }
    let mut p: Vec<char> = Vec::new();
    push_str(&mut p, "railweave-adapter-");
    let lower = lowercase(&e);
    append(&mut p, &lower);
    let n: usize = if is_dir {
        components.len()
    } else {
        components.len() - 1
    };
    let mut depths: Vec<usize> = Vec::new();
    let mut d: usize = n;
    while d > 0
        invariant
            d <= n,
            depths@ == search_depths(n as int).take(n - d),
        decreases d,
    {
        depths.push(d);
        assert(depths@ =~= search_depths(n as int).take(n - d + 1));
        d -= 1;
    }
    assert(search_depths(n as int).take(n as int) =~= search_depths(n as int));
    Some(AdapterSearch { program: string_of(&p), depths })
}

/// The portable file formats that a bridge can be.
#[derive(Clone, Copy, PartialEq, Eq, Structural, Debug)]
pub enum BridgeKind {
    Interchange,
    GeoJson,
    TrackCsv,
}

/// A bridge file's preference (lower is preferred): its portable kind.
pub open spec fn bridge_rank(name: Seq<char>) -> Option<nat> {
    portable_rank(name)
}

pub open spec fn bridge_kind(rank: nat) -> BridgeKind {
    if rank == 0 {
        BridgeKind::Interchange
    } else if rank == 1 {
        BridgeKind::GeoJson
    } else {
        BridgeKind::TrackCsv
    }
}

/// Among the first `n` entries: the first file of the most preferred bridge rank.
pub open spec fn best_bridge(es: Seq<SourceEntry>, n: int) -> Option<usize>
    decreases n,
{
    if n <= 0 {
        None
    } else {
        let b = best_bridge(es, n - 1);
        let e = es[n - 1];
        match (e.is_file, bridge_rank(e.name@)) {
            (true, Some(p)) => match b {
                None => Some((n - 1) as usize),
                Some(i) => if p < bridge_rank(es[i as int].name@)->Some_0 {
                    Some((n - 1) as usize)
                } else {
                    b
                },
            },
            _ => b,
        }
    }
}

proof fn lemma_best_bridge(es: Seq<SourceEntry>, n: int)
    requires
        0 <= n <= es.len(),
        es.len() <= usize::MAX,
    ensures
        best_bridge(es, n) matches Some(i) ==> i < n && es[i as int].is_file && bridge_rank(
            es[i as int].name@,
        ) is Some,
    decreases n,
{
    if n > 0 {
        lemma_best_bridge(es, n - 1);
    }
}

/// The bridge file to import: among regular files named `*.railweave.json`,
/// `*.geojson`, `*.railweave.csv` or `railweave-track.csv` (ignoring ASCII
/// case), the first of the most preferred kind, in that order.
pub fn bridge_choice(entries: &[SourceEntry]) -> (r: Option<(usize, BridgeKind)>)
    ensures
        r matches Some((i, k)) ==> best_bridge(entries@, entries@.len() as int) == Some(i) && k
            == bridge_kind(bridge_rank(entries@[i as int].name@)->Some_0),
        r is None ==> best_bridge(entries@, entries@.len() as int) is None,
{
    let mut best: Option<(usize, u8)> = None;
    let mut n: usize = 0;
    while n < entries.len()
        invariant
            n <= entries@.len(),
            match best {
                Some((i, p)) => best_bridge(entries@, n as int) == Some(i) && bridge_rank(
                    entries@[i as int].name@,
                ) == Some(p as nat),
                None => best_bridge(entries@, n as int) is None,
            },
        decreases entries.len() - n,
    {
        proof {
            lemma_best_bridge(entries@, n as int);
        }
        if entries[n].is_file {
            match portable_rank_of(&entries[n].name) {
                Some(p) => {
                    match best {
                        None => {
                            best = Some((n, p));
                        },
                        Some((_, q)) => {
                            if p < q {
                                best = Some((n, p));
                            }
                        },
                    }
                },
                None => {},
            }
        }
        n += 1;
    }
    match best {
        Some((i, p)) => {
            let kind = if p == 0 {
                BridgeKind::Interchange
            } else if p == 1 {
                BridgeKind::GeoJson
            } else {
                BridgeKind::TrackCsv
            };
            Some((i, kind))
        },
        None => None,
    }
}

pub open spec fn msg_needs_adapter(format: SourceFormat) -> Seq<char> {
    format_label(format)
        + " was detected, but this installation needs either a bundled portable export (.railweave.json, .geojson or .railweave.csv) or `railweave convert --adapter <program>` for that proprietary route revision"@
}

/// The error for a simulator that has no native importer and no bridge file.
pub fn bridge_missing(format: SourceFormat) -> (e: ImportError)
    ensures
        error_view(e) == import_err("RW003_IMPORT_NEEDS_ADAPTER"@, msg_needs_adapter(format)),
{
    let mut m: Vec<char> = Vec::new();
    push_str(&mut m, format.label());
    push_str(
        &mut m,
        " was detected, but this installation needs either a bundled portable export (.railweave.json, .geojson or .railweave.csv) or `railweave convert --adapter <program>` for that proprietary route revision",
    );
    ImportError::new("RW003_IMPORT_NEEDS_ADAPTER", string_of(&m))
}

/// The note that a source was read through its bridge file.
pub fn bridge_note(format: SourceFormat, bridge_display: &str) -> (d: Diagnostic)
    ensures
        d.view() == (DiagnosticView {
            severity: Severity::Info,
            code: "RW137_GAME_BRIDGE"@,
            message: "detected "@ + format_label(format) + " source and imported its portable bridge "@
                + bridge_display@,
            provenance: None,
        }),
{
    let mut m: Vec<char> = Vec::new();
    push_str(&mut m, "detected ");
    push_str(&mut m, format.label());
    push_str(&mut m, " source and imported its portable bridge ");
    push_str(&mut m, bridge_display);
    Diagnostic::new(Severity::Info, "RW137_GAME_BRIDGE", string_of(&m))
}

/// The first entry named `config.txt`, ignoring ASCII case.
pub open spec fn first_config(es: Seq<SourceEntry>, n: int) -> Option<usize>
    decreases n,
{
    if n <= 0 {
        None
    } else {
        match first_config(es, n - 1) {
            Some(i) => Some(i),
            None => if eq_ignore_case(es[n - 1].name@, "config.txt"@) {
                Some((n - 1) as usize)
            } else {
                None
            },
        }
    }
}

proof fn lemma_first_config_stays(es: Seq<SourceEntry>, a: int, b: int)
    requires
        0 <= a <= b,
        first_config(es, a) is Some,
    ensures
        first_config(es, b) == first_config(es, a),
    decreases b - a,
{
    if b > a {
        lemma_first_config_stays(es, a, b - 1);
    }
}

/// Where the Trainz `config.txt` of a bridged source is.
pub fn trainz_config_entry(entries: &[SourceEntry]) -> (r: Option<usize>)
    ensures
        r == first_config(entries@, entries@.len() as int),
{
    let target = chars_of("config.txt");
    let mut n: usize = 0;
    while n < entries.len()
        invariant
            n <= entries@.len(),
            target@ == "config.txt"@,
            first_config(entries@, n as int) is None,
        decreases entries.len() - n,
    {
        let name = chars_of(entries[n].name.as_str());
        if eq_ignore_ascii_case(&name, &target) {
            proof {
                assert(first_config(entries@, n + 1) == Some(n));
                lemma_first_config_stays(entries@, n + 1, entries@.len() as int);
            }
            return Some(n);
        }
        n += 1;
    }
    None
}

/// The present identity fields of a Trainz config (kuid, build, kind), in that order.
pub open spec fn identity_fields(c: TrainzConfigModel) -> Seq<Seq<char>> {
    let a = match c.kuid {
        Some(k) => seq![k],
        None => Seq::empty(),
    };
    let b = match c.trainz_build {
        Some(t) => a.push(t),
        None => a,
    };
    match c.kind {
        Some(k) => b.push(k),
        None => b,
    }
}

/// The identity fields joined by `, `.
pub open spec fn identity_text(parts: Seq<Seq<char>>) -> Seq<char>
    decreases parts.len(),
{
    if parts.len() == 0 {
        Seq::empty()
    } else if parts.len() == 1 {
        parts[0]
    } else {
        identity_text(parts.drop_last()) + ", "@ + parts.last()
    }
}

pub open spec fn msg_preserved(config_display: Seq<char>, c: TrainzConfigModel) -> Seq<char> {
    let identity = identity_text(identity_fields(c));
    "preserved Trainz asset metadata from "@ + config_display + if identity.len() == 0 {
        Seq::empty()
    } else {
        " ("@ + identity + ")"@
    }
}

pub open spec fn loss_note(config_display: Seq<char>, d: DiagnosticModel) -> DiagnosticView {
    DiagnosticView {
        severity: Severity::Warning,
        code: "RW139_TRAINZ_METADATA_LOSS"@,
        message: config_display + " line "@ + decimal(d.line) + ": "@ + d.message,
        provenance: None,
    }
}

/// What a bridged Trainz import keeps of its `config.txt`: a note with the
/// asset's identity, then one warning per line that the parse could not represent.
pub open spec fn trainz_notes(config_display: Seq<char>, p: (TrainzConfigModel, Seq<DiagnosticModel>)) -> Seq<
    DiagnosticView,
> {
    seq![
        DiagnosticView {
            severity: Severity::Info,
            code: "RW138_TRAINZ_METADATA"@,
            message: msg_preserved(config_display, p.0),
            provenance: None,
        },
    ] + Seq::new(p.1.len(), |k: int| loss_note(config_display, p.1[k]))
}

fn push_opt(parts: &mut Vec<String>, o: &Option<String>)
    ensures
        o matches Some(s) ==> final(parts)@.map_values(|x: String| x@) == old(parts)@.map_values(
            |x: String| x@,
        ).push(s@),
        o is None ==> final(parts)@ == old(parts)@,
{
    match o {
        Some(s) => {
            let ghost before = parts@;
            parts.push(s.clone());
            assert(parts@.map_values(|x: String| x@) =~= before.map_values(|x: String| x@).push(s@));
        },
        None => {},
    }
}

/// The title (the config's `username`, where it has one) and the diagnostics
/// that a bridged Trainz import takes from its parsed `config.txt`.
pub fn trainz_bridge_notes(config_display: &str, parsed: &TrainzConfigParse) -> (r: (
    Option<String>,
    Vec<Diagnostic>,
))
    ensures
        match r.0 {
            Some(t) => parsed.config.view().username == Some(t@),
            None => parsed.config.view().username is None,
        },
        diagnostic_views(r.1@) == trainz_notes(
            config_display@,
            (parsed.config.view(), diagnostics_view(parsed.diagnostics@)),
        ),
{
    let title = match &parsed.config.username {
        Some(u) => Some(u.clone()),
        None => None,
    };
    let mut parts: Vec<String> = Vec::new();
    push_opt(&mut parts, &parsed.config.kuid);
    push_opt(&mut parts, &parsed.config.trainz_build);
    push_opt(&mut parts, &parsed.config.kind);
    let ghost pv = parts@.map_values(|x: String| x@);
    assert(pv =~= identity_fields(parsed.config.view()));
    let mut identity: Vec<char> = Vec::new();
    let mut j: usize = 0;
    while j < parts.len()
        invariant
            j <= parts@.len(),
            pv == parts@.map_values(|x: String| x@),
            identity@ == identity_text(pv.take(j as int)),
        decreases parts.len() - j,
    {
        assert(pv.take(j + 1).drop_last() =~= pv.take(j as int));
        assert(pv.take(j + 1)[0] == pv[0]);
        if j > 0 {
            push_str(&mut identity, ", ");
        }
        push_str(&mut identity, parts[j].as_str());
        assert(identity@ =~= identity_text(pv.take(j + 1)));
        j += 1;
    }
    assert(pv.take(j as int) =~= pv);
    let mut m: Vec<char> = Vec::new();
    push_str(&mut m, "preserved Trainz asset metadata from ");
    push_str(&mut m, config_display);
    if identity.len() > 0 {
        push_str(&mut m, " (");
        crate::text::append(&mut m, &identity);
        push_str(&mut m, ")");
    }
    assert(m@ =~= msg_preserved(config_display@, parsed.config.view()));
    let mut notes: Vec<Diagnostic> = Vec::new();
    notes.push(Diagnostic::new(Severity::Info, "RW138_TRAINZ_METADATA", string_of(&m)));
    let ghost first = diagnostic_views(notes@);
    let mut k: usize = 0;
    while k < parsed.diagnostics.len()
        invariant
            k <= parsed.diagnostics@.len(),
            diagnostic_views(notes@) == first + Seq::new(
                k as nat,
                |q: int| loss_note(config_display@, parsed.diagnostics@[q].view()),
            ),
        decreases parsed.diagnostics.len() - k,
    {
        let d = &parsed.diagnostics[k];
        let mut msg: Vec<char> = Vec::new();
        push_str(&mut msg, config_display);
        push_str(&mut msg, " line ");
        push_number(&mut msg, d.line as u64);
        push_str(&mut msg, ": ");
        push_str(&mut msg, d.message.as_str());
        let note = Diagnostic::new(Severity::Warning, "RW139_TRAINZ_METADATA_LOSS", string_of(&msg));
        let ghost before = diagnostic_views(notes@);
        notes.push(note);
        assert(diagnostic_views(notes@) =~= before.push(note.view()));
        assert(first + Seq::new(
            (k + 1) as nat,
            |q: int| loss_note(config_display@, parsed.diagnostics@[q].view()),
        ) =~= (first + Seq::new(
            k as nat,
            |q: int| loss_note(config_display@, parsed.diagnostics@[q].view()),
        )).push(loss_note(config_display@, d.view())));
        k += 1;
    }
    assert(diagnostic_views(notes@) =~= trainz_notes(
        config_display@,
        (parsed.config.view(), diagnostics_view(parsed.diagnostics@)),
    ));
    (title, notes)
}

pub open spec fn info(code: Seq<char>, message: Seq<char>) -> DiagnosticView {
    DiagnosticView { severity: Severity::Info, code, message, provenance: None }
}

pub open spec fn warning(code: Seq<char>, message: Seq<char>) -> DiagnosticView {
    DiagnosticView { severity: Severity::Warning, code, message, provenance: None }
}

/// The largest output an external adapter may write (64 MiB).
pub const ADAPTER_OUTPUT_LIMIT: usize = 67108864;

/// An external adapter's output must stay within the protocol limit.
pub fn check_adapter_output(len: usize) -> (r: Result<(), ImportError>)
    ensures
        r is Ok <==> len <= ADAPTER_OUTPUT_LIMIT,
        r matches Err(e) ==> error_view(e) == import_err(
            "RW007_ADAPTER_OUTPUT_LIMIT"@,
            "external adapter output exceeds the 64 MiB protocol limit"@,
        ),
{
    if len > ADAPTER_OUTPUT_LIMIT {
        Err(
            ImportError::new(
                "RW007_ADAPTER_OUTPUT_LIMIT",
                "external adapter output exceeds the 64 MiB protocol limit".to_owned(),
            ),
        )
    } else {
        Ok(())
    }
}

/// An external adapter must return the IR schema that this library reads.
pub fn check_adapter_schema(version: u32) -> (r: Result<(), ImportError>)
    ensures
        r is Ok <==> version == crate::model::IR_SCHEMA_VERSION,
        r matches Err(e) ==> error_view(e) == import_err(
            "RW009_ADAPTER_SCHEMA"@,
            "adapter returned IR schema "@ + decimal(version as nat) + ", expected "@ + decimal(
                crate::model::IR_SCHEMA_VERSION as nat,
            ),
        ),
{
    if version == crate::model::IR_SCHEMA_VERSION {
        Ok(())
    } else {
        let mut m: Vec<char> = Vec::new();
        push_str(&mut m, "adapter returned IR schema ");
        push_number(&mut m, version as u64);
        push_str(&mut m, ", expected ");
        push_number(&mut m, crate::model::IR_SCHEMA_VERSION as u64);
        Err(ImportError::new("RW009_ADAPTER_SCHEMA", string_of(&m)))
    }
}

/// The note added to a result that an external adapter produced.
pub fn adapter_note(adapter_display: &str) -> (d: Diagnostic)
    ensures
        d.view() == info(
            "RW010_EXTERNAL_ADAPTER"@,
            "source imported through external adapter "@ + adapter_display@,
        ),
{
    let mut m: Vec<char> = Vec::new();
    push_str(&mut m, "source imported through external adapter ");
    push_str(&mut m, adapter_display);
    Diagnostic::new(Severity::Info, "RW010_EXTERNAL_ADAPTER", string_of(&m))
}

/// An MSTS source needs a track database, a path or a consist.
pub fn check_msts_content(tdb_files: usize, pat_files: usize, con_files: usize) -> (r: Result<(), ImportError>)
    ensures
        r is Ok <==> (tdb_files > 0 || pat_files > 0 || con_files > 0),
        r matches Err(e) ==> error_view(e) == import_err(
            "RW200_MSTS_CONTENT_NOT_FOUND"@,
            "MSTS/OpenRails was detected, but no supported .tdb track database, .pat path or .con consist was found"@,
        ),
{
    if tdb_files == 0 && pat_files == 0 && con_files == 0 {
        Err(
            ImportError::new(
                "RW200_MSTS_CONTENT_NOT_FOUND",
                "MSTS/OpenRails was detected, but no supported .tdb track database, .pat path or .con consist was found".to_owned(),
            ),
        )
    } else {
        Ok(())
    }
}

/// What follows the import of the first track database: on success the
/// route is imported (with a warning where there were several databases); on
/// failure the PAT path is tried where there is one (with a warning), and the
/// import fails otherwise.
pub open spec fn after_tdb_plan(
    outcome: Result<(), (Seq<char>, Seq<char>)>,
    tdb_files: nat,
    pat_files: nat,
    tdb_display: Seq<char>,
) -> Result<(bool, Option<DiagnosticView>), (Seq<char>, Seq<char>)> {
    match outcome {
        Ok(()) => Ok(
            (
                true,
                if tdb_files > 1 {
                    Some(
                        warning(
                            "RW215_MSTS_MULTIPLE_TDB"@,
                            decimal(tdb_files) + " TDB files found; imported "@ + tdb_display
                                + ". Pass a specific .tdb file to choose another track database."@,
                        ),
                    )
                } else {
                    None
                },
            ),
        ),
        Err((code, message)) => if pat_files > 0 {
            Ok(
                (
                    false,
                    Some(
                        warning(
                            "RW216_MSTS_TDB_FALLBACK_PAT"@,
                            "TDB import failed ("@ + code + ": "@ + message
                                + "); falling back to PAT topology because a supported path is available"@,
                        ),
                    ),
                ),
            )
        } else {
            Err((code, message))
        },
    }
}

pub fn after_tdb(outcome: Result<(), ImportError>, tdb_files: usize, pat_files: usize, tdb_display: &str) -> (r: Result<
    (bool, Option<Diagnostic>),
    ImportError,
>)
    ensures
        match r {
            Ok((imported, note)) => after_tdb_plan(
                match outcome {
                    Ok(()) => Ok(()),
                    Err(e) => Err(error_view(e)),
                },
                tdb_files as nat,
                pat_files as nat,
                tdb_display@,
            ) == Ok::<(bool, Option<DiagnosticView>), (Seq<char>, Seq<char>)>(
                (
                    imported,
                    match note {
                        Some(d) => Some(d.view()),
                        None => None,
                    },
                ),
            ),
            Err(e) => after_tdb_plan(
                match outcome {
                    Ok(()) => Ok(()),
                    Err(e) => Err(error_view(e)),
                },
                tdb_files as nat,
                pat_files as nat,
                tdb_display@,
            ) == Err::<(bool, Option<DiagnosticView>), (Seq<char>, Seq<char>)>(error_view(e)),
        },
{
    match outcome {
        Ok(()) => {
            if tdb_files > 1 {
                let mut m: Vec<char> = Vec::new();
                push_number(&mut m, tdb_files as u64);
                push_str(&mut m, " TDB files found; imported ");
                push_str(&mut m, tdb_display);
                push_str(&mut m, ". Pass a specific .tdb file to choose another track database.");
                assert(m@ =~= decimal(tdb_files as nat) + " TDB files found; imported "@ + tdb_display@
                    + ". Pass a specific .tdb file to choose another track database."@);
                Ok((true, Some(Diagnostic::new(Severity::Warning, "RW215_MSTS_MULTIPLE_TDB", string_of(&m)))))
            } else {
                Ok((true, None))
            }
        },
        Err(error) => {
            if pat_files > 0 {
                let mut m: Vec<char> = Vec::new();
                push_str(&mut m, "TDB import failed (");
                push_str(&mut m, error.to_message().as_str());
                push_str(&mut m, "); falling back to PAT topology because a supported path is available");
                assert(m@ =~= "TDB import failed ("@ + error.code@ + ": "@ + error.message@
                    + "); falling back to PAT topology because a supported path is available"@);
                Ok(
                    (
                        false,
                        Some(Diagnostic::new(Severity::Warning, "RW216_MSTS_TDB_FALLBACK_PAT", string_of(&m))),
                    ),
                )
            } else {
                Err(error)
            }
        },
    }
}

/// The warning where several PAT files were found.
pub fn multiple_paths_note(pat_files: usize, pat_display: &str) -> (r: Option<Diagnostic>)
    ensures
        match r {
            Some(d) => pat_files > 1 && d.view() == warning(
                "RW204_MSTS_MULTIPLE_PATHS"@,
                decimal(pat_files as nat) + " PAT files found; imported "@ + pat_display@
                    + ". Pass a specific .pat file to choose another path."@,
            ),
            None => pat_files <= 1,
        },
{
    if pat_files > 1 {
        let mut m: Vec<char> = Vec::new();
        push_number(&mut m, pat_files as u64);
        push_str(&mut m, " PAT files found; imported ");
        push_str(&mut m, pat_display);
        push_str(&mut m, ". Pass a specific .pat file to choose another path.");
        Some(Diagnostic::new(Severity::Warning, "RW204_MSTS_MULTIPLE_PATHS", string_of(&m)))
    } else {
        None
    }
}

} // verus!
