//! The simulator-neutral vocabulary shared by every part of the library:
//! source formats, provenance, asset references, diagnostics and detections.
use vstd::prelude::*;

use crate::text::{decimal, decimal_chars, string_of, append, chars_of};

verus! {

/// The IR schema version that this library reads and writes.
pub const IR_SCHEMA_VERSION: u32 = 1;

/// A simulator or interchange format that content can come from.
#[derive(Clone, Copy, PartialEq, Eq, Structural, Debug, Hash)]
pub enum SourceFormat {
    BveOpenBve,
    MstsOpenRails,
    Trainz,
    RailWorks,
    Loksim3D,
    RailWeave,
    GeoJson,
    TrackCsv,
    Unknown,
}

/// The human-readable name of a format.
pub open spec fn format_label(f: SourceFormat) -> Seq<char> {
    match f {
        SourceFormat::BveOpenBve => "BVE/OpenBVE"@,
        SourceFormat::MstsOpenRails => "MSTS/OpenRails"@,
        SourceFormat::Trainz => "Trainz"@,
        SourceFormat::RailWorks => "Train Simulator / RailWorks"@,
        SourceFormat::Loksim3D => "Loksim3D"@,
        SourceFormat::RailWeave => "RailWeave JSON"@,
        SourceFormat::GeoJson => "GeoJSON"@,
        SourceFormat::TrackCsv => "RailWeave track CSV"@,
        SourceFormat::Unknown => "unknown"@,
    }
}

/// Law: different formats are shown under different names.
pub proof fn law_format_labels_are_distinct(a: SourceFormat, b: SourceFormat)
    ensures
        a != b ==> format_label(a) != format_label(b),
{
    reveal_strlit("BVE/OpenBVE");
    reveal_strlit("MSTS/OpenRails");
    reveal_strlit("Trainz");
    reveal_strlit("Train Simulator / RailWorks");
    reveal_strlit("Loksim3D");
    reveal_strlit("RailWeave JSON");
    reveal_strlit("GeoJSON");
    reveal_strlit("RailWeave track CSV");
    reveal_strlit("unknown");
    assert("BVE/OpenBVE"@.len() == 11);
    assert("MSTS/OpenRails"@.len() == 14);
    assert("Trainz"@.len() == 6);
    assert("Train Simulator / RailWorks"@.len() == 27);
    assert("Loksim3D"@.len() == 8);
    assert("RailWeave JSON"@.len() == 14);
    assert("GeoJSON"@.len() == 7);
    assert("RailWeave track CSV"@.len() == 19);
    assert("unknown"@.len() == 7);
    assert("MSTS/OpenRails"@[0] != "RailWeave JSON"@[0]);
    assert("GeoJSON"@[0] != "unknown"@[0]);
}

impl SourceFormat {
    /// The name under which the format is shown to users.
    pub fn label(&self) -> (s: &'static str)
        ensures
            s@ == format_label(*self),
    {
        match self {
            SourceFormat::BveOpenBve => "BVE/OpenBVE",
            SourceFormat::MstsOpenRails => "MSTS/OpenRails",
            SourceFormat::Trainz => "Trainz",
            SourceFormat::RailWorks => "Train Simulator / RailWorks",
            SourceFormat::Loksim3D => "Loksim3D",
            SourceFormat::RailWeave => "RailWeave JSON",
            SourceFormat::GeoJson => "GeoJSON",
            SourceFormat::TrackCsv => "RailWeave track CSV",
            SourceFormat::Unknown => "unknown",
        }
    }

    /// The label as an owned string (what `to_string` gives for the format).
    pub fn to_string(&self) -> (s: String)
        ensures
            s@ == format_label(*self),
    {
        self.label().to_owned()
    }
}

/// Where an imported entity came from.
#[derive(Debug)]
pub struct Provenance {
    pub source_format: SourceFormat,
    pub source_path: String,
    pub source_id: Option<String>,
}

pub struct ProvenanceView {
    pub source_format: SourceFormat,
    pub source_path: Seq<char>,
    pub source_id: Option<Seq<char>>,
}

pub open spec fn opt_str(o: Option<String>) -> Option<Seq<char>> {
    match o {
        Some(s) => Some(s@),
        None => None,
    }
}

pub fn copy_opt_string(o: &Option<String>) -> (r: Option<String>)
    ensures
        opt_str(r) == opt_str(*o),
{
    match o {
        Some(s) => Some(s.clone()),
        None => None,
    }
}

impl Provenance {
    pub open spec fn view(&self) -> ProvenanceView {
        ProvenanceView {
            source_format: self.source_format,
            source_path: self.source_path@,
            source_id: opt_str(self.source_id),
        }
    }

    pub fn duplicate(&self) -> (r: Provenance)
        ensures
            r.view() == self.view(),
    {
        Provenance {
            source_format: self.source_format,
            source_path: self.source_path.clone(),
            source_id: copy_opt_string(&self.source_id),
        }
    }
}

pub open spec fn opt_provenance(o: Option<Provenance>) -> Option<ProvenanceView> {
    match o {
        Some(p) => Some(p.view()),
        None => None,
    }
}

/// How serious a diagnostic is.
#[derive(Clone, Copy, PartialEq, Eq, Structural, Debug)]
pub enum Severity {
    Info,
    Warning,
    Error,
}

/// A coded message about a conversion step.
#[derive(Debug)]
pub struct Diagnostic {
    pub severity: Severity,
    pub code: String,
    pub message: String,
    pub provenance: Option<Provenance>,
}

pub struct DiagnosticView {
    pub severity: Severity,
    pub code: Seq<char>,
    pub message: Seq<char>,
    pub provenance: Option<ProvenanceView>,
}

impl Diagnostic {
    pub open spec fn view(&self) -> DiagnosticView {
        DiagnosticView {
            severity: self.severity,
            code: self.code@,
            message: self.message@,
            provenance: opt_provenance(self.provenance),
        }
    }

    /// A diagnostic without provenance.
    pub fn new(severity: Severity, code: &str, message: String) -> (d: Diagnostic)
        ensures
            d.view() == (DiagnosticView { severity, code: code@, message: message@, provenance: None }),
    {
        Diagnostic { severity, code: code.to_owned(), message, provenance: None }
    }

    /// The same diagnostic, attributed to `provenance`.
    pub fn with_provenance(self, provenance: Provenance) -> (d: Diagnostic)
        ensures
            d.view() == (DiagnosticView { provenance: Some(provenance.view()), ..self.view() }),
    {
        Diagnostic { provenance: Some(provenance), ..self }
    }

    pub fn duplicate(&self) -> (r: Diagnostic)
        ensures
            r.view() == self.view(),
    {
        Diagnostic {
            severity: self.severity,
            code: self.code.clone(),
            message: self.message.clone(),
            provenance: match &self.provenance {
                Some(p) => Some(p.duplicate()),
                None => None,
            },
        }
    }
}

pub open spec fn diagnostic_views(d: Seq<Diagnostic>) -> Seq<DiagnosticView> {
    d.map_values(|x: Diagnostic| x.view())
}

/// What kind of resource an asset reference points at.
#[derive(Clone, Copy, PartialEq, Eq, Structural, Debug)]
pub enum AssetKind {
    Mesh,
    Texture,
    Sound,
    Cab,
    RollingStock,
    Signal,
    Other,
}

/// A reference to a source asset, such as a rolling-stock file.
#[derive(Debug)]
pub struct AssetRef {
    pub id: u64,
    pub kind: AssetKind,
    pub name: Option<String>,
    pub provenance: Provenance,
}

pub struct AssetView {
    pub id: u64,
    pub kind: AssetKind,
    pub name: Option<Seq<char>>,
    pub provenance: ProvenanceView,
}

impl AssetRef {
    pub open spec fn view(&self) -> AssetView {
        AssetView {
            id: self.id,
            kind: self.kind,
            name: opt_str(self.name),
            provenance: self.provenance.view(),
        }
    }

    pub fn duplicate(&self) -> (r: AssetRef)
        ensures
            r.view() == self.view(),
    {
        AssetRef {
            id: self.id,
            kind: self.kind,
            name: copy_opt_string(&self.name),
            provenance: self.provenance.duplicate(),
        }
    }
}

pub open spec fn asset_views(a: Seq<AssetRef>) -> Seq<AssetView> {
    a.map_values(|x: AssetRef| x.view())
}

/// Electrification of a track edge.
#[derive(Debug)]
pub enum Electrification {
    /// No electrification.
    Unelectrified,
    Overhead { voltage: u32, dc: bool },
    ThirdRail { voltage: u32, dc: bool },
    Other(String),
}

/// Why an import could not produce a project.
#[derive(Debug)]
pub struct ImportError {
    pub code: String,
    pub message: String,
}

impl ImportError {
    pub fn new(code: &str, message: String) -> (e: ImportError)
        ensures
            e.code@ == code@,
            e.message@ == message@,
    {
        ImportError { code: code.to_owned(), message }
    }

    /// `code: message`, as the error is displayed.
    pub fn to_message(&self) -> (s: String)
        ensures
            s@ == self.code@ + ": "@ + self.message@,
    {
        let mut v = chars_of(self.code.as_str());
        append(&mut v, &chars_of(": "));
        append(&mut v, &chars_of(self.message.as_str()));
        string_of(&v)
    }
}

/// `start + k`, saturating at the largest id (ids handed out one after another
/// with `saturating_add(1)`).
pub open spec fn id_after(start: u64, k: nat) -> u64 {
    if start + k > u64::MAX {
        u64::MAX
    } else {
        (start + k) as u64
    }
}

/// The largest entity id among `ids`, or 0 when there is none.
pub open spec fn max_id(ids: Seq<u64>) -> u64
    decreases ids.len(),
{
    if ids.len() == 0 {
        0
    } else {
        let m = max_id(ids.drop_last());
        if ids.last() > m {
            ids.last()
        } else {
            m
        }
    }
}

pub proof fn lemma_max_id_bounds(ids: Seq<u64>)
    ensures
        forall|i: int| 0 <= i < ids.len() ==> #[trigger] ids[i] <= max_id(ids),
        ids.len() == 0 ==> max_id(ids) == 0,
        ids.len() > 0 ==> exists|i: int| 0 <= i < ids.len() && ids[i] == max_id(ids),
    decreases ids.len(),
{
    if ids.len() > 0 {
        lemma_max_id_bounds(ids.drop_last());
        assert forall|i: int| 0 <= i < ids.len() implies #[trigger] ids[i] <= max_id(ids) by {
            if i < ids.len() - 1 {
                assert(ids[i] == ids.drop_last()[i]);
            }
        }
        if ids.last() <= max_id(ids.drop_last()) && ids.len() > 1 {
            let j = choose|j: int| 0 <= j < ids.drop_last().len() && ids.drop_last()[j] == max_id(ids.drop_last());
            assert(ids[j] == ids.drop_last()[j]);
        }
    }
}

/// The largest entity id, or 0 (`Iterator::max` with `unwrap_or(0)`).
pub fn max_entity_id(ids: &[u64]) -> (m: u64)
    ensures
        m == max_id(ids@),
{
    let mut m: u64 = 0;
    let mut i: usize = 0;
    while i < ids.len()
        invariant
            i <= ids.len(),
            m == max_id(ids@.take(i as int)),
        decreases ids.len() - i,
    {
        assert(ids@.take(i + 1).drop_last() =~= ids@.take(i as int));
        if ids[i] > m {
            m = ids[i];
        }
        i += 1;
    }
    assert(ids@.take(ids.len() as int) =~= ids@);
    m
}

/// The decimal text of a number, as a `String`.
pub fn number_text(n: u64) -> (s: Vec<char>)
    ensures
        s@ == decimal(n as nat),
{
    decimal_chars(n)
}

} // verus!
